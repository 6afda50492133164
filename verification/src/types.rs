//! The domain model: the typed record that a parsed log is delivered as.
//!
//! Textual values are carried as UTF-8 byte vectors, so that every contract
//! can speak of them directly as sequences of bytes.
use vstd::prelude::*;

verus! {

/// The ripping tool that produced a log.
#[derive(Debug, Clone, Copy, PartialEq, Eq, Structural)]
pub enum Ripper {
    EAC,
    XLD,
    Whipper,
    CueRipper,
    DBpoweramp,
    CyanRip,
    EzCd,
    Morituri,
    Rip,
    FreAc,
    Other,
}

/// A four-valued truth value for on/off settings: `Unknown` means the log
/// does not mention the setting, `Unsupported` that the ripper cannot
/// express it.
#[derive(Debug, Clone, Copy, PartialEq, Eq, Structural)]
pub enum Quartet {
    True,
    False,
    Unknown,
    Unsupported,
}

/// The kind of disc the log reports.
#[derive(Debug, Clone, Copy, PartialEq, Eq, Structural)]
pub enum MediaType {
    Pressed,
    CDR,
    Other,
    Unknown,
}

/// The extraction strategy the ripper was set to.
#[derive(Debug, Clone, Copy, PartialEq, Eq, Structural)]
pub enum ReadMode {
    Secure,
    Paranoid,
    Fast,
    Burst,
    Unknown,
}

/// How the ripper treated pre-gaps.
#[derive(Debug, Clone, Copy, PartialEq, Eq, Structural)]
pub enum Gap {
    Append,
    AppendNoHtoa,
    AppendUndetected,
    Prepend,
    Discard,
    Unknown,
    Inapplicable,
}

/// Outcome of comparing two values that should agree.
#[derive(Debug, Clone, Copy, PartialEq, Eq, Structural)]
pub enum Integrity {
    Match,
    Mismatch,
    Unknown,
}

/// A non-negative duration, carried in centi-frames.
///
/// One audio-CD frame is 1/75 s and one centi-frame is 1/7500 s, so both the
/// `mm:ss.cs` (centisecond) and the `mm:ss:ff` (frame) notations of the logs
/// are represented exactly: a centisecond is 75 centi-frames and a frame is
/// 100 centi-frames.  The value serializes as `centiframes / 7500` fractional
/// seconds.
#[derive(Debug, Clone, Copy, PartialEq, Eq, Structural)]
pub struct Time {
    pub centiframes: u64,
}

/// Artist and title of the release a log is about.
#[derive(Debug, Clone, PartialEq, Eq)]
pub struct ReleaseInfo {
    pub artist: Vec<u8>,
    pub title: Vec<u8>,
}

impl ReleaseInfo {
    /// A release with the given artist and title.
    pub fn new(artist: Vec<u8>, title: Vec<u8>) -> (r: ReleaseInfo)
        ensures
            r.artist == artist,
            r.title == title,
    {
        ReleaseInfo { artist, title }
    }

    /// The empty release, used when the log names none.
    pub fn empty() -> (r: ReleaseInfo)
        ensures
            r.artist@ == Seq::<u8>::empty(),
            r.title@ == Seq::<u8>::empty(),
    {
        ReleaseInfo { artist: Vec::new(), title: Vec::new() }
    }
}

/// One row of the table of contents.
#[derive(Debug, Clone, PartialEq, Eq)]
pub struct TocEntry {
    pub track: u8,
    pub start: Time,
    pub length: Time,
    pub start_sector: u32,
    pub end_sector: u32,
}

/// A derived disc identifier: a hash together with the URL it can be looked
/// up under.  The derivations are external collaborators, so both parts stay
/// empty here.
#[derive(Debug, Clone, PartialEq, Eq)]
pub struct TocHash {
    pub hash: Vec<u8>,
    pub url: Vec<u8>,
}

impl TocHash {
    /// An empty identifier.
    pub fn empty() -> (r: TocHash)
        ensures
            r.hash@ == Seq::<u8>::empty(),
            r.url@ == Seq::<u8>::empty(),
    {
        TocHash { hash: Vec::new(), url: Vec::new() }
    }
}

/// The rows of the table of contents as they stood in the log.
#[derive(Debug, Clone, PartialEq, Eq)]
pub struct TocRaw {
    pub entries: Vec<TocEntry>,
}

/// The table of contents plus the derived disc identifiers.
#[derive(Debug, Clone, PartialEq, Eq)]
pub struct Toc {
    pub raw: TocRaw,
    pub freedb: TocHash,
    pub accurip_tocid: TocHash,
    pub ctdb_tocid: TocHash,
    pub mbz: TocHash,
    pub gn: TocHash,
    pub mcdi: TocHash,
}

impl Toc {
    /// Wraps raw rows; the derived identifiers stay empty.
    pub fn new(raw: TocRaw) -> (r: Toc)
        ensures
            r.raw == raw,
            r.freedb.hash@ == Seq::<u8>::empty() && r.freedb.url@ == Seq::<u8>::empty(),
            r.accurip_tocid.hash@ == Seq::<u8>::empty() && r.accurip_tocid.url@ == Seq::<
                u8,
            >::empty(),
            r.ctdb_tocid.hash@ == Seq::<u8>::empty() && r.ctdb_tocid.url@ == Seq::<u8>::empty(),
            r.mbz.hash@ == Seq::<u8>::empty() && r.mbz.url@ == Seq::<u8>::empty(),
            r.gn.hash@ == Seq::<u8>::empty() && r.gn.url@ == Seq::<u8>::empty(),
            r.mcdi.hash@ == Seq::<u8>::empty() && r.mcdi.url@ == Seq::<u8>::empty(),
    {
        Toc {
            raw,
            freedb: TocHash::empty(),
            accurip_tocid: TocHash::empty(),
            ctdb_tocid: TocHash::empty(),
            mbz: TocHash::empty(),
            gn: TocHash::empty(),
            mcdi: TocHash::empty(),
        }
    }
}

/// The test-pass and copy-pass hashes of one track and whether they agree.
#[derive(Debug, Clone, PartialEq, Eq)]
pub struct TestAndCopy {
    pub test_hash: Vec<u8>,
    pub copy_hash: Vec<u8>,
    pub integrity: Integrity,
}

/// What `TestAndCopy::integrity` is for the given pair of hashes: unknown
/// when either pass is missing, otherwise the result of comparing them.
pub open spec fn spec_test_and_copy_integrity(test: Seq<u8>, copy: Seq<u8>) -> Integrity {
    if test.len() == 0 || copy.len() == 0 {
        Integrity::Unknown
    } else if test == copy {
        Integrity::Match
    } else {
        Integrity::Mismatch
    }
}

impl TestAndCopy {
    /// Combines the two hashes of a track; the integrity verdict is
    /// `Unknown` when either pass is absent from the log.
    pub fn new_no_skipzero(test_hash: Vec<u8>, copy_hash: Vec<u8>) -> (r: TestAndCopy)
        ensures
            r.test_hash == test_hash,
            r.copy_hash == copy_hash,
            r.integrity == spec_test_and_copy_integrity(test_hash@, copy_hash@),
    {
        let integrity = if test_hash.len() == 0 || copy_hash.len() == 0 {
            Integrity::Unknown
        } else if super::textscan::bytes_eq(&test_hash, &copy_hash) {
            Integrity::Match
        } else {
            Integrity::Mismatch
        };
        proof {
            if test_hash@.len() != 0 && copy_hash@.len() != 0 {
                assert(test_hash@ =~= copy_hash@ <==> test_hash@ == copy_hash@);
            }
        }
        TestAndCopy { test_hash, copy_hash, integrity }
    }
}

/// A region of a track in which an error was reported.
#[derive(Debug, Clone, PartialEq, Eq)]
pub struct TrackErrorRange {
    pub start: Time,
    pub length: Time,
}

/// How often one kind of error occurred, with the regions it was located in
/// when the log lists them.
#[derive(Debug, Clone, PartialEq, Eq)]
pub struct TrackErrorData {
    pub count: u32,
    pub ranges: Vec<TrackErrorRange>,
}

impl TrackErrorData {
    /// A count with its located ranges.
    pub fn new(count: u32, ranges: Vec<TrackErrorRange>) -> (r: TrackErrorData)
        ensures
            r.count == count,
            r.ranges == ranges,
    {
        TrackErrorData { count, ranges }
    }

    /// A bare count without located ranges.
    pub fn from_count(count: u32) -> (r: TrackErrorData)
        ensures
            r.count == count,
            r.ranges@.len() == 0,
    {
        TrackErrorData { count, ranges: Vec::new() }
    }
}

/// The error tallies of one track, one `TrackErrorData` per error kind.
#[derive(Debug, Clone, PartialEq, Eq)]
pub struct TrackError {
    pub read: TrackErrorData,
    pub skip: TrackErrorData,
    pub jitter_generic: TrackErrorData,
    pub jitter_edge: TrackErrorData,
    pub jitter_atom: TrackErrorData,
    pub drift: TrackErrorData,
    pub dropped: TrackErrorData,
    pub duplicated: TrackErrorData,
    pub damaged_sectors: TrackErrorData,
    pub inconsistent_err_sectors: TrackErrorData,
    pub missing_samples: TrackErrorData,
}

/// Whether an AccurateRip signature matched at the drive's own offset or at
/// a corrected one.
#[derive(Debug, Clone, Copy, PartialEq, Eq, Structural)]
pub enum AccurateRipOffset {
    Same,
    Different(Option<i32>),
}

/// The population a confidence value is out of.
#[derive(Debug, Clone, Copy, PartialEq, Eq, Structural)]
pub enum AccurateRipConfidenceTotal {
    All(u32),
    Version(u32),
}

/// How confidently the AccurateRip database agreed with one signature.
#[derive(Debug, Clone, Copy, PartialEq, Eq, Structural)]
pub struct AccurateRipConfidence {
    pub matching: Option<u32>,
    pub total: Option<AccurateRipConfidenceTotal>,
    pub offset: AccurateRipOffset,
}

/// The verdict of one AccurateRip lookup.
#[derive(Debug, Clone, Copy, PartialEq, Eq, Structural)]
pub enum AccurateRipStatus {
    Match,
    Mismatch,
    Offsetted,
    NotFound,
    Disabled,
}

/// One AccurateRip signature line of a track, with the verdict drawn from
/// its surroundings.
#[derive(Debug, Clone, PartialEq, Eq)]
pub struct AccurateRipUnit {
    pub status: AccurateRipStatus,
    pub version: Option<u8>,
    pub sign: Vec<u8>,
    pub offset_sign: Vec<u8>,
    pub confidence: Option<AccurateRipConfidence>,
}

/// The verdict for a signature line: `NotFound` without a confidence entry,
/// otherwise `Offsetted` when the summary reported an offset correction and
/// `Match` when it did not.
pub open spec fn spec_ar_status(confidence: Option<AccurateRipConfidence>) -> AccurateRipStatus {
    match confidence {
        Option::None => AccurateRipStatus::NotFound,
        Option::Some(c) => match c.offset {
            AccurateRipOffset::Same => AccurateRipStatus::Match,
            AccurateRipOffset::Different(_) => AccurateRipStatus::Offsetted,
        },
    }
}

impl AccurateRipUnit {
    /// A unit for one signature line of an XLD log.
    pub fn new_xld(
        version: Option<u8>,
        sign: Vec<u8>,
        offset_sign: Vec<u8>,
        confidence: Option<AccurateRipConfidence>,
    ) -> (r: AccurateRipUnit)
        ensures
            r.status == spec_ar_status(confidence),
            r.version == version,
            r.sign == sign,
            r.offset_sign == offset_sign,
            r.confidence == confidence,
            r.status != AccurateRipStatus::Disabled,
    {
        let status = match &confidence {
            Option::None => AccurateRipStatus::NotFound,
            Option::Some(c) => match c.offset {
                AccurateRipOffset::Same => AccurateRipStatus::Match,
                AccurateRipOffset::Different(_) => AccurateRipStatus::Offsetted,
            },
        };
        AccurateRipUnit { status, version, sign, offset_sign, confidence }
    }

    /// The unit emitted when a track has no AccurateRip block at all.
    pub fn new_disabled() -> (r: AccurateRipUnit)
        ensures
            r.status == AccurateRipStatus::Disabled,
            r.version == Option::<u8>::None,
            r.sign@ == Seq::<u8>::empty(),
            r.offset_sign@ == Seq::<u8>::empty(),
            r.confidence == Option::<AccurateRipConfidence>::None,
    {
        AccurateRipUnit {
            status: AccurateRipStatus::Disabled,
            version: Option::None,
            sign: Vec::new(),
            offset_sign: Vec::new(),
            confidence: Option::None,
        }
    }
}

/// Everything extracted from one track block of a log.
#[derive(Debug, Clone, PartialEq, Eq)]
pub struct TrackEntry {
    pub num: u8,
    pub is_range: bool,
    pub aborted: bool,
    pub filenames: Vec<Vec<u8>>,
    pub peak_level: Option<Vec<u8>>,
    pub pregap_length: Option<Time>,
    pub extraction_speed: Option<Vec<u8>>,
    pub gain: Option<Vec<u8>>,
    pub preemphasis: Quartet,
    pub test_and_copy: TestAndCopy,
    pub errors: TrackError,
    pub ar_info: Vec<AccurateRipUnit>,
}

/// The authenticity verdict of a log: the signature string computed over the
/// log body, the one embedded in the log, and whether they agree.
#[derive(Debug, Clone, PartialEq, Eq)]
pub struct Checksum {
    pub calculated: Vec<u8>,
    pub embedded: Vec<u8>,
    pub integrity: Integrity,
}

/// Everything extracted from one sub-log.
#[derive(Debug, Clone, PartialEq, Eq)]
pub struct ParsedLog {
    pub ripper: Ripper,
    pub ripper_version: Vec<u8>,
    pub language: Vec<u8>,
    pub release_info: ReleaseInfo,
    pub read_offset: Option<i16>,
    pub drive: Vec<u8>,
    pub media_type: MediaType,
    pub accurate_stream: Quartet,
    pub defeat_audio_cache: Quartet,
    pub use_c2: Quartet,
    pub use_null_samples: Quartet,
    pub test_and_copy: Quartet,
    pub read_mode: ReadMode,
    pub gap_handling: Gap,
    pub checksum: Checksum,
    pub toc: Toc,
    pub tracks: Vec<TrackEntry>,
    pub audio_encoder: Vec<Vec<u8>>,
}

/// One physical log file: its encoding label and the sub-logs it contained.
#[derive(Debug, Clone, PartialEq, Eq)]
pub struct ParsedLogCombined {
    pub parsed_logs: Vec<ParsedLog>,
    pub encoding: Vec<u8>,
}

/// The full result for one input: a stable identifier hashed from the raw
/// bytes, and the parsed content.
#[derive(Debug, Clone, PartialEq, Eq)]
pub struct CambiaResponse {
    pub id: Vec<u8>,
    pub parsed: ParsedLogCombined,
}

/// The one error the parse surfaces: the input resembles no log at all.
#[derive(Debug, Clone, Copy, PartialEq, Eq, Structural)]
pub enum CambiaError {
    CouldNotParse,
}

/// Ghost form of [`ReleaseInfo`].
pub ghost struct ReleaseInfoV {
    pub artist: Seq<u8>,
    pub title: Seq<u8>,
}

impl View for ReleaseInfo {
    type V = ReleaseInfoV;

    open spec fn view(&self) -> ReleaseInfoV {
        ReleaseInfoV { artist: self.artist@, title: self.title@ }
    }
}

/// Ghost form of [`TocHash`].
pub ghost struct TocHashV {
    pub hash: Seq<u8>,
    pub url: Seq<u8>,
}

impl View for TocHash {
    type V = TocHashV;

    open spec fn view(&self) -> TocHashV {
        TocHashV { hash: self.hash@, url: self.url@ }
    }
}

/// Ghost form of [`Toc`].
pub ghost struct TocV {
    pub raw: Seq<TocEntry>,
    pub freedb: TocHashV,
    pub accurip_tocid: TocHashV,
    pub ctdb_tocid: TocHashV,
    pub mbz: TocHashV,
    pub gn: TocHashV,
    pub mcdi: TocHashV,
}

impl View for Toc {
    type V = TocV;

    open spec fn view(&self) -> TocV {
        TocV {
            raw: self.raw.entries@,
            freedb: self.freedb@,
            accurip_tocid: self.accurip_tocid@,
            ctdb_tocid: self.ctdb_tocid@,
            mbz: self.mbz@,
            gn: self.gn@,
            mcdi: self.mcdi@,
        }
    }
}

/// Ghost form of [`TestAndCopy`].
pub ghost struct TestAndCopyV {
    pub test_hash: Seq<u8>,
    pub copy_hash: Seq<u8>,
    pub integrity: Integrity,
}

impl View for TestAndCopy {
    type V = TestAndCopyV;

    open spec fn view(&self) -> TestAndCopyV {
        TestAndCopyV {
            test_hash: self.test_hash@,
            copy_hash: self.copy_hash@,
            integrity: self.integrity,
        }
    }
}

/// Ghost form of [`TrackErrorData`].
pub ghost struct TrackErrorDataV {
    pub count: u32,
    pub ranges: Seq<TrackErrorRange>,
}

impl View for TrackErrorData {
    type V = TrackErrorDataV;

    open spec fn view(&self) -> TrackErrorDataV {
        TrackErrorDataV { count: self.count, ranges: self.ranges@ }
    }
}

/// Ghost form of [`TrackError`].
pub ghost struct TrackErrorV {
    pub read: TrackErrorDataV,
    pub skip: TrackErrorDataV,
    pub jitter_generic: TrackErrorDataV,
    pub jitter_edge: TrackErrorDataV,
    pub jitter_atom: TrackErrorDataV,
    pub drift: TrackErrorDataV,
    pub dropped: TrackErrorDataV,
    pub duplicated: TrackErrorDataV,
    pub damaged_sectors: TrackErrorDataV,
    pub inconsistent_err_sectors: TrackErrorDataV,
    pub missing_samples: TrackErrorDataV,
}

impl View for TrackError {
    type V = TrackErrorV;

    open spec fn view(&self) -> TrackErrorV {
        TrackErrorV {
            read: self.read@,
            skip: self.skip@,
            jitter_generic: self.jitter_generic@,
            jitter_edge: self.jitter_edge@,
            jitter_atom: self.jitter_atom@,
            drift: self.drift@,
            dropped: self.dropped@,
            duplicated: self.duplicated@,
            damaged_sectors: self.damaged_sectors@,
            inconsistent_err_sectors: self.inconsistent_err_sectors@,
            missing_samples: self.missing_samples@,
        }
    }
}

/// Ghost form of [`AccurateRipUnit`].
pub ghost struct AccurateRipUnitV {
    pub status: AccurateRipStatus,
    pub version: Option<u8>,
    pub sign: Seq<u8>,
    pub offset_sign: Seq<u8>,
    pub confidence: Option<AccurateRipConfidence>,
}

impl View for AccurateRipUnit {
    type V = AccurateRipUnitV;

    open spec fn view(&self) -> AccurateRipUnitV {
        AccurateRipUnitV {
            status: self.status,
            version: self.version,
            sign: self.sign@,
            offset_sign: self.offset_sign@,
            confidence: self.confidence,
        }
    }
}

/// Ghost form of [`TrackEntry`].
pub ghost struct TrackEntryV {
    pub num: u8,
    pub is_range: bool,
    pub aborted: bool,
    pub filenames: Seq<Seq<u8>>,
    pub peak_level: Option<Seq<u8>>,
    pub pregap_length: Option<Time>,
    pub extraction_speed: Option<Seq<u8>>,
    pub gain: Option<Seq<u8>>,
    pub preemphasis: Quartet,
    pub test_and_copy: TestAndCopyV,
    pub errors: TrackErrorV,
    pub ar_info: Seq<AccurateRipUnitV>,
}

impl View for TrackEntry {
    type V = TrackEntryV;

    open spec fn view(&self) -> TrackEntryV {
        TrackEntryV {
            num: self.num,
            is_range: self.is_range,
            aborted: self.aborted,
            filenames: Seq::new(self.filenames@.len(), |i: int| self.filenames@[i]@),
            peak_level: match self.peak_level {
                Option::Some(ref p) => Option::Some(p@),
                Option::None => Option::None,
            },
            pregap_length: self.pregap_length,
            extraction_speed: match self.extraction_speed {
                Option::Some(ref p) => Option::Some(p@),
                Option::None => Option::None,
            },
            gain: match self.gain {
                Option::Some(ref p) => Option::Some(p@),
                Option::None => Option::None,
            },
            preemphasis: self.preemphasis,
            test_and_copy: self.test_and_copy@,
            errors: self.errors@,
            ar_info: Seq::new(self.ar_info@.len(), |i: int| self.ar_info@[i]@),
        }
    }
}

/// Ghost form of [`Checksum`].
pub ghost struct ChecksumV {
    pub calculated: Seq<u8>,
    pub embedded: Seq<u8>,
    pub integrity: Integrity,
}

impl View for Checksum {
    type V = ChecksumV;

    open spec fn view(&self) -> ChecksumV {
        ChecksumV {
            calculated: self.calculated@,
            embedded: self.embedded@,
            integrity: self.integrity,
        }
    }
}

/// Ghost form of [`ParsedLog`].
pub ghost struct ParsedLogV {
    pub ripper: Ripper,
    pub ripper_version: Seq<u8>,
    pub language: Seq<u8>,
    pub release_info: ReleaseInfoV,
    pub read_offset: Option<i16>,
    pub drive: Seq<u8>,
    pub media_type: MediaType,
    pub accurate_stream: Quartet,
    pub defeat_audio_cache: Quartet,
    pub use_c2: Quartet,
    pub use_null_samples: Quartet,
    pub test_and_copy: Quartet,
    pub read_mode: ReadMode,
    pub gap_handling: Gap,
    pub checksum: ChecksumV,
    pub toc: TocV,
    pub tracks: Seq<TrackEntryV>,
    pub audio_encoder: Seq<Seq<u8>>,
}

impl View for ParsedLog {
    type V = ParsedLogV;

    open spec fn view(&self) -> ParsedLogV {
        ParsedLogV {
            ripper: self.ripper,
            ripper_version: self.ripper_version@,
            language: self.language@,
            release_info: self.release_info@,
            read_offset: self.read_offset,
            drive: self.drive@,
            media_type: self.media_type,
            accurate_stream: self.accurate_stream,
            defeat_audio_cache: self.defeat_audio_cache,
            use_c2: self.use_c2,
            use_null_samples: self.use_null_samples,
            test_and_copy: self.test_and_copy,
            read_mode: self.read_mode,
            gap_handling: self.gap_handling,
            checksum: self.checksum@,
            toc: self.toc@,
            tracks: Seq::new(self.tracks@.len(), |i: int| self.tracks@[i]@),
            audio_encoder: Seq::new(self.audio_encoder@.len(), |i: int| self.audio_encoder@[i]@),
        }
    }
}

/// Ghost form of [`ParsedLogCombined`].
pub ghost struct ParsedLogCombinedV {
    pub parsed_logs: Seq<ParsedLogV>,
    pub encoding: Seq<u8>,
}

impl View for ParsedLogCombined {
    type V = ParsedLogCombinedV;

    open spec fn view(&self) -> ParsedLogCombinedV {
        ParsedLogCombinedV {
            parsed_logs: Seq::new(self.parsed_logs@.len(), |i: int| self.parsed_logs@[i]@),
            encoding: self.encoding@,
        }
    }
}

/// Ghost form of [`CambiaResponse`].
pub ghost struct CambiaResponseV {
    pub id: Seq<u8>,
    pub parsed: ParsedLogCombinedV,
}

impl View for CambiaResponse {
    type V = CambiaResponseV;

    open spec fn view(&self) -> CambiaResponseV {
        CambiaResponseV { id: self.id@, parsed: self.parsed@ }
    }
}

/// Every `Quartet` value is one of the four variants; the type has no null
/// or undefined state.
pub proof fn lemma_quartet_total(q: Quartet)
    ensures
        q == Quartet::True || q == Quartet::False || q == Quartet::Unknown || q
            == Quartet::Unsupported,
{
}

} // verus!
