//! The XLD log reader: header field extraction, segmentation into track
//! blocks, and assembly of the parsed record with its authenticity
//! verdict.
use vstd::prelude::*;
use vstd::string::StrSliceExecFns;
use crate::pattern::{
    boolean_field_x, i16_field_x, labeled_value_trim, labeled_value_trim_x, labeled_value,
    labeled_value_x, spec_boolean_field, spec_i16_field,
};
use crate::signature::{
    spec_embedded_sig, strip_sigs, strip_sigs_x, embedded_sig_x, xld_signature_of, xld_signature_x,
};
use crate::textscan::{
    ascii_bytes, bytes_eq, copy_range, digits_end, digits_end_x, digit_b, is_digit, is_ws,
    lemma_digits_end, lemma_line_end, lemma_ws_end, line_end, line_end_x, lit_bytes, seq_at,
    seq_at_b, seq_contains, seq_contains_b, trim, trim_range, ws_end, ws_end_x,
};
use crate::toc::toc_entries_x;
use crate::track::{hex8_at, hex8_at_b, spec_track_entry, XldParserTrack};
use crate::types::{
    Checksum, ChecksumV, Gap, Integrity, MediaType, ParsedLog, ParsedLogCombined,
    ParsedLogCombinedV, ParsedLogV, Quartet, ReadMode, ReleaseInfo, ReleaseInfoV, Ripper, Toc,
    TocRaw, TrackEntry, TrackEntryV,
};

verus! {

// ---------------------------------------------------------------------
// Ripper version
// ---------------------------------------------------------------------
/// A version line matches at `i`: the program phrase and a non-empty rest
/// of line.
pub open spec fn ver_at(s: Seq<u8>, i: int) -> bool {
    &&& seq_at(s, i, ascii_bytes("X Lossless Decoder version "@))
    &&& {
        let v = i + ascii_bytes("X Lossless Decoder version "@).len();
        v < s.len() && s[v] != 10
    }
}

/// The first version line at or after `i`.
pub open spec fn find_ver_from(s: Seq<u8>, i: int) -> Option<int>
    decreases s.len() - i,
{
    if !(0 <= i < s.len()) {
        Option::None
    } else if ver_at(s, i) {
        Option::Some(i)
    } else {
        find_ver_from(s, i + 1)
    }
}

/// The ripper version named by the log, the word `Unknown` when the line
/// is absent.
pub open spec fn spec_ripper_version(s: Seq<u8>) -> Seq<u8> {
    match find_ver_from(s, 0) {
        Option::None => ascii_bytes("Unknown"@),
        Option::Some(i) => {
            let v = i + ascii_bytes("X Lossless Decoder version "@).len();
            s.subrange(v, line_end(s, v))
        },
    }
}

// ---------------------------------------------------------------------
// Release info
// ---------------------------------------------------------------------
/// The end of the run of line-break bytes starting at `i`.
pub open spec fn crlf_end(s: Seq<u8>, i: int) -> int
    decreases s.len() - i,
{
    if !(0 <= i < s.len()) {
        i
    } else if s[i] == 10 || s[i] == 13 {
        crlf_end(s, i + 1)
    } else {
        i
    }
}

/// Bounds of the scan to [`crlf_end`].
pub proof fn lemma_crlf_end(s: Seq<u8>, i: int)
    requires
        0 <= i <= s.len(),
    ensures
        i <= crlf_end(s, i) <= s.len(),
    decreases s.len() - i,
{
    if i < s.len() && (s[i] == 10 || s[i] == 13) {
        lemma_crlf_end(s, i + 1);
    }
}

/// Exec scan to [`crlf_end`].
fn crlf_end_x(s: &[u8], i: usize) -> (r: usize)
    requires
        i <= s@.len(),
    ensures
        r == crlf_end(s@, i as int),
        i <= r <= s@.len(),
{
    let mut j: usize = i;
    loop
        invariant
            i <= j <= s@.len(),
            crlf_end(s@, i as int) == crlf_end(s@, j as int),
        decreases s@.len() - j,
    {
        if j == s.len() || !(s[j] == 10 || s[j] == 13) {
            return j;
        }
        j += 1;
    }
}

/// A release line matches at `i`: the logfile phrase, a non-empty rest of
/// line, line breaks, and a following line.
pub open spec fn rel_at(s: Seq<u8>, i: int) -> bool {
    &&& seq_at(s, i, ascii_bytes("XLD extraction logfile from "@))
    &&& {
        let v = i + ascii_bytes("XLD extraction logfile from "@).len();
        &&& v < s.len()
        &&& s[v] != 10
        &&& {
            let k = crlf_end(s, line_end(s, v));
            &&& line_end(s, v) < s.len()
            &&& k < s.len()
        }
    }
}

/// The first release line at or after `i`.
pub open spec fn find_rel_from(s: Seq<u8>, i: int) -> Option<int>
    decreases s.len() - i,
{
    if !(0 <= i < s.len()) {
        Option::None
    } else if rel_at(s, i) {
        Option::Some(i)
    } else {
        find_rel_from(s, i + 1)
    }
}

/// The artist/title pair named under the first release line: the line
/// after it split once on ` / `; both sides trimmed; empty when the line
/// or the separator is absent.
pub open spec fn spec_release_info(s: Seq<u8>) -> ReleaseInfoV {
    match find_rel_from(s, 0) {
        Option::None => ReleaseInfoV { artist: Seq::empty(), title: Seq::empty() },
        Option::Some(i) => {
            let v = i + ascii_bytes("XLD extraction logfile from "@).len();
            let k = crlf_end(s, line_end(s, v));
            let rl = s.subrange(k, line_end(s, k));
            match crate::textscan::find_seq_from(rl, ascii_bytes(" / "@), 0) {
                Option::None => ReleaseInfoV { artist: Seq::empty(), title: Seq::empty() },
                Option::Some(p) => ReleaseInfoV {
                    artist: trim(rl.subrange(0, p)),
                    title: trim(rl.subrange(p + ascii_bytes(" / "@).len(), rl.len() as int)),
                },
            }
        },
    }
}

// ---------------------------------------------------------------------
// Presence patterns
// ---------------------------------------------------------------------
/// An AccurateRip signature line of the header shape matches at `i`: the
/// phrase with an optional ` v1`/` v2`, whitespace, `: `, and eight hex
/// digits.
pub open spec fn accst_at(s: Seq<u8>, i: int) -> bool {
    &&& seq_at(s, i, ascii_bytes("AccurateRip"@))
    &&& {
        let a = i + ascii_bytes("AccurateRip"@).len();
        let he = if seq_at(s, a, ascii_bytes(" v1"@)) || seq_at(s, a, ascii_bytes(" v2"@)) {
            a + 3
        } else {
            a
        };
        &&& seq_at(s, he, ascii_bytes(" signature"@))
        &&& {
            let w = ws_end(s, he + ascii_bytes(" signature"@).len());
            &&& w + 1 < s.len()
            &&& s[w] == 58
            &&& s[w + 1] == 32
            &&& hex8_at(s, w + 2)
        }
    }
}

/// Some position matches [`accst_at`].
pub open spec fn find_accst_from(s: Seq<u8>, i: int) -> Option<int>
    decreases s.len() - i,
{
    if !(0 <= i < s.len()) {
        Option::None
    } else if accst_at(s, i) {
        Option::Some(i)
    } else {
        find_accst_from(s, i + 1)
    }
}

/// A test-run hash line of the header shape matches at `i`.
pub open spec fn tc_at(s: Seq<u8>, i: int) -> bool {
    &&& seq_at(s, i, ascii_bytes("CRC32 hash (test run)"@))
    &&& {
        let w = ws_end(s, i + ascii_bytes("CRC32 hash (test run)"@).len());
        &&& w + 1 < s.len()
        &&& s[w] == 58
        &&& s[w + 1] == 32
        &&& hex8_at(s, w + 2)
    }
}

/// Some position matches [`tc_at`].
pub open spec fn find_tc_from(s: Seq<u8>, i: int) -> Option<int>
    decreases s.len() - i,
{
    if !(0 <= i < s.len()) {
        Option::None
    } else if tc_at(s, i) {
        Option::Some(i)
    } else {
        find_tc_from(s, i + 1)
    }
}

// ---------------------------------------------------------------------
// Header field readings
// ---------------------------------------------------------------------
/// The drive named by the log, empty when the line is absent.
pub open spec fn spec_drive(s: Seq<u8>) -> Seq<u8> {
    match labeled_value_trim(s, ascii_bytes("Used drive"@)) {
        Option::Some(v) => v,
        Option::None => Seq::empty(),
    }
}

/// The media type named by the log.
pub open spec fn spec_media_type(s: Seq<u8>) -> MediaType {
    match labeled_value_trim(s, ascii_bytes("Media type"@)) {
        Option::None => MediaType::Unknown,
        Option::Some(v) => {
            if v == ascii_bytes("Pressed CD"@) {
                MediaType::Pressed
            } else if v == ascii_bytes("CD-Recordable"@) {
                MediaType::CDR
            } else {
                MediaType::Other
            }
        },
    }
}

/// The read mode named by the log: the `Ripper mode` line, or the legacy
/// `Use cdparanoia mode` line when the former is absent.
pub open spec fn spec_read_mode(s: Seq<u8>) -> ReadMode {
    match labeled_value_trim(s, ascii_bytes("Ripper mode"@)) {
        Option::Some(v) => {
            if v == ascii_bytes("XLD Secure Ripper"@) {
                ReadMode::Secure
            } else if v == ascii_bytes("Burst"@) {
                ReadMode::Burst
            } else if seq_contains(v, ascii_bytes("CDParanoia"@)) {
                ReadMode::Paranoid
            } else {
                ReadMode::Unknown
            }
        },
        Option::None => match labeled_value(s, ascii_bytes("Use cdparanoia mode"@)) {
            Option::Some(lv) => {
                if seq_contains(lv, ascii_bytes("YES"@)) {
                    ReadMode::Paranoid
                } else {
                    ReadMode::Burst
                }
            },
            Option::None => ReadMode::Unknown,
        },
    }
}

/// The gap handling named by the log.
pub open spec fn spec_gap_handling(s: Seq<u8>) -> Gap {
    match labeled_value_trim(s, ascii_bytes("Gap status"@)) {
        Option::None => Gap::Unknown,
        Option::Some(v) => {
            if v == ascii_bytes("Not analyzed"@) {
                Gap::Unknown
            } else if v == ascii_bytes("Analyzed, Appended (except HTOA)"@) {
                Gap::AppendNoHtoa
            } else if v == ascii_bytes("Analyzed, Appended"@) {
                Gap::Append
            } else {
                Gap::Unknown
            }
        },
    }
}

// ---------------------------------------------------------------------
// Trailer anchor and track headers
// ---------------------------------------------------------------------
/// The full trailer phrase (`No/Some errors/inconsistencies
/// occurred/found`, whitespace, then the report end phrase) matches at
/// `i`.
pub open spec fn full_eof_at(s: Seq<u8>, i: int) -> bool {
    let a = if seq_at(s, i, ascii_bytes("No "@)) {
        i + ascii_bytes("No "@).len()
    } else if seq_at(s, i, ascii_bytes("Some "@)) {
        i + ascii_bytes("Some "@).len()
    } else {
        -1
    };
    let b = if a < 0 {
        -1
    } else if seq_at(s, a, ascii_bytes("errors "@)) {
        a + ascii_bytes("errors "@).len()
    } else if seq_at(s, a, ascii_bytes("inconsistencies "@)) {
        a + ascii_bytes("inconsistencies "@).len()
    } else {
        -1
    };
    let c = if b < 0 {
        -1
    } else if seq_at(s, b, ascii_bytes("occurred"@)) {
        b + ascii_bytes("occurred"@).len()
    } else if seq_at(s, b, ascii_bytes("found"@)) {
        b + ascii_bytes("found"@).len()
    } else {
        -1
    };
    &&& c >= 0
    &&& ws_end(s, c) > c
    &&& seq_at(s, ws_end(s, c), ascii_bytes("End of status report"@))
}

/// The trailer anchor matches at `i`, in its full or bare form.
pub open spec fn eof_at(s: Seq<u8>, i: int) -> bool {
    full_eof_at(s, i) || seq_at(s, i, ascii_bytes("End of status report"@))
}

/// The first trailer anchor at or after `i`.
pub open spec fn find_eof_from(s: Seq<u8>, i: int) -> Option<int>
    decreases s.len() - i,
{
    if !(0 <= i < s.len()) {
        Option::None
    } else if eof_at(s, i) {
        Option::Some(i)
    } else {
        find_eof_from(s, i + 1)
    }
}

/// A track header matches at `i`: at a line start, the word `Track`,
/// digits, whitespace, and `Filename` or `Pre-gap length`.
pub open spec fn trk_hdr_at(s: Seq<u8>, i: int) -> bool {
    &&& (i == 0 || (0 < i < s.len() && s[i - 1] == 10))
    &&& seq_at(s, i, ascii_bytes("Track "@))
    &&& {
        let d = i + ascii_bytes("Track "@).len();
        &&& digits_end(s, d) > d
        &&& {
            let w = ws_end(s, digits_end(s, d));
            &&& w > digits_end(s, d)
            &&& (seq_at(s, w, ascii_bytes("Filename"@)) || seq_at(
                s,
                w,
                ascii_bytes("Pre-gap length"@),
            ))
        }
    }
}

/// The header's keyword is `Filename` (rather than `Pre-gap length`).
pub open spec fn trk_hdr_fname(s: Seq<u8>, i: int) -> bool {
    seq_at(s, ws_end(s, digits_end(s, i + ascii_bytes("Track "@).len())), ascii_bytes("Filename"@))
}

/// The position just past the header's keyword.
pub open spec fn trk_hdr_end(s: Seq<u8>, i: int) -> int {
    let w = ws_end(s, digits_end(s, i + ascii_bytes("Track "@).len()));
    if trk_hdr_fname(s, i) {
        w + ascii_bytes("Filename"@).len()
    } else {
        w + ascii_bytes("Pre-gap length"@).len()
    }
}

/// The first track header at or after `i`.
pub open spec fn find_trk_from(s: Seq<u8>, i: int) -> Option<int>
    decreases s.len() - i,
{
    if !(0 <= i < s.len()) {
        Option::None
    } else if trk_hdr_at(s, i) {
        Option::Some(i)
    } else {
        find_trk_from(s, i + 1)
    }
}

/// What a found track header satisfies.
pub proof fn lemma_find_trk_sound(s: Seq<u8>, i: int)
    ensures
        match find_trk_from(s, i) {
            Option::Some(h) => i <= h < s.len() && trk_hdr_at(s, h) && h < trk_hdr_end(s, h)
                <= s.len(),
            Option::None => true,
        },
    decreases s.len() - i,
{
    if 0 <= i < s.len() {
        if trk_hdr_at(s, i) {
            let d = i + ascii_bytes("Track "@).len();
            lemma_digits_end(s, d);
            lemma_ws_end(s, digits_end(s, d));
        } else {
            lemma_find_trk_sound(s, i + 1);
        }
    }
}

/// Some track header at or after `i` opens with `Pre-gap length`.
pub open spec fn has_pregap_from(s: Seq<u8>, i: int) -> bool
    decreases s.len() - i,
    via has_pregap_from_decreases
{
    match find_trk_from(s, i) {
        Option::None => false,
        Option::Some(h) => !trk_hdr_fname(s, h) || has_pregap_from(s, trk_hdr_end(s, h)),
    }
}

#[via_fn]
proof fn has_pregap_from_decreases(s: Seq<u8>, i: int) {
    lemma_find_trk_sound(s, i);
}

/// The log rips a whole range: some track header opens with `Pre-gap
/// length` rather than `Filename`.  The flag covers every track entry of
/// the log.
pub open spec fn spec_is_range(s: Seq<u8>) -> bool {
    has_pregap_from(s, 0)
}

/// The track entries read from the headers starting at `cur`, each
/// carrying the log-wide range flag, closed by the trailer anchor at
/// `last`.
pub open spec fn tracks_walk(s: Seq<u8>, cur: int, is_range: bool, last: int) -> Seq<TrackEntryV>
    decreases s.len() - cur,
    via tracks_walk_decreases
{
    if !(0 <= cur < s.len()) {
        Seq::empty()
    } else {
        match find_trk_from(s, trk_hdr_end(s, cur)) {
            Option::Some(h2) => {
                seq![spec_track_entry(trim(s.subrange(cur, h2)), is_range)] + tracks_walk(
                    s,
                    h2,
                    is_range,
                    last,
                )
            },
            Option::None => {
                if cur > 0 && cur <= last <= s.len() {
                    seq![spec_track_entry(trim(s.subrange(cur, last)), is_range)]
                } else {
                    Seq::empty()
                }
            },
        }
    }
}

#[via_fn]
proof fn tracks_walk_decreases(s: Seq<u8>, cur: int, is_range: bool, last: int) {
    if 0 <= cur < s.len() {
        lemma_find_trk_sound(s, trk_hdr_end(s, cur));
        if trk_hdr_at(s, cur) {
            let d = cur + ascii_bytes("Track "@).len();
            lemma_digits_end(s, d);
            lemma_ws_end(s, digits_end(s, d));
        }
        // even when `cur` is not a header, the scan starts past `cur`
        lemma_trk_hdr_end_past(s, cur);
    }
}

/// The header-end position lies past the header start.
pub proof fn lemma_trk_hdr_end_past(s: Seq<u8>, i: int)
    requires
        0 <= i <= s.len(),
    ensures
        trk_hdr_end(s, i) >= i,
{
    let d = i + ascii_bytes("Track "@).len();
    lemma_digits_end_ge(s, d);
    lemma_ws_end_ge(s, digits_end(s, d));
}

/// `digits_end` never goes backward.
pub proof fn lemma_digits_end_ge(s: Seq<u8>, i: int)
    ensures
        digits_end(s, i) >= i,
    decreases s.len() - i,
{
    if 0 <= i < s.len() && is_digit(s[i]) {
        lemma_digits_end_ge(s, i + 1);
    }
}

/// `ws_end` never goes backward.
pub proof fn lemma_ws_end_ge(s: Seq<u8>, i: int)
    ensures
        ws_end(s, i) >= i,
    decreases s.len() - i,
{
    if 0 <= i < s.len() && is_ws(s[i]) {
        lemma_ws_end_ge(s, i + 1);
    }
}

/// The track entries of a log: blocks cut between track headers, closed by
/// the trailer anchor; none when the anchor is missing.
pub open spec fn spec_tracks(s: Seq<u8>) -> Seq<TrackEntryV> {
    match find_eof_from(s, 0) {
        Option::None => Seq::empty(),
        Option::Some(last) => match find_trk_from(s, 0) {
            Option::None => Seq::empty(),
            Option::Some(h0) => tracks_walk(s, h0, spec_is_range(s), last),
        },
    }
}

// ---------------------------------------------------------------------
// Checksum
// ---------------------------------------------------------------------
/// The authenticity verdict of a log: the signature computed over the
/// stripped body against the embedded one; unknown when the log carries no
/// signature.
pub open spec fn spec_checksum(log: Seq<u8>) -> ChecksumV {
    let calc = xld_signature_of(strip_sigs(log));
    let emb = spec_embedded_sig(log);
    ChecksumV {
        calculated: calc,
        embedded: emb,
        integrity: if emb.len() == 0 {
            Integrity::Unknown
        } else if emb == calc {
            Integrity::Match
        } else {
            Integrity::Mismatch
        },
    }
}

// ---------------------------------------------------------------------
// The whole record
// ---------------------------------------------------------------------
/// The table of contents of a log, the derived identifiers empty.
pub open spec fn spec_toc_of(log: Seq<u8>) -> crate::types::TocV {
    crate::types::TocV {
        raw: crate::toc::toc_entries_from(log, 0),
        freedb: crate::types::TocHashV { hash: Seq::empty(), url: Seq::empty() },
        accurip_tocid: crate::types::TocHashV { hash: Seq::empty(), url: Seq::empty() },
        ctdb_tocid: crate::types::TocHashV { hash: Seq::empty(), url: Seq::empty() },
        mbz: crate::types::TocHashV { hash: Seq::empty(), url: Seq::empty() },
        gn: crate::types::TocHashV { hash: Seq::empty(), url: Seq::empty() },
        mcdi: crate::types::TocHashV { hash: Seq::empty(), url: Seq::empty() },
    }
}

/// Everything the reader extracts from one sub-log.
pub open spec fn spec_parsed_log(log: Seq<u8>) -> ParsedLogV {
    ParsedLogV {
        ripper: Ripper::XLD,
        ripper_version: spec_ripper_version(log),
        language: ascii_bytes("English"@),
        release_info: spec_release_info(log),
        read_offset: spec_i16_field(log, ascii_bytes("Read offset correction"@)),
        drive: spec_drive(log),
        media_type: spec_media_type(log),
        accurate_stream: if find_accst_from(log, 0) is Some {
            Quartet::True
        } else {
            Quartet::False
        },
        defeat_audio_cache: spec_boolean_field(log, ascii_bytes("Disable audio cache"@), true),
        use_c2: spec_boolean_field(log, ascii_bytes("Make use of C2 pointers"@), false),
        use_null_samples: Quartet::True,
        test_and_copy: if find_tc_from(log, 0) is Some {
            Quartet::True
        } else {
            Quartet::False
        },
        read_mode: spec_read_mode(log),
        gap_handling: spec_gap_handling(log),
        checksum: spec_checksum(log),
        toc: spec_toc_of(log),
        tracks: spec_tracks(log),
        audio_encoder: crate::track::spec_audio_encoder(log),
    }
}

/// One sub-log and its identity translation.
pub struct XldParserSingle {
    pub log: Vec<u8>,
    pub translated_log: Vec<u8>,
    pub language: Vec<u8>,
}

impl XldParserSingle {
    /// The reader is well formed: the translation is the identity and the
    /// language English.
    pub open spec fn wf(&self) -> bool {
        &&& self.translated_log@ == self.log@
        &&& self.language@ == ascii_bytes("English"@)
    }

    /// The identity translation: XLD logs are English-only.
    pub fn translate(log: Vec<u8>) -> (r: (Vec<u8>, Vec<u8>))
        ensures
            r.0@ == ascii_bytes("English"@),
            r.1@ == log@,
    {
        let lang = lit_english();
        (lang, log)
    }

    /// A reader over the UTF-8 bytes of one sub-log.
    pub fn from_bytes(log: Vec<u8>) -> (r: XldParserSingle)
        ensures
            r.wf(),
            r.log@ == log@,
    {
        let copy = copy_range(log.as_slice(), 0, log.len());
        proof {
            assert(log@.subrange(0, log@.len() as int) =~= log@);
        }
        let (language, translated_log) = XldParserSingle::translate(copy);
        XldParserSingle { log, translated_log, language }
    }

    /// A reader over one sub-log given as a string.
    pub fn new(log: String) -> (r: XldParserSingle)
        ensures
            r.wf(),
            r.log@ == vstd::utf8::encode_utf8(log@),
    {
        let bytes = log.as_str().as_bytes_vec();
        XldParserSingle::from_bytes(bytes)
    }

    /// XLD logs come from XLD.
    pub fn extract_ripper(&self) -> (r: Ripper)
        ensures
            r == Ripper::XLD,
    {
        Ripper::XLD
    }

    /// The version named at the top of the log.
    pub fn extract_ripper_version(&self) -> (r: Vec<u8>)
        requires
            self.wf(),
        ensures
            r@ == spec_ripper_version(self.log@),
    {
        proof {
            reveal_strlit("X Lossless Decoder version ");
            assert("X Lossless Decoder version ".is_ascii());
        }
        let label = lit_bytes("X Lossless Decoder version ");
        let s = self.translated_log.as_slice();
        let mut i: usize = 0;
        while i < s.len()
            invariant
                i <= s@.len(),
                s@ == self.log@,
                label@ == ascii_bytes("X Lossless Decoder version "@),
                find_ver_from(s@, 0) == find_ver_from(s@, i as int),
            decreases s@.len() - i,
        {
            if seq_at_b(s, i, label.as_slice()) {
                let n = s.len();
                assert(i + label@.len() <= n);
                let v = i + label.len();
                if v < n && s[v] != 10 {
                    let e = line_end_x(s, v);
                    return copy_range(s, v, e);
                }
            }
            proof {
                assert(!ver_at(s@, i as int));
            }
            i += 1;
        }
        proof {
            reveal_strlit("Unknown");
            assert("Unknown".is_ascii());
        }
        lit_bytes("Unknown")
    }

    /// The artist and title under the logfile line.
    #[verifier::rlimit(80)]
    pub fn extract_release_info(&self) -> (r: ReleaseInfo)
        requires
            self.wf(),
        ensures
            r@ == spec_release_info(self.log@),
    {
        proof {
            reveal_strlit("XLD extraction logfile from ");
            reveal_strlit(" / ");
            assert("XLD extraction logfile from ".is_ascii());
            assert(" / ".is_ascii());
        }
        let label = lit_bytes("XLD extraction logfile from ");
        let sep = lit_bytes(" / ");
        let s = self.translated_log.as_slice();
        let mut i: usize = 0;
        while i < s.len()
            invariant
                i <= s@.len(),
                s@ == self.log@,
                label@ == ascii_bytes("XLD extraction logfile from "@),
                sep@ == ascii_bytes(" / "@),
                find_rel_from(s@, 0) == find_rel_from(s@, i as int),
            decreases s@.len() - i,
        {
            if seq_at_b(s, i, label.as_slice()) {
                let n = s.len();
                assert(i + label@.len() <= n);
                let v = i + label.len();
                if v < n && s[v] != 10 {
                    let le = line_end_x(s, v);
                    if le < n {
                        let k = crlf_end_x(s, le);
                        if k < n {
                            // the release line
                            proof {
                                assert(rel_at(s@, i as int));
                            }
                            let re = line_end_x(s, k);
                            let rl = copy_range(s, k, re);
                            let ghost rlv = rl@;
                            // split once on " / "
                            let mut p: usize = 0;
                            loop
                                invariant
                                    p <= rlv.len(),
                                    rl@ == rlv,
                                    sep@ == ascii_bytes(" / "@),
                                    s@ == self.log@,
                                    i < s@.len(),
                                    rel_at(s@, i as int),
                                    find_rel_from(s@, 0) == Option::Some(i as int),
                                    k as int == crlf_end(
                                        s@,
                                        line_end(
                                            s@,
                                            i + ascii_bytes("XLD extraction logfile from "@).len(),
                                        ),
                                    ),
                                    rlv == s@.subrange(k as int, line_end(s@, k as int)),
                                    crate::textscan::find_seq_from(rlv, ascii_bytes(" / "@), 0)
                                        == crate::textscan::find_seq_from(
                                        rlv,
                                        ascii_bytes(" / "@),
                                        p as int,
                                    ),
                                decreases rlv.len() - p,
                            {
                                if seq_at_b(rl.as_slice(), p, sep.as_slice()) {
                                    let artist = trim_range(rl.as_slice(), 0, p);
                                    let title = trim_range(rl.as_slice(), p + sep.len(), rl.len());
                                    proof {
                                        assert(rlv.subrange(0, p as int) =~= rlv.subrange(
                                            0,
                                            p as int,
                                        ));
                                        assert(rlv.subrange(
                                            p + ascii_bytes(" / "@).len(),
                                            rlv.len() as int,
                                        ) =~= rlv.subrange(p + sep@.len(), rlv.len() as int));
                                    }
                                    return ReleaseInfo { artist, title };
                                }
                                if p == rl.len() {
                                    return ReleaseInfo::empty();
                                }
                                p += 1;
                            }
                        }
                    }
                }
            }
            proof {
                assert(!rel_at(s@, i as int));
            }
            i += 1;
        }
        ReleaseInfo::empty()
    }

    /// The read offset correction, when the line is present and in range.
    pub fn extract_read_offset(&self) -> (r: Option<i16>)
        requires
            self.wf(),
        ensures
            r == spec_i16_field(self.log@, ascii_bytes("Read offset correction"@)),
    {
        proof {
            reveal_strlit("Read offset correction");
            assert("Read offset correction".is_ascii());
        }
        let label = lit_bytes("Read offset correction");
        i16_field_x(self.translated_log.as_slice(), label.as_slice())
    }

    /// The language of the log.
    pub fn extract_language(&self) -> (r: Vec<u8>)
        ensures
            r@ == self.language@,
    {
        copy_vec(&self.language)
    }

    /// The drive named by the log.
    pub fn extract_drive(&self) -> (r: Vec<u8>)
        requires
            self.wf(),
        ensures
            r@ == spec_drive(self.log@),
    {
        proof {
            reveal_strlit("Used drive");
            assert("Used drive".is_ascii());
        }
        let label = lit_bytes("Used drive");
        match labeled_value_trim_x(self.translated_log.as_slice(), label.as_slice()) {
            Option::Some(v) => v,
            Option::None => Vec::new(),
        }
    }

    /// The media type named by the log.
    pub fn extract_media_type(&self) -> (r: MediaType)
        requires
            self.wf(),
        ensures
            r == spec_media_type(self.log@),
    {
        proof {
            reveal_strlit("Media type");
            reveal_strlit("Pressed CD");
            reveal_strlit("CD-Recordable");
            assert("Media type".is_ascii());
            assert("Pressed CD".is_ascii());
            assert("CD-Recordable".is_ascii());
        }
        let label = lit_bytes("Media type");
        match labeled_value_trim_x(self.translated_log.as_slice(), label.as_slice()) {
            Option::None => MediaType::Unknown,
            Option::Some(v) => {
                let pressed = lit_bytes("Pressed CD");
                let cdr = lit_bytes("CD-Recordable");
                if bytes_eq(&v, &pressed) {
                    MediaType::Pressed
                } else if bytes_eq(&v, &cdr) {
                    MediaType::CDR
                } else {
                    proof {
                        assert(!(v@ =~= ascii_bytes("Pressed CD"@)));
                        assert(!(v@ =~= ascii_bytes("CD-Recordable"@)));
                    }
                    MediaType::Other
                }
            },
        }
    }

    /// Whether an AccurateRip signature appears anywhere in the log.
    pub fn extract_accurate_stream(&self) -> (r: Quartet)
        requires
            self.wf(),
        ensures
            r == if find_accst_from(self.log@, 0) is Some {
                Quartet::True
            } else {
                Quartet::False
            },
    {
        proof {
            reveal_strlit("AccurateRip");
            reveal_strlit(" v1");
            reveal_strlit(" v2");
            reveal_strlit(" signature");
            assert("AccurateRip".is_ascii());
            assert(" v1".is_ascii());
            assert(" v2".is_ascii());
            assert(" signature".is_ascii());
        }
        let ar_l = lit_bytes("AccurateRip");
        let v1_l = lit_bytes(" v1");
        let v2_l = lit_bytes(" v2");
        let sig_l = lit_bytes(" signature");
        let s = self.translated_log.as_slice();
        let mut i: usize = 0;
        while i < s.len()
            invariant
                i <= s@.len(),
                s@ == self.log@,
                ar_l@ == ascii_bytes("AccurateRip"@),
                v1_l@ == ascii_bytes(" v1"@),
                v2_l@ == ascii_bytes(" v2"@),
                sig_l@ == ascii_bytes(" signature"@),
                find_accst_from(s@, 0) == find_accst_from(s@, i as int),
            decreases s@.len() - i,
        {
            if seq_at_b(s, i, ar_l.as_slice()) {
                proof {
                    reveal_strlit(" v1");
                    reveal_strlit(" v2");
                }
                let n = s.len();
                assert(i + ar_l@.len() <= n);
                let a = i + ar_l.len();
                let he = if seq_at_b(s, a, v1_l.as_slice()) || seq_at_b(s, a, v2_l.as_slice()) {
                    assert(a + 3 <= n);
                    a + 3
                } else {
                    a
                };
                if seq_at_b(s, he, sig_l.as_slice()) {
                    assert(he + sig_l@.len() <= n);
                    let w = ws_end_x(s, he + sig_l.len());
                    if w < n && n - w > 1 && s[w] == 58 && s[w + 1] == 32 && hex8_at_b(s, w + 2) {
                        proof {
                            assert(accst_at(s@, i as int));
                        }
                        return Quartet::True;
                    }
                }
            }
            proof {
                assert(!accst_at(s@, i as int));
            }
            i += 1;
        }
        Quartet::False
    }

    /// Whether the audio cache was disabled.
    pub fn extract_defeat_audio_cache(&self) -> (r: Quartet)
        requires
            self.wf(),
        ensures
            r == spec_boolean_field(self.log@, ascii_bytes("Disable audio cache"@), true),
    {
        proof {
            reveal_strlit("Disable audio cache");
            assert("Disable audio cache".is_ascii());
        }
        let label = lit_bytes("Disable audio cache");
        boolean_field_x(self.translated_log.as_slice(), label.as_slice(), true)
    }

    /// Whether C2 pointers were used.
    pub fn extract_use_c2(&self) -> (r: Quartet)
        requires
            self.wf(),
        ensures
            r == spec_boolean_field(self.log@, ascii_bytes("Make use of C2 pointers"@), false),
    {
        proof {
            reveal_strlit("Make use of C2 pointers");
            assert("Make use of C2 pointers".is_ascii());
        }
        let label = lit_bytes("Make use of C2 pointers");
        boolean_field_x(self.translated_log.as_slice(), label.as_slice(), false)
    }

    /// XLD always reads into null samples.
    pub fn extract_use_null_samples(&self) -> (r: Quartet)
        ensures
            r == Quartet::True,
    {
        Quartet::True
    }

    /// Whether a test pass was run.
    pub fn extract_test_and_copy(&self) -> (r: Quartet)
        requires
            self.wf(),
        ensures
            r == if find_tc_from(self.log@, 0) is Some {
                Quartet::True
            } else {
                Quartet::False
            },
    {
        proof {
            reveal_strlit("CRC32 hash (test run)");
            assert("CRC32 hash (test run)".is_ascii());
        }
        let label = lit_bytes("CRC32 hash (test run)");
        let s = self.translated_log.as_slice();
        let mut i: usize = 0;
        while i < s.len()
            invariant
                i <= s@.len(),
                s@ == self.log@,
                label@ == ascii_bytes("CRC32 hash (test run)"@),
                find_tc_from(s@, 0) == find_tc_from(s@, i as int),
            decreases s@.len() - i,
        {
            if seq_at_b(s, i, label.as_slice()) {
                let n = s.len();
                assert(i + label@.len() <= n);
                let w = ws_end_x(s, i + label.len());
                if w < n && n - w > 1 && s[w] == 58 && s[w + 1] == 32 && hex8_at_b(s, w + 2) {
                    return Quartet::True;
                }
            }
            proof {
                assert(!tc_at(s@, i as int));
            }
            i += 1;
        }
        Quartet::False
    }

    /// The read mode, from the mode line or its legacy form.
    pub fn extract_read_mode(&self) -> (r: ReadMode)
        requires
            self.wf(),
        ensures
            r == spec_read_mode(self.log@),
    {
        proof {
            reveal_strlit("Ripper mode");
            reveal_strlit("XLD Secure Ripper");
            reveal_strlit("Burst");
            reveal_strlit("CDParanoia");
            reveal_strlit("Use cdparanoia mode");
            reveal_strlit("YES");
            assert("Ripper mode".is_ascii());
            assert("XLD Secure Ripper".is_ascii());
            assert("Burst".is_ascii());
            assert("CDParanoia".is_ascii());
            assert("Use cdparanoia mode".is_ascii());
            assert("YES".is_ascii());
        }
        let label = lit_bytes("Ripper mode");
        let s = self.translated_log.as_slice();
        match labeled_value_trim_x(s, label.as_slice()) {
            Option::Some(v) => {
                let secure = lit_bytes("XLD Secure Ripper");
                let burst = lit_bytes("Burst");
                let paranoia = lit_bytes("CDParanoia");
                if bytes_eq(&v, &secure) {
                    ReadMode::Secure
                } else if bytes_eq(&v, &burst) {
                    ReadMode::Burst
                } else if seq_contains_b(v.as_slice(), paranoia.as_slice()) {
                    proof {
                        assert(!(v@ =~= ascii_bytes("XLD Secure Ripper"@)));
                        assert(!(v@ =~= ascii_bytes("Burst"@)));
                    }
                    ReadMode::Paranoid
                } else {
                    proof {
                        assert(!(v@ =~= ascii_bytes("XLD Secure Ripper"@)));
                        assert(!(v@ =~= ascii_bytes("Burst"@)));
                    }
                    ReadMode::Unknown
                }
            },
            Option::None => {
                let legacy = lit_bytes("Use cdparanoia mode");
                match labeled_value_x(s, legacy.as_slice()) {
                    Option::Some(lv) => {
                        let yes = lit_bytes("YES");
                        if seq_contains_b(lv.as_slice(), yes.as_slice()) {
                            ReadMode::Paranoid
                        } else {
                            ReadMode::Burst
                        }
                    },
                    Option::None => ReadMode::Unknown,
                }
            },
        }
    }

    /// The gap handling named by the log.
    pub fn extract_gap_handling(&self) -> (r: Gap)
        requires
            self.wf(),
        ensures
            r == spec_gap_handling(self.log@),
    {
        proof {
            reveal_strlit("Gap status");
            reveal_strlit("Not analyzed");
            reveal_strlit("Analyzed, Appended (except HTOA)");
            reveal_strlit("Analyzed, Appended");
            assert("Gap status".is_ascii());
            assert("Not analyzed".is_ascii());
            assert("Analyzed, Appended (except HTOA)".is_ascii());
            assert("Analyzed, Appended".is_ascii());
        }
        let label = lit_bytes("Gap status");
        match labeled_value_trim_x(self.translated_log.as_slice(), label.as_slice()) {
            Option::None => Gap::Unknown,
            Option::Some(v) => {
                let na = lit_bytes("Not analyzed");
                let anh = lit_bytes("Analyzed, Appended (except HTOA)");
                let aa = lit_bytes("Analyzed, Appended");
                if bytes_eq(&v, &na) {
                    Gap::Unknown
                } else if bytes_eq(&v, &anh) {
                    proof {
                        assert(!(v@ =~= ascii_bytes("Not analyzed"@)));
                    }
                    Gap::AppendNoHtoa
                } else if bytes_eq(&v, &aa) {
                    proof {
                        assert(!(v@ =~= ascii_bytes("Not analyzed"@)));
                        assert(!(v@ =~= ascii_bytes("Analyzed, Appended (except HTOA)"@)));
                    }
                    Gap::Append
                } else {
                    proof {
                        assert(!(v@ =~= ascii_bytes("Not analyzed"@)));
                        assert(!(v@ =~= ascii_bytes("Analyzed, Appended (except HTOA)"@)));
                        assert(!(v@ =~= ascii_bytes("Analyzed, Appended"@)));
                    }
                    Gap::Unknown
                }
            },
        }
    }

    /// The distinct audio encoders named by the filename lines of every
    /// track of the log.
    pub fn extract_audio_encoder(&self) -> (r: Vec<Vec<u8>>)
        requires
            self.wf(),
        ensures
            crate::track::vecs_view(r@) == crate::track::spec_audio_encoder(self.log@),
    {
        crate::track::audio_encoder_x(self.translated_log.as_slice())
    }

    /// The table of contents rows of the log.
    pub fn extract_toc(&self) -> (r: Toc)
        requires
            self.wf(),
        ensures
            r@ == spec_toc_of(self.log@),
    {
        let entries = toc_entries_x(self.translated_log.as_slice());
        let r = Toc::new(TocRaw { entries });
        proof {
            assert(r@ == spec_toc_of(self.log@));
        }
        r
    }

    /// The track entries of the log.
    #[verifier::rlimit(80)]
    pub fn extract_tracks(&self) -> (r: Vec<TrackEntry>)
        requires
            self.wf(),
        ensures
            tracks_view(r@) == spec_tracks(self.log@),
    {
        let s = self.translated_log.as_slice();
        let mut r: Vec<TrackEntry> = Vec::new();
        let last = match find_eof_x(s) {
            Option::Some(l) => l,
            Option::None => {
                proof {
                    assert(tracks_view(r@) =~= spec_tracks(self.log@));
                }
                return r;
            },
        };
        let h0 = match find_track_header_x(s, 0) {
            Option::Some(h) => h,
            Option::None => {
                proof {
                    assert(tracks_view(r@) =~= spec_tracks(self.log@));
                }
                return r;
            },
        };
        let mut cur = h0;
        let is_range = has_pregap_x(s);
        proof {
            assert(tracks_view(r@) + tracks_walk(s@, h0 as int, is_range, last as int)
                =~= tracks_walk(s@, h0 as int, is_range, last as int));
        }
        loop
            invariant
                cur < s@.len(),
                last <= s@.len(),
                s@ == self.log@,
                trk_hdr_at(s@, cur as int),
                is_range == spec_is_range(s@),
                find_eof_from(s@, 0) == Option::Some(last as int),
                find_trk_from(s@, 0) == Option::Some(h0 as int),
                spec_tracks(s@) == tracks_view(r@) + tracks_walk(
                    s@,
                    cur as int,
                    is_range,
                    last as int,
                ),
            decreases s@.len() - cur,
        {
            proof {
                lemma_find_trk_sound(s@, cur as int);
                let d = cur + ascii_bytes("Track "@).len();
                lemma_digits_end(s@, d);
                lemma_ws_end(s@, digits_end(s@, d));
            }
            let he = trk_hdr_end_x(s, cur);
            match find_track_header_x(s, he) {
                Option::Some(h2) => {
                    proof {
                        lemma_find_trk_sound(s@, he as int);
                    }
                    let block = trim_range(s, cur, h2);
                    let entry = XldParserTrack::new(is_range, block).parse_track();
                    let ghost pre = tracks_view(r@);
                    r.push(entry);
                    proof {
                        assert(tracks_view(r@) =~= pre.push(
                            spec_track_entry(trim(s@.subrange(cur as int, h2 as int)), is_range),
                        ));
                        assert(spec_tracks(s@) =~= tracks_view(r@) + tracks_walk(
                            s@,
                            h2 as int,
                            is_range,
                            last as int,
                        ));
                    }
                    cur = h2;
                },
                Option::None => {
                    if cur > 0 && cur <= last {
                        let block = trim_range(s, cur, last);
                        let entry = XldParserTrack::new(is_range, block).parse_track();
                        let ghost pre = tracks_view(r@);
                        r.push(entry);
                        proof {
                            assert(tracks_view(r@) =~= pre.push(
                                spec_track_entry(
                                    trim(s@.subrange(cur as int, last as int)),
                                    is_range,
                                ),
                            ));
                            assert(tracks_view(r@) =~= spec_tracks(s@));
                        }
                    } else {
                        proof {
                            assert(tracks_view(r@) =~= spec_tracks(s@));
                        }
                    }
                    return r;
                },
            }
        }
    }

    /// The signature string embedded in the log, empty when there is none.
    pub fn extract_checksum(&self) -> (r: Vec<u8>)
        requires
            self.wf(),
        ensures
            r@ == spec_embedded_sig(self.log@),
    {
        embedded_sig_x(self.translated_log.as_slice())
    }

    /// The signature string the log body should carry.
    pub fn calculate_checksum(&self) -> (r: Vec<u8>)
        requires
            self.log@.len() < 0x10000000,
        ensures
            r@ == xld_signature_of(strip_sigs(self.log@)),
            r@.len() > 0,
    {
        let stripped = strip_sigs_x(self.log.as_slice());
        xld_signature_x(&stripped)
    }

    /// The authenticity verdict of the log.
    pub fn make_checksum(&self) -> (r: Checksum)
        requires
            self.wf(),
            self.log@.len() < 0x10000000,
        ensures
            r@ == spec_checksum(self.log@),
    {
        let calculated = self.calculate_checksum();
        let embedded = self.extract_checksum();
        let integrity = if embedded.len() == 0 {
            Integrity::Unknown
        } else if bytes_eq(&embedded, &calculated) {
            Integrity::Match
        } else {
            Integrity::Mismatch
        };
        proof {
            if embedded@.len() != 0 {
                assert(embedded@ =~= calculated@ <==> embedded@ == calculated@);
            }
        }
        Checksum { calculated, embedded, integrity }
    }

    /// Reads the whole sub-log into its record.
    #[verifier::rlimit(80)]
    pub fn parse(&self) -> (r: ParsedLog)
        requires
            self.wf(),
            self.log@.len() < 0x10000000,
        ensures
            r@ == spec_parsed_log(self.log@),
    {
        let r = ParsedLog {
            ripper: self.extract_ripper(),
            ripper_version: self.extract_ripper_version(),
            language: self.extract_language(),
            release_info: self.extract_release_info(),
            read_offset: self.extract_read_offset(),
            drive: self.extract_drive(),
            media_type: self.extract_media_type(),
            accurate_stream: self.extract_accurate_stream(),
            defeat_audio_cache: self.extract_defeat_audio_cache(),
            use_c2: self.extract_use_c2(),
            use_null_samples: self.extract_use_null_samples(),
            test_and_copy: self.extract_test_and_copy(),
            read_mode: self.extract_read_mode(),
            gap_handling: self.extract_gap_handling(),
            checksum: self.make_checksum(),
            toc: self.extract_toc(),
            tracks: self.extract_tracks(),
            audio_encoder: self.extract_audio_encoder(),
        };
        proof {
            let m = spec_parsed_log(self.log@);
            assert(r@.ripper_version == m.ripper_version);
            assert(r@.language == m.language);
            assert(r@.release_info == m.release_info);
            assert(r@.checksum == m.checksum);
            assert(r@.toc == m.toc);
            assert(r@.tracks =~= m.tracks);
            assert(r@.audio_encoder =~= m.audio_encoder);
            assert(r@ == m);
        }
        r
    }
}

/// The ghost forms of a vector of track entries.
pub open spec fn tracks_view(v: Seq<TrackEntry>) -> Seq<TrackEntryV> {
    Seq::new(v.len(), |i: int| v[i]@)
}

/// The word `English` as bytes.
fn lit_english() -> (l: Vec<u8>)
    ensures
        l@ == ascii_bytes("English"@),
{
    let lit = "English";
    proof {
        reveal_strlit("English");
        assert(lit.is_ascii());
    }
    lit_bytes(lit)
}

/// A copy of a byte vector.
fn copy_vec(v: &Vec<u8>) -> (r: Vec<u8>)
    ensures
        r@ == v@,
{
    let c = copy_range(v.as_slice(), 0, v.len());
    proof {
        assert(v@.subrange(0, v@.len() as int) =~= v@);
    }
    c
}

/// Exec search for the trailer anchor.
fn find_eof_x(s: &[u8]) -> (r: Option<usize>)
    ensures
        match r {
            Option::Some(l) => find_eof_from(s@, 0) == Option::Some(l as int) && l <= s@.len(),
            Option::None => find_eof_from(s@, 0) is None,
        },
{
    proof {
        reveal_strlit("No ");
        reveal_strlit("Some ");
        reveal_strlit("errors ");
        reveal_strlit("inconsistencies ");
        reveal_strlit("occurred");
        reveal_strlit("found");
        reveal_strlit("End of status report");
        assert("No ".is_ascii());
        assert("Some ".is_ascii());
        assert("errors ".is_ascii());
        assert("inconsistencies ".is_ascii());
        assert("occurred".is_ascii());
        assert("found".is_ascii());
        assert("End of status report".is_ascii());
    }
    let no_l = lit_bytes("No ");
    let some_l = lit_bytes("Some ");
    let err_l = lit_bytes("errors ");
    let inc_l = lit_bytes("inconsistencies ");
    let occ_l = lit_bytes("occurred");
    let fnd_l = lit_bytes("found");
    let eos_l = lit_bytes("End of status report");
    let n = s.len();
    let mut i: usize = 0;
    while i < n
        invariant
            i <= n,
            n == s@.len(),
            no_l@ == ascii_bytes("No "@),
            some_l@ == ascii_bytes("Some "@),
            err_l@ == ascii_bytes("errors "@),
            inc_l@ == ascii_bytes("inconsistencies "@),
            occ_l@ == ascii_bytes("occurred"@),
            fnd_l@ == ascii_bytes("found"@),
            eos_l@ == ascii_bytes("End of status report"@),
            find_eof_from(s@, 0) == find_eof_from(s@, i as int),
        decreases n - i,
    {
        if seq_at_b(s, i, eos_l.as_slice()) {
            return Option::Some(i);
        }
        // the full trailer phrase
        let mut a: usize = 0;
        let mut got_a = false;
        if seq_at_b(s, i, no_l.as_slice()) {
            a = i + no_l.len();
            got_a = true;
        } else if seq_at_b(s, i, some_l.as_slice()) {
            a = i + some_l.len();
            got_a = true;
        }
        if got_a {
            let mut b: usize = 0;
            let mut got_b = false;
            if seq_at_b(s, a, err_l.as_slice()) {
                b = a + err_l.len();
                got_b = true;
            } else if seq_at_b(s, a, inc_l.as_slice()) {
                b = a + inc_l.len();
                got_b = true;
            }
            if got_b {
                let mut c: usize = 0;
                let mut got_c = false;
                if seq_at_b(s, b, occ_l.as_slice()) {
                    c = b + occ_l.len();
                    got_c = true;
                } else if seq_at_b(s, b, fnd_l.as_slice()) {
                    c = b + fnd_l.len();
                    got_c = true;
                }
                if got_c {
                    let w = ws_end_x(s, c);
                    if w > c && seq_at_b(s, w, eos_l.as_slice()) {
                        proof {
                            assert(full_eof_at(s@, i as int));
                        }
                        return Option::Some(i);
                    }
                }
            }
        }
        proof {
            assert(!eof_at(s@, i as int));
        }
        i += 1;
    }
    Option::None
}

/// Exec search for the first track header at or after `from`.
pub fn find_track_header_x(s: &[u8], from: usize) -> (r: Option<usize>)
    requires
        from <= s@.len(),
    ensures
        match r {
            Option::Some(h) => find_trk_from(s@, from as int) == Option::Some(h as int) && h
                < s@.len() && trk_hdr_at(s@, h as int),
            Option::None => find_trk_from(s@, from as int) is None,
        },
{
    proof {
        reveal_strlit("Track ");
        reveal_strlit("Filename");
        reveal_strlit("Pre-gap length");
        assert("Track ".is_ascii());
        assert("Filename".is_ascii());
        assert("Pre-gap length".is_ascii());
    }
    let trk_l = lit_bytes("Track ");
    let fn_l = lit_bytes("Filename");
    let pg_l = lit_bytes("Pre-gap length");
    let n = s.len();
    let mut i: usize = from;
    while i < n
        invariant
            from <= i <= n,
            n == s@.len(),
            trk_l@ == ascii_bytes("Track "@),
            fn_l@ == ascii_bytes("Filename"@),
            pg_l@ == ascii_bytes("Pre-gap length"@),
            find_trk_from(s@, from as int) == find_trk_from(s@, i as int),
        decreases n - i,
    {
        if (i == 0 || s[i - 1] == 10) && seq_at_b(s, i, trk_l.as_slice()) {
            assert(i + trk_l@.len() <= n);
            let d = i + trk_l.len();
            let de = digits_end_x(s, d);
            if de > d {
                let w = ws_end_x(s, de);
                if w > de && (seq_at_b(s, w, fn_l.as_slice()) || seq_at_b(s, w, pg_l.as_slice())) {
                    return Option::Some(i);
                }
            }
        }
        proof {
            assert(!trk_hdr_at(s@, i as int));
        }
        i += 1;
    }
    Option::None
}

/// Exec test of [`spec_is_range`]: scans every track header for one that
/// opens with `Pre-gap length`.
fn has_pregap_x(s: &[u8]) -> (r: bool)
    ensures
        r == spec_is_range(s@),
{
    let mut p: usize = 0;
    loop
        invariant
            p <= s@.len(),
            has_pregap_from(s@, 0) == has_pregap_from(s@, p as int),
        decreases s@.len() - p,
    {
        match find_track_header_x(s, p) {
            Option::None => {
                return false;
            },
            Option::Some(h) => {
                proof {
                    lemma_find_trk_sound(s@, p as int);
                }
                if !trk_hdr_fname_x(s, h) {
                    return true;
                }
                let he = trk_hdr_end_x(s, h);
                proof {
                    assert(has_pregap_from(s@, p as int) == has_pregap_from(s@, he as int));
                }
                p = he;
            },
        }
    }
}

/// Exec test of the header keyword.
fn trk_hdr_fname_x(s: &[u8], i: usize) -> (r: bool)
    requires
        i < s@.len(),
        trk_hdr_at(s@, i as int),
    ensures
        r == trk_hdr_fname(s@, i as int),
{
    proof {
        reveal_strlit("Track ");
        reveal_strlit("Filename");
        assert("Track ".is_ascii());
        assert("Filename".is_ascii());
        let d = i + ascii_bytes("Track "@).len();
        lemma_digits_end(s@, d);
        lemma_ws_end(s@, digits_end(s@, d));
    }
    let trk_l = lit_bytes("Track ");
    let fn_l = lit_bytes("Filename");
    let n = s.len();
    assert(i + trk_l@.len() <= n);
    let d = i + trk_l.len();
    let de = digits_end_x(s, d);
    let w = ws_end_x(s, de);
    seq_at_b(s, w, fn_l.as_slice())
}

/// Exec computation of the header-end position.
fn trk_hdr_end_x(s: &[u8], i: usize) -> (r: usize)
    requires
        i < s@.len(),
        trk_hdr_at(s@, i as int),
    ensures
        r == trk_hdr_end(s@, i as int),
        i < r <= s@.len(),
{
    proof {
        reveal_strlit("Track ");
        reveal_strlit("Filename");
        reveal_strlit("Pre-gap length");
        assert("Track ".is_ascii());
        assert("Filename".is_ascii());
        assert("Pre-gap length".is_ascii());
        let d = i + ascii_bytes("Track "@).len();
        lemma_digits_end(s@, d);
        lemma_ws_end(s@, digits_end(s@, d));
    }
    let trk_l = lit_bytes("Track ");
    let fn_l = lit_bytes("Filename");
    let pg_l = lit_bytes("Pre-gap length");
    let n = s.len();
    assert(i + trk_l@.len() <= n);
    let d = i + trk_l.len();
    let de = digits_end_x(s, d);
    let w = ws_end_x(s, de);
    if seq_at_b(s, w, fn_l.as_slice()) {
        assert(w + fn_l@.len() <= n);
        w + fn_l.len()
    } else {
        proof {
            assert(seq_at(s@, w as int, ascii_bytes("Pre-gap length"@)));
        }
        assert(w + pg_l@.len() <= n);
        w + pg_l.len()
    }
}

/// A decoded log: the UTF-8 bytes of its text and the label of the
/// encoding it arrived in.
pub struct DecodedLog {
    pub text: Vec<u8>,
    pub orig_encoding: Vec<u8>,
}

/// The whole-file reader: one decoded log, read as a single XLD sub-log.
pub struct XldParser {
    pub encoded_log: DecodedLog,
}

/// What `parse_combined` delivers for a decoded text and encoding label.
pub open spec fn spec_parse_combined(text: Seq<u8>, enc: Seq<u8>) -> ParsedLogCombinedV {
    ParsedLogCombinedV { parsed_logs: seq![spec_parsed_log(trim(text))], encoding: enc }
}

impl XldParser {
    /// A reader over a decoded log.
    pub fn new(encoded_log: DecodedLog) -> (r: XldParser)
        ensures
            r.encoded_log == encoded_log,
    {
        XldParser { encoded_log }
    }

    /// The canonical text of the whole file: XLD logs need no translation.
    pub fn translate_combined(&self) -> (r: Vec<u8>)
        ensures
            r@ == self.encoded_log.text@,
    {
        copy_vec(&self.encoded_log.text)
    }

    /// Reads the file as one sub-log, over its trimmed text.
    pub fn parse_combined(&self) -> (r: ParsedLogCombined)
        requires
            self.encoded_log.text@.len() < 0x10000000,
        ensures
            r@ == spec_parse_combined(self.encoded_log.text@, self.encoded_log.orig_encoding@),
    {
        let trimmed = trim_range(self.encoded_log.text.as_slice(), 0, self.encoded_log.text.len());
        proof {
            assert(self.encoded_log.text@.subrange(0, self.encoded_log.text@.len() as int)
                =~= self.encoded_log.text@);
            crate::textscan::lemma_trim_le(self.encoded_log.text@);
        }
        let single = XldParserSingle::from_bytes(trimmed);
        let parsed = single.parse();
        let mut parsed_logs: Vec<ParsedLog> = Vec::new();
        parsed_logs.push(parsed);
        let encoding = copy_vec(&self.encoded_log.orig_encoding);
        let r = ParsedLogCombined { parsed_logs, encoding };
        proof {
            assert(r@.parsed_logs =~= spec_parse_combined(
                self.encoded_log.text@,
                self.encoded_log.orig_encoding@,
            ).parsed_logs);
        }
        r
    }
}

} // verus!
