//! End-to-end readings of whole XLD logs.
use cambia::parse_log_bytes;
use cambia::types::{
    AccurateRipConfidenceTotal, AccurateRipOffset, AccurateRipStatus, Integrity, MediaType,
    Quartet, ReadMode, Ripper,
};
use cambia::xld::XldParserSingle;

fn minimal_body() -> String {
    let mut s = String::new();
    s.push_str("X Lossless Decoder version 20230413 (127.4.2)\n");
    s.push_str("XLD extraction logfile from 2023-04-14 10:00:00 +0000\n");
    s.push_str("Artist / Album\n");
    s.push_str("\n");
    s.push_str("Used drive : FOO\n");
    s.push_str("Media type : Pressed CD\n");
    s.push_str("\n");
    s.push_str("Ripper mode             : XLD Secure Ripper\n");
    s.push_str("Disable audio cache     : OK\n");
    s.push_str("Make use of C2 pointers : NO\n");
    s.push_str("Read offset correction  : +6\n");
    s.push_str("\n");
    s.push_str("TOC of the extracted CD\n");
    s.push_str("     Track |   Start  |  Length  | Start sector | End sector\n");
    s.push_str("    ---------------------------------------------------------\n");
    s.push_str("         1 | 00:00:00 | 04:32:11 |            0 |      20410\n");
    s.push_str("         2 | 04:32:11 | 03:10:00 |        20411 |      34660\n");
    s.push_str("\n");
    s.push_str("Track 01\n");
    s.push_str("    Filename : /rips/01 First.flac\n");
    s.push_str("    CRC32 hash (test run) : DEADBEEF\n");
    s.push_str("    CRC32 hash            : DEADBEEF\n");
    s.push_str("\n");
    s.push_str("Track 02\n");
    s.push_str("    Filename : /rips/02 Second.flac\n");
    s.push_str("    CRC32 hash (test run) : DEADBEEF\n");
    s.push_str("    CRC32 hash            : DEADBEEF\n");
    s.push_str("\n");
    s.push_str("No errors occurred\n");
    s.push_str("End of status report");
    s
}

fn signed(body: &str) -> Vec<u8> {
    let single = XldParserSingle::new(body.to_string());
    let sig = single.calculate_checksum();
    let mut out = body.as_bytes().to_vec();
    out.extend_from_slice(b"\n-----BEGIN XLD SIGNATURE-----\n");
    out.extend_from_slice(&sig);
    out.extend_from_slice(b"\n-----END XLD SIGNATURE-----");
    out
}

#[test]
fn minimal_log_valid_signature() {
    let raw = signed(&minimal_body());
    let resp = parse_log_bytes(&raw).expect("an XLD log parses");
    assert_eq!(resp.parsed.encoding, b"UTF-8".to_vec());
    assert_eq!(resp.parsed.parsed_logs.len(), 1);
    let log = &resp.parsed.parsed_logs[0];
    assert_eq!(log.ripper, Ripper::XLD);
    assert_eq!(log.ripper_version, b"20230413 (127.4.2)".to_vec());
    assert_eq!(log.language, b"English".to_vec());
    assert_eq!(log.release_info.artist, b"Artist".to_vec());
    assert_eq!(log.release_info.title, b"Album".to_vec());
    assert_eq!(log.drive, b"FOO".to_vec());
    assert_eq!(log.media_type, MediaType::Pressed);
    assert_eq!(log.read_mode, ReadMode::Secure);
    assert_eq!(log.defeat_audio_cache, Quartet::True);
    assert_eq!(log.use_c2, Quartet::False);
    assert_eq!(log.use_null_samples, Quartet::True);
    assert_eq!(log.accurate_stream, Quartet::False);
    assert_eq!(log.test_and_copy, Quartet::True);
    assert_eq!(log.read_offset, Some(6));
    assert_eq!(log.toc.raw.entries.len(), 2);
    assert_eq!(log.toc.raw.entries[0].track, 1);
    assert_eq!(log.toc.raw.entries[0].start_sector, 0);
    assert_eq!(log.toc.raw.entries[0].end_sector, 20410);
    assert_eq!(log.toc.raw.entries[1].track, 2);
    assert_eq!(log.tracks.len(), 2);
    for t in &log.tracks {
        assert_eq!(t.test_and_copy.test_hash, b"DEADBEEF".to_vec());
        assert_eq!(t.test_and_copy.copy_hash, b"DEADBEEF".to_vec());
        assert_eq!(t.test_and_copy.integrity, Integrity::Match);
        assert!(!t.is_range);
        assert_eq!(t.ar_info.len(), 1);
        assert_eq!(t.ar_info[0].status, AccurateRipStatus::Disabled);
    }
    assert_eq!(log.tracks[0].num, 1);
    assert_eq!(log.tracks[1].num, 2);
    assert_eq!(
        log.tracks[0].filenames,
        vec![b"/rips/01 First.flac".to_vec()]
    );
    assert_eq!(log.audio_encoder, vec![b"flac".to_vec()]);
    assert_eq!(log.checksum.integrity, Integrity::Match);
    assert_eq!(resp.id.len(), 32);
}

#[test]
fn legacy_cdparanoia_mode_yes() {
    let body = minimal_body().replace(
        "Ripper mode             : XLD Secure Ripper",
        "Use cdparanoia mode     : YES",
    );
    let single = XldParserSingle::new(body.clone());
    assert_eq!(single.extract_read_mode(), ReadMode::Paranoid);
    let raw = body.into_bytes();
    let resp = parse_log_bytes(&raw).expect("an XLD log parses");
    assert_eq!(resp.parsed.parsed_logs[0].read_mode, ReadMode::Paranoid);
}

#[test]
fn legacy_cdparanoia_mode_no() {
    let body = minimal_body().replace(
        "Ripper mode             : XLD Secure Ripper",
        "Use cdparanoia mode     : NO",
    );
    let single = XldParserSingle::new(body);
    assert_eq!(single.extract_read_mode(), ReadMode::Burst);
}

#[test]
fn log_without_signature_block() {
    let body = minimal_body();
    let with_sig = signed(&body);
    let without_sig = body.clone().into_bytes();
    let a = parse_log_bytes(&with_sig).unwrap();
    let b = parse_log_bytes(&without_sig).unwrap();
    let la = &a.parsed.parsed_logs[0];
    let lb = &b.parsed.parsed_logs[0];
    assert_eq!(lb.checksum.integrity, Integrity::Unknown);
    assert_eq!(lb.checksum.embedded, b"".to_vec());
    // everything but the checksum reads the same
    assert_eq!(la.ripper_version, lb.ripper_version);
    assert_eq!(la.release_info, lb.release_info);
    assert_eq!(la.drive, lb.drive);
    assert_eq!(la.media_type, lb.media_type);
    assert_eq!(la.read_mode, lb.read_mode);
    assert_eq!(la.read_offset, lb.read_offset);
    assert_eq!(la.toc, lb.toc);
    assert_eq!(la.tracks, lb.tracks);
    assert_eq!(la.audio_encoder, lb.audio_encoder);
    // the computed signature is the same in both readings
    assert_eq!(la.checksum.calculated, lb.checksum.calculated);
}

#[test]
fn tampered_body_mismatches() {
    let raw = signed(&minimal_body());
    let tampered: Vec<u8> = {
        let s = String::from_utf8(raw).unwrap();
        s.replace("Used drive : FOO", "Used drive : FOX").into_bytes()
    };
    let resp = parse_log_bytes(&tampered).unwrap();
    assert_eq!(resp.parsed.parsed_logs[0].checksum.integrity, Integrity::Mismatch);
}

#[test]
fn parse_is_deterministic() {
    let raw = signed(&minimal_body());
    let a = parse_log_bytes(&raw).unwrap();
    let b = parse_log_bytes(&raw).unwrap();
    assert_eq!(a, b);
}

#[test]
fn pre_gap_header_marks_range_rip() {
    // the pre-gap header comes last: the flag still covers the whole log
    let body = minimal_body().replace(
        "No errors occurred",
        "Track 03\n    Pre-gap length : 00:02:00\n\nNo errors occurred",
    );
    let raw = body.into_bytes();
    let resp = parse_log_bytes(&raw).unwrap();
    let log = &resp.parsed.parsed_logs[0];
    assert_eq!(log.tracks.len(), 3);
    assert!(log.tracks[0].is_range);
    assert!(log.tracks[1].is_range);
    assert!(log.tracks[2].is_range);
    assert_eq!(
        log.tracks[2].pregap_length.map(|t| t.centiframes),
        Some(2 * 7500)
    );
}

#[test]
fn audio_encoders_come_from_every_track() {
    let body = minimal_body().replace(
        "Filename : /rips/02 Second.flac",
        "Filename : /rips/02 Second.wav",
    );
    let raw = body.into_bytes();
    let resp = parse_log_bytes(&raw).unwrap();
    let log = &resp.parsed.parsed_logs[0];
    assert_eq!(log.audio_encoder, vec![b"flac".to_vec(), b"wav".to_vec()]);
}

#[test]
fn unknown_ripper_with_toc_gives_empty_record() {
    let body = "Some other ripper\n\n     Track |   Start  |  Length  | Start sector | End sector\n         1 | 00:00:00 | 04:32:11 |            0 |      20410\n";
    let resp = parse_log_bytes(&body.as_bytes().to_vec()).unwrap();
    assert_eq!(resp.parsed.parsed_logs.len(), 0);
}

#[test]
fn garbage_is_refused() {
    let body = b"nothing that resembles a rip log".to_vec();
    assert!(parse_log_bytes(&body).is_err());
}

#[test]
fn utf16le_bom_is_detected() {
    let body = minimal_body();
    let mut raw: Vec<u8> = vec![0xff, 0xfe];
    for u in body.encode_utf16() {
        raw.extend_from_slice(&u.to_le_bytes());
    }
    let resp = parse_log_bytes(&raw).unwrap();
    assert_eq!(resp.parsed.encoding, b"UTF-16LE".to_vec());
    let log = &resp.parsed.parsed_logs[0];
    assert_eq!(log.drive, b"FOO".to_vec());
    assert_eq!(log.ripper_version, b"20230413 (127.4.2)".to_vec());
}

#[test]
fn windows1252_high_bytes_are_decoded() {
    let body = minimal_body().replace("Used drive : FOO", "Used drive : CAFQ");
    let mut raw = body.into_bytes();
    let pos = raw
        .windows(4)
        .position(|w| w == b"CAFQ")
        .expect("the drive name is present");
    // 0x81 is a lone continuation byte in UTF-8 and a lead byte with an
    // invalid trail in Shift-JIS, so only Windows-1252 reads it
    raw[pos + 3] = 0x81;
    let resp = parse_log_bytes(&raw).unwrap();
    assert_eq!(resp.parsed.encoding, b"Windows-1252".to_vec());
    let log = &resp.parsed.parsed_logs[0];
    // Windows-1252 byte 0x81 reads as U+0081, which UTF-8 writes as 0xC2 0x81
    assert_eq!(log.drive, vec![b'C', b'A', b'F', 0xC2, 0x81]);
}

#[test]
fn shift_jis_log_is_detected() {
    let body = minimal_body().replace("Used drive : FOO", "Used drive : ZZ");
    let mut raw = body.into_bytes();
    let pos = raw
        .windows(2)
        .position(|w| w == b"ZZ")
        .expect("the drive name is present");
    // a hiragana letter in Shift-JIS takes the place of the two markers
    raw[pos] = 0x82;
    raw[pos + 1] = 0xA0;
    let resp = parse_log_bytes(&raw).unwrap();
    assert_eq!(resp.parsed.encoding, b"Shift_JIS".to_vec());
    let log = &resp.parsed.parsed_logs[0];
    // Shift-JIS 0x82 0xA0 is U+3042, which UTF-8 writes as 0xE3 0x81 0x82
    assert_eq!(log.drive, vec![0xE3, 0x81, 0x82]);
}

#[test]
fn accuraterip_two_versions_with_offset() {
    let mut s = String::new();
    s.push_str("Track 01\n");
    s.push_str("    Filename : /rips/01 First.flac\n");
    s.push_str("    AccurateRip v1 signature : AAAAAAAA (BBBBBBBB w/correction)\n");
    s.push_str("    AccurateRip v2 signature : CCCCCCCC\n");
    s.push_str("        ->Accurately ripped (v1+v2, confidence 3+5/200, offset 667)\n");
    s.push_str("    Statistics\n");
    let track = cambia::track::XldParserTrack::new(false, s.into_bytes()).parse_track();
    assert_eq!(track.ar_info.len(), 2);
    let u0 = &track.ar_info[0];
    assert_eq!(u0.version, Some(1));
    assert_eq!(u0.sign, b"AAAAAAAA".to_vec());
    assert_eq!(u0.offset_sign, b"BBBBBBBB".to_vec());
    let c0 = u0.confidence.expect("the summary names v1");
    assert_eq!(c0.matching, Some(3));
    assert_eq!(c0.total, Some(AccurateRipConfidenceTotal::All(200)));
    assert_eq!(c0.offset, AccurateRipOffset::Different(Some(667)));
    assert_eq!(u0.status, AccurateRipStatus::Offsetted);
    let u1 = &track.ar_info[1];
    assert_eq!(u1.version, Some(2));
    assert_eq!(u1.sign, b"CCCCCCCC".to_vec());
    assert_eq!(u1.offset_sign, b"CCCCCCCC".to_vec());
    let c1 = u1.confidence.expect("the summary names v2");
    assert_eq!(c1.matching, Some(5));
    assert_eq!(c1.total, Some(AccurateRipConfidenceTotal::All(200)));
    assert_eq!(c1.offset, AccurateRipOffset::Different(Some(667)));
}

#[test]
fn unversioned_signature_inherits_sole_table_key() {
    let mut s = String::new();
    s.push_str("Track 01\n");
    s.push_str("    Filename : /rips/01 First.flac\n");
    s.push_str("    AccurateRip signature : ABCDEF01\n");
    s.push_str("        ->Accurately ripped (v2, confidence 7, offset 12)\n");
    s.push_str("    Statistics\n");
    let track = cambia::track::XldParserTrack::new(false, s.into_bytes()).parse_track();
    assert_eq!(track.ar_info.len(), 1);
    let u0 = &track.ar_info[0];
    assert_eq!(u0.version, Some(2));
    assert_eq!(u0.confidence.unwrap().matching, Some(7));
    assert_eq!(u0.offset_sign, b"ABCDEF01".to_vec());
}

#[test]
fn accuraterip_not_found_without_summary() {
    let mut s = String::new();
    s.push_str("Track 01\n");
    s.push_str("    Filename : /rips/01 First.flac\n");
    s.push_str("    AccurateRip v1 signature : AAAAAAAA\n");
    s.push_str("    Statistics\n");
    let track = cambia::track::XldParserTrack::new(false, s.into_bytes()).parse_track();
    assert_eq!(track.ar_info.len(), 1);
    assert_eq!(track.ar_info[0].status, AccurateRipStatus::NotFound);
    assert_eq!(track.ar_info[0].confidence, None);
    assert_eq!(track.ar_info[0].offset_sign, b"".to_vec());
}

#[test]
fn damaged_sector_list() {
    let mut s = String::new();
    s.push_str("Track 01\n");
    s.push_str("    Filename : /rips/01 First.flac\n");
    s.push_str("    Damaged sector count : 2\n");
    s.push_str("    List of damaged sector positions : (1) 0:01:23 (2) 0:04:56\n");
    let track = cambia::track::XldParserTrack::new(false, s.into_bytes()).parse_track();
    let dmg = &track.errors.damaged_sectors;
    assert_eq!(dmg.count, 2);
    assert_eq!(dmg.ranges.len(), 2);
    // 1.23 s and 4.56 s, in centi-frames of 1/7500 s
    assert_eq!(dmg.ranges[0].start.centiframes, 9225);
    assert_eq!(dmg.ranges[0].length.centiframes, 0);
    assert_eq!(dmg.ranges[1].start.centiframes, 34200);
    assert_eq!(dmg.ranges[1].length.centiframes, 0);
}

#[test]
fn error_counts_are_read() {
    let mut s = String::new();
    s.push_str("Track 07\n");
    s.push_str("    Filename : /rips/07.flac\n");
    s.push_str("    Read error : 3\n");
    s.push_str("    Skipped (treated as error) : 1\n");
    s.push_str("    Jitter error (maybe fixed) : 12\n");
    s.push_str("    Missing samples\n");
    let track = cambia::track::XldParserTrack::new(false, s.into_bytes()).parse_track();
    assert_eq!(track.num, 7);
    assert_eq!(track.errors.read.count, 3);
    assert_eq!(track.errors.skip.count, 1);
    assert_eq!(track.errors.jitter_generic.count, 12);
    assert_eq!(track.errors.missing_samples.count, 1);
    assert_eq!(track.errors.drift.count, 0);
}
