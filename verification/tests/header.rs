//! Header extractors, field by field.
use cambia::types::{Gap, MediaType, Quartet, ReadMode};
use cambia::xld::{DecodedLog, XldParser, XldParserSingle};

fn single(body: &str) -> XldParserSingle {
    XldParserSingle::new(body.to_string())
}

#[test]
fn ripper_version_absent_reads_unknown() {
    let s = single("no version line here");
    assert_eq!(s.extract_ripper_version(), b"Unknown".to_vec());
}

#[test]
fn ripper_version_runs_to_end_of_line() {
    let s = single("X Lossless Decoder version 20230413 (127.4.2)\nnext line");
    assert_eq!(s.extract_ripper_version(), b"20230413 (127.4.2)".to_vec());
}

#[test]
fn release_info_without_separator_is_empty() {
    let s = single("XLD extraction logfile from 2023-04-14\nJust A Title\n");
    let r = s.extract_release_info();
    assert_eq!(r.artist, b"".to_vec());
    assert_eq!(r.title, b"".to_vec());
}

#[test]
fn release_info_splits_once() {
    let s = single("XLD extraction logfile from 2023-04-14\n  A Band  /  A Record / Deluxe\n");
    let r = s.extract_release_info();
    assert_eq!(r.artist, b"A Band".to_vec());
    assert_eq!(r.title, b"A Record / Deluxe".to_vec());
}

#[test]
fn media_type_variants() {
    assert_eq!(single("Media type : Pressed CD\n").extract_media_type(), MediaType::Pressed);
    assert_eq!(single("Media type : CD-Recordable\n").extract_media_type(), MediaType::CDR);
    assert_eq!(single("Media type : Mystery Disc\n").extract_media_type(), MediaType::Other);
    assert_eq!(single("no such line").extract_media_type(), MediaType::Unknown);
}

#[test]
fn boolean_fields() {
    assert_eq!(single("Disable audio cache : OK\n").extract_defeat_audio_cache(), Quartet::True);
    assert_eq!(single("Disable audio cache : YES\n").extract_defeat_audio_cache(), Quartet::True);
    assert_eq!(single("Disable audio cache : NO\n").extract_defeat_audio_cache(), Quartet::False);
    assert_eq!(single("nothing").extract_defeat_audio_cache(), Quartet::Unknown);
    // `OK` is not an accepted answer for the C2 field
    assert_eq!(single("Make use of C2 pointers : OK\n").extract_use_c2(), Quartet::Unknown);
    assert_eq!(single("Make use of C2 pointers : YES\n").extract_use_c2(), Quartet::True);
    assert_eq!(single("anything").extract_use_null_samples(), Quartet::True);
}

#[test]
fn read_offset_values() {
    assert_eq!(single("Read offset correction : +6\n").extract_read_offset(), Some(6));
    assert_eq!(single("Read offset correction : -120\n").extract_read_offset(), Some(-120));
    assert_eq!(single("Read offset correction : 667\n").extract_read_offset(), Some(667));
    assert_eq!(single("no offset").extract_read_offset(), None);
    // out of the signed 16-bit range
    assert_eq!(single("Read offset correction : 99999\n").extract_read_offset(), None);
    assert_eq!(single("Read offset correction : -32768\n").extract_read_offset(), Some(-32768));
}

#[test]
fn gap_handling_variants() {
    assert_eq!(single("Gap status : Not analyzed\n").extract_gap_handling(), Gap::Unknown);
    assert_eq!(
        single("Gap status : Analyzed, Appended (except HTOA)\n").extract_gap_handling(),
        Gap::AppendNoHtoa
    );
    assert_eq!(single("Gap status : Analyzed, Appended\n").extract_gap_handling(), Gap::Append);
    assert_eq!(single("Gap status : Something else\n").extract_gap_handling(), Gap::Unknown);
    assert_eq!(single("none").extract_gap_handling(), Gap::Unknown);
}

#[test]
fn read_mode_variants() {
    assert_eq!(single("Ripper mode : XLD Secure Ripper\n").extract_read_mode(), ReadMode::Secure);
    assert_eq!(single("Ripper mode : Burst\n").extract_read_mode(), ReadMode::Burst);
    assert_eq!(
        single("Ripper mode : CDParanoia III 10.2\n").extract_read_mode(),
        ReadMode::Paranoid
    );
    assert_eq!(single("Ripper mode : Odd\n").extract_read_mode(), ReadMode::Unknown);
    assert_eq!(single("nothing at all").extract_read_mode(), ReadMode::Unknown);
}

#[test]
fn accurate_stream_presence() {
    let with = single("AccurateRip v2 signature : 01234567\n");
    assert_eq!(with.extract_accurate_stream(), Quartet::True);
    let without = single("AccurateRip disabled\n");
    assert_eq!(without.extract_accurate_stream(), Quartet::False);
}

#[test]
fn audio_encoder_deduplicates() {
    let body = "Filename : /a/01.flac\n/a/02.FLAC\n/a/03.wav\n";
    let s = single(body);
    let enc = s.extract_audio_encoder();
    assert_eq!(enc, vec![b"flac".to_vec(), b"wav".to_vec()]);
}

#[test]
fn audio_encoder_unites_separate_filename_lists() {
    let body = "Filename : /a/01.flac\nPeak : 0.5\nFilename : /a/02.ape\nPeak : 0.6\nFilename : /a/03.flac\n";
    let s = single(body);
    let enc = s.extract_audio_encoder();
    assert_eq!(enc, vec![b"flac".to_vec(), b"ape".to_vec()]);
}

#[test]
fn checksum_extraction() {
    let body = "top\n-----BEGIN XLD SIGNATURE-----\nAbCd123._x\n-----END XLD SIGNATURE-----";
    let s = single(body);
    assert_eq!(s.extract_checksum(), b"AbCd123._x".to_vec());
    let none = single("no block");
    assert_eq!(none.extract_checksum(), b"".to_vec());
}

#[test]
fn quartet_has_exactly_four_variants() {
    for q in [Quartet::True, Quartet::False, Quartet::Unknown, Quartet::Unsupported] {
        assert!(matches!(
            q,
            Quartet::True | Quartet::False | Quartet::Unknown | Quartet::Unsupported
        ));
    }
}

#[test]
fn supported_rippers_are_listed() {
    let r = cambia::get_supported_rippers();
    assert_eq!(r, vec![b"EAC".to_vec(), b"XLD".to_vec(), b"whipper".to_vec()]);
}

#[test]
fn track_number_out_of_byte_range_reads_zero() {
    let t = cambia::track::XldParserTrack::new(false, b"Track 300\n    Filename : /a/x.flac\n".to_vec())
        .parse_track();
    assert_eq!(t.num, 0);
}

#[test]
fn toc_times_in_frame_and_centisecond_forms() {
    let body = "TOC\n     Track |   Start  |  Length  | Start sector | End sector\n         1 | 04:32:11 | 01:02.50 |            0 |      20410\n";
    let s = single(body);
    let toc = s.extract_toc();
    assert_eq!(toc.raw.entries.len(), 1);
    // 04:32:11 is minutes, seconds, frames of 1/75 s: a frame is 100 centi-frames
    assert_eq!(
        toc.raw.entries[0].start.centiframes,
        (4 * 60 + 32) * 7500 + 11 * 100
    );
    // 01:02.50 is minutes, seconds, centiseconds: a centisecond is 75 centi-frames
    assert_eq!(
        toc.raw.entries[0].length.centiframes,
        (1 * 60 + 2) * 7500 + 50 * 75
    );
}

#[test]
fn toc_row_with_oversized_number_is_passed_over() {
    let body = "\n         1 | 00:00:00 | 00:01:00 |            0 |  99999999999999999999\n         2 | 00:00:00 | 00:01:00 |            0 |      100\n";
    let s = single(body);
    let toc = s.extract_toc();
    assert_eq!(toc.raw.entries.len(), 1);
    assert_eq!(toc.raw.entries[0].track, 2);
}

#[test]
fn whole_file_reader_over_decoded_text() {
    let text = b"  X Lossless Decoder version 20230413 (127.4.2)\nUsed drive : BAR\nNo errors occurred\nEnd of status report  ".to_vec();
    let parser = XldParser::new(DecodedLog { text: text.clone(), orig_encoding: b"UTF-8".to_vec() });
    assert_eq!(parser.translate_combined(), text);
    let combined = parser.parse_combined();
    assert_eq!(combined.encoding, b"UTF-8".to_vec());
    assert_eq!(combined.parsed_logs.len(), 1);
    assert_eq!(combined.parsed_logs[0].drive, b"BAR".to_vec());
}
