//! Decoding the raw log bytes to UTF-8 text.
//!
//! The byte-order-mark detection and the choice of encoding are verified
//! here; the decoding itself is done by `encoding_rs` behind trusted
//! wrappers, one per encoding.  Each decoder's result is a pure function
//! of the input bytes, so it is named by an uninterpreted function: the
//! pair of the UTF-8 output bytes and the flag that says whether malformed
//! input was replaced.
use vstd::prelude::*;
use crate::textscan::ascii_bytes;
use crate::textscan::lit_bytes;

verus! {

/// What `encoding_rs::UTF_8.decode_without_bom_handling` returns.
pub uninterp spec fn utf8_decoded_of(b: Seq<u8>) -> (Seq<u8>, bool);

/// What `encoding_rs::UTF_16LE.decode_without_bom_handling` returns.
pub uninterp spec fn utf16le_decoded_of(b: Seq<u8>) -> (Seq<u8>, bool);

/// What `encoding_rs::UTF_16BE.decode_without_bom_handling` returns.
pub uninterp spec fn utf16be_decoded_of(b: Seq<u8>) -> (Seq<u8>, bool);

/// What `encoding_rs::SHIFT_JIS.decode_without_bom_handling` returns.
pub uninterp spec fn sjis_decoded_of(b: Seq<u8>) -> (Seq<u8>, bool);

/// What `encoding_rs::WINDOWS_1252.decode_without_bom_handling` returns.
pub uninterp spec fn win1252_decoded_of(b: Seq<u8>) -> (Seq<u8>, bool);

/// Relies on `encoding_rs::UTF_8.decode_without_bom_handling`: the result
/// depends on the bytes alone; when nothing was malformed the text is the
/// input itself.
#[verifier::external_body]
fn decode_utf8(bytes: &[u8]) -> (r: (Vec<u8>, bool))
    ensures
        (r.0@, r.1) == utf8_decoded_of(bytes@),
        !r.1 ==> r.0@ == bytes@,
{
    let (cow, had_errors) = encoding_rs::UTF_8.decode_without_bom_handling(bytes);
    (cow.into_owned().into_bytes(), had_errors)
}

/// Relies on `encoding_rs::UTF_16LE.decode_without_bom_handling`: the
/// result depends on the bytes alone.
#[verifier::external_body]
fn decode_utf16le(bytes: &[u8]) -> (r: (Vec<u8>, bool))
    ensures
        (r.0@, r.1) == utf16le_decoded_of(bytes@),
{
    let (cow, had_errors) = encoding_rs::UTF_16LE.decode_without_bom_handling(bytes);
    (cow.into_owned().into_bytes(), had_errors)
}

/// Relies on `encoding_rs::UTF_16BE.decode_without_bom_handling`: the
/// result depends on the bytes alone.
#[verifier::external_body]
fn decode_utf16be(bytes: &[u8]) -> (r: (Vec<u8>, bool))
    ensures
        (r.0@, r.1) == utf16be_decoded_of(bytes@),
{
    let (cow, had_errors) = encoding_rs::UTF_16BE.decode_without_bom_handling(bytes);
    (cow.into_owned().into_bytes(), had_errors)
}

/// Relies on `encoding_rs::SHIFT_JIS.decode_without_bom_handling`: the
/// result depends on the bytes alone.
#[verifier::external_body]
fn decode_sjis(bytes: &[u8]) -> (r: (Vec<u8>, bool))
    ensures
        (r.0@, r.1) == sjis_decoded_of(bytes@),
{
    let (cow, had_errors) = encoding_rs::SHIFT_JIS.decode_without_bom_handling(bytes);
    (cow.into_owned().into_bytes(), had_errors)
}

/// Relies on `encoding_rs::WINDOWS_1252.decode_without_bom_handling`: the
/// result depends on the bytes alone.
#[verifier::external_body]
fn decode_win1252(bytes: &[u8]) -> (r: (Vec<u8>, bool))
    ensures
        (r.0@, r.1) == win1252_decoded_of(bytes@),
{
    let (cow, had_errors) = encoding_rs::WINDOWS_1252.decode_without_bom_handling(bytes);
    (cow.into_owned().into_bytes(), had_errors)
}

/// The text and encoding label the decoder produces for raw bytes: a
/// byte-order mark decides directly; otherwise clean UTF-8 stands as it
/// is; otherwise Shift-JIS when it decodes without replacements; otherwise
/// Windows-1252.
pub open spec fn spec_decode(raw: Seq<u8>) -> (Seq<u8>, Seq<u8>) {
    if raw.len() >= 2 && raw[0] == 0xff && raw[1] == 0xfe {
        (utf16le_decoded_of(raw.skip(2)).0, ascii_bytes("UTF-16LE"@))
    } else if raw.len() >= 2 && raw[0] == 0xfe && raw[1] == 0xff {
        (utf16be_decoded_of(raw.skip(2)).0, ascii_bytes("UTF-16BE"@))
    } else if raw.len() >= 3 && raw[0] == 0xef && raw[1] == 0xbb && raw[2] == 0xbf {
        (utf8_decoded_of(raw.skip(3)).0, ascii_bytes("UTF-8"@))
    } else if !utf8_decoded_of(raw).1 {
        (utf8_decoded_of(raw).0, ascii_bytes("UTF-8"@))
    } else if !sjis_decoded_of(raw).1 {
        (sjis_decoded_of(raw).0, ascii_bytes("Shift_JIS"@))
    } else {
        (win1252_decoded_of(raw).0, ascii_bytes("Windows-1252"@))
    }
}

/// Decodes raw log bytes to UTF-8 text with the label of the detected
/// encoding.
pub fn decode_log_bytes(raw: &[u8]) -> (r: (Vec<u8>, Vec<u8>))
    ensures
        r.0@ == spec_decode(raw@).0,
        r.1@ == spec_decode(raw@).1,
{
    proof {
        reveal_strlit("UTF-16LE");
        reveal_strlit("UTF-16BE");
        reveal_strlit("UTF-8");
        reveal_strlit("Shift_JIS");
        reveal_strlit("Windows-1252");
        assert("UTF-16LE".is_ascii());
        assert("UTF-16BE".is_ascii());
        assert("UTF-8".is_ascii());
        assert("Shift_JIS".is_ascii());
        assert("Windows-1252".is_ascii());
    }
    let n = raw.len();
    if n >= 2 && raw[0] == 0xff && raw[1] == 0xfe {
        let body = crate::textscan::copy_range(raw, 2, n);
        proof {
            assert(body@ =~= raw@.skip(2));
        }
        let (text, _had_errors) = decode_utf16le(body.as_slice());
        return (text, lit_bytes("UTF-16LE"));
    }
    if n >= 2 && raw[0] == 0xfe && raw[1] == 0xff {
        let body = crate::textscan::copy_range(raw, 2, n);
        proof {
            assert(body@ =~= raw@.skip(2));
        }
        let (text, _had_errors) = decode_utf16be(body.as_slice());
        return (text, lit_bytes("UTF-16BE"));
    }
    if n >= 3 && raw[0] == 0xef && raw[1] == 0xbb && raw[2] == 0xbf {
        let body = crate::textscan::copy_range(raw, 3, n);
        proof {
            assert(body@ =~= raw@.skip(3));
        }
        let (text, _had_errors) = decode_utf8(body.as_slice());
        return (text, lit_bytes("UTF-8"));
    }
    let (text, had_errors) = decode_utf8(raw);
    if !had_errors {
        return (text, lit_bytes("UTF-8"));
    }
    let (sjis_text, sjis_errors) = decode_sjis(raw);
    if !sjis_errors {
        return (sjis_text, lit_bytes("Shift_JIS"));
    }
    let (w_text, _w_errors) = decode_win1252(raw);
    (w_text, lit_bytes("Windows-1252"))
}

} // verus!
