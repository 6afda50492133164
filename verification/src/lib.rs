//! Parsing and authentication of audio-CD ripping logs produced by
//! X Lossless Decoder (XLD).
//!
//! The crate decodes the raw log bytes to text, segments the text into
//! header, table-of-contents, per-track and trailer regions, extracts the
//! typed fields of each region, and checks the authenticity signature that
//! XLD embeds between `-----BEGIN XLD SIGNATURE-----` and
//! `-----END XLD SIGNATURE-----` lines.
#![allow(unused_imports)]

pub mod ar;
pub mod b64;
pub mod decode;
pub mod pattern;
pub mod sha256;
pub mod signature;
pub mod textscan;
pub mod toc;
pub mod track;
pub mod types;
pub mod xld;

use vstd::prelude::*;
use crate::decode::{decode_log_bytes, spec_decode};
use crate::sha256::{sha256_of, standard_iv_state, Sha256Custom};
use crate::signature::{
    find_sig_from, spec_embedded_sig, strip_sigs, xld_signature_of, lemma_signature_nonempty,
};
use crate::textscan::{ascii_bytes, digits_end, digits_val, lit_bytes, seq_contains, ws_end};
use crate::types::{
    CambiaError, CambiaResponse, CambiaResponseV, Integrity, ParsedLogCombined,
    ParsedLogCombinedV, ParsedLog, AccurateRipStatus,
};
use crate::xld::{spec_parse_combined, spec_checksum, DecodedLog, XldParser};

verus! {

/// The text opens an XLD log: the decoder's version line occurs in it.
pub open spec fn spec_is_xld(text: Seq<u8>) -> bool {
    seq_contains(text, ascii_bytes("X Lossless Decoder version"@))
}

/// The decoded text resembles no log at all: no known ripper, no
/// signature block, no table of contents and no track block.
pub open spec fn spec_unparsable(text: Seq<u8>) -> bool {
    &&& !spec_is_xld(text)
    &&& find_sig_from(text, 0) is None
    &&& crate::toc::toc_entries_from(text, 0).len() == 0
    &&& crate::xld::find_trk_from(text, 0) is None
}

/// What parsing raw bytes delivers: `None` when the input is refused
/// (nothing resembling a log, or a decoded text beyond the supported
/// size); otherwise the response, whose identifier is the SHA-256 digest
/// of the raw bytes, and whose content is the XLD reading of the text, or
/// an empty record when the ripper is unknown.
pub open spec fn spec_response(raw: Seq<u8>) -> Option<CambiaResponseV> {
    let text = spec_decode(raw).0;
    let enc = spec_decode(raw).1;
    if text.len() >= 0x10000000 || spec_unparsable(text) {
        Option::None
    } else {
        Option::Some(
            CambiaResponseV {
                id: sha256_of(standard_iv_state(), raw),
                parsed: if spec_is_xld(text) {
                    spec_parse_combined(text, enc)
                } else {
                    ParsedLogCombinedV { parsed_logs: Seq::empty(), encoding: enc }
                },
            },
        )
    }
}

/// Parses one log file given as raw bytes.
pub fn parse_log_bytes(raw: &Vec<u8>) -> (r: Result<CambiaResponse, CambiaError>)
    requires
        raw@.len() < 0x10000000,
    ensures
        match r {
            Result::Ok(resp) => spec_response(raw@) == Option::Some(resp@),
            Result::Err(_) => spec_response(raw@) is None,
        },
{
    proof {
        reveal_strlit("X Lossless Decoder version");
        assert("X Lossless Decoder version".is_ascii());
    }
    let (text, encoding) = decode_log_bytes(raw.as_slice());
    if text.len() >= 0x10000000 {
        return Result::Err(CambiaError::CouldNotParse);
    }
    let xld_mark = lit_bytes("X Lossless Decoder version");
    let is_xld = crate::textscan::seq_contains_b(text.as_slice(), xld_mark.as_slice());
    let hasher = Sha256Custom::new(crate::sha256::standard_iv());
    let id = hasher.digest(raw);
    proof {
        assert(hasher.state == standard_iv_state());
    }
    if is_xld {
        let parser = XldParser::new(DecodedLog { text, orig_encoding: encoding });
        let parsed = parser.parse_combined();
        return Result::Ok(CambiaResponse { id, parsed });
    }
    // not an XLD log: keep the record empty, but refuse inputs in which
    // nothing resembling a log stands
    let has_sig = match crate::signature::find_sig_x(text.as_slice(), 0) {
        Option::Some(_) => true,
        Option::None => false,
    };
    let toc_rows = crate::toc::toc_entries_x(text.as_slice());
    let has_trk = match crate::xld::find_track_header_x(text.as_slice(), 0) {
        Option::Some(_) => true,
        Option::None => false,
    };
    if !has_sig && toc_rows.len() == 0 && !has_trk {
        return Result::Err(CambiaError::CouldNotParse);
    }
    let parsed = ParsedLogCombined { parsed_logs: Vec::new(), encoding };
    let r = CambiaResponse { id, parsed };
    proof {
        assert(r@.parsed.parsed_logs =~= Seq::<crate::types::ParsedLogV>::empty());
        assert(spec_response(raw@) == Option::Some(r@));
    }
    Result::Ok(r)
}

/// The rippers this crate can read.
pub fn get_supported_rippers() -> (r: Vec<Vec<u8>>)
    ensures
        r@.len() == 3,
        r@[0]@ == ascii_bytes("EAC"@),
        r@[1]@ == ascii_bytes("XLD"@),
        r@[2]@ == ascii_bytes("whipper"@),
{
    proof {
        reveal_strlit("EAC");
        reveal_strlit("XLD");
        reveal_strlit("whipper");
        assert("EAC".is_ascii());
        assert("XLD".is_ascii());
        assert("whipper".is_ascii());
    }
    let mut r: Vec<Vec<u8>> = Vec::new();
    r.push(lit_bytes("EAC"));
    r.push(lit_bytes("XLD"));
    r.push(lit_bytes("whipper"));
    r
}

// ---------------------------------------------------------------------
// Laws
// ---------------------------------------------------------------------
/// A track number read from a header whose digits name a value between 1
/// and 99 lies between 1 and 99.
pub proof fn lemma_track_num_bounds(raw: Seq<u8>)
    requires
        match crate::track::find_track_num_from(raw, 0) {
            Option::Some(i) => {
                let ds = ws_end(raw, i + ascii_bytes("Track"@).len());
                1 <= digits_val(raw.subrange(ds, digits_end(raw, ds))) <= 99
            },
            Option::None => false,
        },
    ensures
        1 <= crate::track::spec_track_num(raw) <= 99,
{
}

/// The authenticity verdict is `Match` exactly when the log carries a
/// signature block and the signature computed over the stripped body is
/// the embedded one.
pub proof fn lemma_checksum_match_iff(log: Seq<u8>)
    ensures
        spec_checksum(log).integrity == Integrity::Match <==> (find_sig_from(log, 0) is Some
            && spec_embedded_sig(log) == xld_signature_of(strip_sigs(log))),
{
    lemma_signature_nonempty(strip_sigs(log));
}

/// The signature string is a function of the exact bytes of the stripped
/// body: two logs whose signature-stripped bodies are byte-identical get
/// the same signature string.
pub proof fn lemma_signature_of_stripped_body(l1: Seq<u8>, l2: Seq<u8>)
    requires
        strip_sigs(l1) == strip_sigs(l2),
    ensures
        xld_signature_of(strip_sigs(l1)) == xld_signature_of(strip_sigs(l2)),
{
}

/// Parsing is deterministic: two responses for the same raw bytes carry
/// the same content.
pub proof fn lemma_parse_deterministic(raw: Seq<u8>, a: CambiaResponse, b: CambiaResponse)
    requires
        spec_response(raw) == Option::Some(a@),
        spec_response(raw) == Option::Some(b@),
    ensures
        a@ == b@,
{
}

/// A disabled AccurateRip unit is always the only unit of its track.
pub proof fn lemma_ar_disabled_only(s: Seq<u8>)
    ensures
        crate::ar::units_disabled_only(crate::ar::spec_ar_info(s)),
{
    if let Option::Some(i) = crate::ar::find_ar_block_from(s, 0) {
        let r = crate::ar::ar_region(s, i);
        crate::ar::lemma_units_not_disabled(r, 0, crate::ar::spec_table(r));
    }
}

/// Every track block yields at least one AccurateRip unit, provided that
/// a block which announces AccurateRip also carries a readable signature
/// line; and a disabled unit is always the only unit.
pub proof fn lemma_ar_info_units(s: Seq<u8>)
    requires
        match crate::ar::find_ar_block_from(s, 0) {
            Option::Some(i) => crate::ar::find_sign_from(crate::ar::ar_region(s, i), 0) is Some,
            Option::None => true,
        },
    ensures
        crate::ar::spec_ar_info(s).len() >= 1,
        forall|i: int|
            0 <= i < crate::ar::spec_ar_info(s).len() && (#[trigger] crate::ar::spec_ar_info(
                s,
            )[i]).status == AccurateRipStatus::Disabled ==> crate::ar::spec_ar_info(s).len() == 1,
{
    match crate::ar::find_ar_block_from(s, 0) {
        Option::None => {},
        Option::Some(i) => {
            let r = crate::ar::ar_region(s, i);
            let t = crate::ar::spec_table(r);
            crate::ar::lemma_units_not_disabled(r, 0, t);
            assert(crate::ar::units_from(r, 0, t).len() >= 1);
        },
    }
}

} // verus!
