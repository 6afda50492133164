//! The AccurateRip block of a track: signature lines, the optional
//! `Accurately ripped` summary with its confidence table, and the units
//! built from both.
use vstd::prelude::*;
use crate::textscan::{
    ascii_bytes, digits_end, digits_end_x, digits_val, digit_b, is_digit, lemma_digits_end,
    lemma_line_end, lemma_ws_end, line_end, line_end_x, lit_bytes, parse_digits_capped,
    parse_u32_default, parse_u32_default_x, parse_u8_default, parse_u8_default_x, seq_at,
    seq_at_b, ws_end, ws_end_x, copy_range,
};
use crate::track::{hex8_at, hex8_at_b};
use crate::types::{
    AccurateRipConfidence, AccurateRipConfidenceTotal, AccurateRipOffset, AccurateRipStatus,
    AccurateRipUnit, AccurateRipUnitV, spec_ar_status,
};

verus! {

// ---------------------------------------------------------------------
// Signature lines
// ---------------------------------------------------------------------
/// A versioned signature head (`AccurateRip vN signature`, single digit)
/// matches at `i`.
pub open spec fn sign_ver_at(r: Seq<u8>, i: int) -> bool {
    &&& seq_at(r, i, ascii_bytes("AccurateRip"@))
    &&& {
        let a = i + ascii_bytes("AccurateRip"@).len();
        &&& seq_at(r, a, ascii_bytes(" v"@))
        &&& a + 2 < r.len()
        &&& is_digit(r[a + 2])
        &&& seq_at(r, a + 3, ascii_bytes(" signature"@))
    }
}

/// An unversioned signature head matches at `i`.
pub open spec fn sign_plain_at(r: Seq<u8>, i: int) -> bool {
    &&& seq_at(r, i, ascii_bytes("AccurateRip"@))
    &&& seq_at(r, i + ascii_bytes("AccurateRip"@).len(), ascii_bytes(" signature"@))
}

/// The end of the head of a signature line at `i`.
pub open spec fn sign_head_end(r: Seq<u8>, i: int) -> int {
    if sign_ver_at(r, i) {
        i + ascii_bytes("AccurateRip"@).len() + 3 + ascii_bytes(" signature"@).len()
    } else {
        i + ascii_bytes("AccurateRip"@).len() + ascii_bytes(" signature"@).len()
    }
}

/// Where the eight signature digits of a line at `i` start.
pub open spec fn sign_v2(r: Seq<u8>, i: int) -> int {
    ws_end(r, ws_end(r, sign_head_end(r, i)) + 1)
}

/// A whole signature line matches at `i`.
pub open spec fn sign_at(r: Seq<u8>, i: int) -> bool {
    &&& (sign_ver_at(r, i) || sign_plain_at(r, i))
    &&& {
        let w = ws_end(r, sign_head_end(r, i));
        &&& w < r.len()
        &&& r[w] == 58
        &&& hex8_at(r, ws_end(r, w + 1))
    }
}

/// The line also carries an offset-corrected signature in parentheses.
pub open spec fn sign_corr_at(r: Seq<u8>, i: int) -> bool {
    let c = sign_v2(r, i) + 8;
    &&& seq_at(r, c, ascii_bytes(" ("@))
    &&& hex8_at(r, c + 2)
    &&& seq_at(r, c + 10, ascii_bytes(" w/correction)"@))
}

/// The position just past a signature line match at `i`.
pub open spec fn sign_end(r: Seq<u8>, i: int) -> int {
    if sign_corr_at(r, i) {
        sign_v2(r, i) + 18 + ascii_bytes(" w/correction)"@).len()
    } else {
        sign_v2(r, i) + 8
    }
}

/// The single version digit of a signature line, if the head names one.
pub open spec fn sign_version(r: Seq<u8>, i: int) -> Option<u8> {
    if sign_ver_at(r, i) {
        Option::Some((r[i + ascii_bytes("AccurateRip"@).len() + 2] - 48) as u8)
    } else {
        Option::None
    }
}

/// The first signature line at or after `p`.
pub open spec fn find_sign_from(r: Seq<u8>, p: int) -> Option<int>
    decreases r.len() - p,
{
    if !(0 <= p < r.len()) {
        Option::None
    } else if sign_at(r, p) {
        Option::Some(p)
    } else {
        find_sign_from(r, p + 1)
    }
}

/// What a found signature line satisfies.
pub proof fn lemma_find_sign_sound(r: Seq<u8>, p: int)
    ensures
        match find_sign_from(r, p) {
            Option::Some(j) => p <= j < r.len() && sign_at(r, j) && j < sign_end(r, j) <= r.len()
                && 0 <= sign_v2(r, j) && sign_v2(r, j) + 8 <= r.len(),
            Option::None => true,
        },
    decreases r.len() - p,
{
    if 0 <= p < r.len() {
        if sign_at(r, p) {
            lemma_ws_end(r, 0);
            let he = sign_head_end(r, p);
            assert(he >= p);
            lemma_ws_end(r, he);
            let w = ws_end(r, he);
            lemma_ws_end(r, w + 1);
            if sign_corr_at(r, p) {
                assert(sign_end(r, p) <= r.len());
            }
        } else {
            lemma_find_sign_sound(r, p + 1);
        }
    }
}

// ---------------------------------------------------------------------
// The summary line and its lists
// ---------------------------------------------------------------------
/// End of a `vN+vM+...` version list whose first digits start at `p`.
pub open spec fn vlist_end(r: Seq<u8>, p: int) -> int
    decreases r.len() - p,
    via vlist_end_decreases
{
    if !(0 <= p <= r.len()) {
        p
    } else {
        let d = digits_end(r, p);
        if d > p && seq_at(r, d, ascii_bytes("+v"@)) && digits_end(r, d + 2) > d + 2 {
            vlist_end(r, d + 2)
        } else {
            d
        }
    }
}

#[via_fn]
proof fn vlist_end_decreases(r: Seq<u8>, p: int) {
    if 0 <= p <= r.len() {
        lemma_digits_end(r, p);
    }
}

/// The version numbers of the list, in order, out-of-range entries read as
/// zero.
pub open spec fn vlist_vals(r: Seq<u8>, p: int) -> Seq<u8>
    decreases r.len() - p,
    via vlist_vals_decreases
{
    if !(0 <= p <= r.len()) {
        Seq::empty()
    } else {
        let d = digits_end(r, p);
        if d > p && seq_at(r, d, ascii_bytes("+v"@)) && digits_end(r, d + 2) > d + 2 {
            seq![parse_u8_default(r, p, d)] + vlist_vals(r, d + 2)
        } else {
            seq![parse_u8_default(r, p, d)]
        }
    }
}

#[via_fn]
proof fn vlist_vals_decreases(r: Seq<u8>, p: int) {
    if 0 <= p <= r.len() {
        lemma_digits_end(r, p);
    }
}

/// End of a `N+M+...` confidence list whose first digits start at `p`.
pub open spec fn cmlist_end(r: Seq<u8>, p: int) -> int
    decreases r.len() - p,
    via cmlist_end_decreases
{
    if !(0 <= p <= r.len()) {
        p
    } else {
        let d = digits_end(r, p);
        if d > p && d < r.len() && r[d] == 43 && digits_end(r, d + 1) > d + 1 {
            cmlist_end(r, d + 1)
        } else {
            d
        }
    }
}

#[via_fn]
proof fn cmlist_end_decreases(r: Seq<u8>, p: int) {
    if 0 <= p <= r.len() {
        lemma_digits_end(r, p);
    }
}

/// The confidence numbers of the list, in order, out-of-range entries read
/// as zero.
pub open spec fn cmlist_vals(r: Seq<u8>, p: int) -> Seq<u32>
    decreases r.len() - p,
    via cmlist_vals_decreases
{
    if !(0 <= p <= r.len()) {
        Seq::empty()
    } else {
        let d = digits_end(r, p);
        if d > p && d < r.len() && r[d] == 43 && digits_end(r, d + 1) > d + 1 {
            seq![parse_u32_default(r, p, d)] + cmlist_vals(r, d + 1)
        } else {
            seq![parse_u32_default(r, p, d)]
        }
    }
}

#[via_fn]
proof fn cmlist_vals_decreases(r: Seq<u8>, p: int) {
    if 0 <= p <= r.len() {
        lemma_digits_end(r, p);
    }
}

/// The parenthesised summary body opens at `q` with a version list.
pub open spec fn body_ver_ok(r: Seq<u8>, q: int) -> bool {
    &&& 0 <= q < r.len()
    &&& r[q] == 40
    &&& {
        ||| (seq_at(r, q + 1, ascii_bytes("AR"@)) && digits_end(r, q + 3) > q + 3)
        ||| (q + 1 < r.len() && r[q + 1] == 118 && digits_end(r, q + 2) > q + 2)
    }
}

/// The summary body uses the `ARn` single-entry form.
pub open spec fn body_ar_form(r: Seq<u8>, q: int) -> bool {
    seq_at(r, q + 1, ascii_bytes("AR"@)) && digits_end(r, q + 3) > q + 3
}

/// End of the version list of the body at `q`.
pub open spec fn body_vend(r: Seq<u8>, q: int) -> int {
    if body_ar_form(r, q) {
        digits_end(r, q + 3)
    } else {
        vlist_end(r, q + 2)
    }
}

/// The version numbers of the body at `q`.
pub open spec fn body_vvals(r: Seq<u8>, q: int) -> Seq<u8> {
    if body_ar_form(r, q) {
        seq![parse_u8_default(r, q + 3, digits_end(r, q + 3))]
    } else {
        vlist_vals(r, q + 2)
    }
}

/// Start of the confidence list of the body at `q`.
pub open spec fn body_cs(r: Seq<u8>, q: int) -> int {
    body_vend(r, q) + ascii_bytes(", confidence "@).len()
}

/// The confidence part of the body parses.
pub open spec fn body_conf_ok(r: Seq<u8>, q: int) -> bool {
    &&& seq_at(r, body_vend(r, q), ascii_bytes(", confidence "@))
    &&& digits_end(r, body_cs(r, q)) > body_cs(r, q)
}

/// End of the confidence list.
pub open spec fn body_cmend(r: Seq<u8>, q: int) -> int {
    cmlist_end(r, body_cs(r, q))
}

/// The body carries a `/total` part.
pub open spec fn body_has_ct(r: Seq<u8>, q: int) -> bool {
    let e = body_cmend(r, q);
    e < r.len() && r[e] == 47 && digits_end(r, e + 1) > e + 1
}

/// Position after the optional total.
pub open spec fn body_after_ct(r: Seq<u8>, q: int) -> int {
    if body_has_ct(r, q) {
        digits_end(r, body_cmend(r, q) + 1)
    } else {
        body_cmend(r, q)
    }
}

/// The body carries a `, offset N` part.
pub open spec fn body_has_off(r: Seq<u8>, q: int) -> bool {
    let a = body_after_ct(r, q);
    &&& seq_at(r, a, ascii_bytes(", offset "@))
    &&& {
        let os = a + ascii_bytes(", offset "@).len();
        ||| (os < r.len() && is_digit(r[os]))
        ||| (os + 1 < r.len() && r[os] == 45 && is_digit(r[os + 1]))
    }
}

/// The offset is written negative.
pub open spec fn body_off_neg(r: Seq<u8>, q: int) -> bool {
    let os = body_after_ct(r, q) + ascii_bytes(", offset "@).len();
    0 <= os < r.len() && r[os] == 45
}

/// Start of the offset digits.
pub open spec fn body_off_ds(r: Seq<u8>, q: int) -> int {
    let os = body_after_ct(r, q) + ascii_bytes(", offset "@).len();
    if body_off_neg(r, q) {
        os + 1
    } else {
        os
    }
}

/// Position after the optional offset.
pub open spec fn body_after_off(r: Seq<u8>, q: int) -> int {
    if body_has_off(r, q) {
        digits_end(r, body_off_ds(r, q))
    } else {
        body_after_ct(r, q)
    }
}

/// The whole summary body parses at `q` and closes with `)`.
pub open spec fn body_at(r: Seq<u8>, q: int) -> bool {
    &&& body_ver_ok(r, q)
    &&& body_conf_ok(r, q)
    &&& body_after_off(r, q) < r.len()
    &&& r[body_after_off(r, q)] == 41
}

/// The total of the body, `None` when absent or out of the 32-bit range.
pub open spec fn body_ct(r: Seq<u8>, q: int) -> Option<u32> {
    if body_has_ct(r, q) {
        let v = digits_val(r.subrange(body_cmend(r, q) + 1, body_after_ct(r, q)));
        if v <= 0xffff_ffff {
            Option::Some(v as u32)
        } else {
            Option::None
        }
    } else {
        Option::None
    }
}

/// The offset of the body: `Same` when absent, `Different` with its value
/// when present (valueless when out of the 32-bit signed range).
pub open spec fn body_offset(r: Seq<u8>, q: int) -> AccurateRipOffset {
    if body_has_off(r, q) {
        let v = digits_val(r.subrange(body_off_ds(r, q), body_after_off(r, q)));
        if body_off_neg(r, q) {
            if v <= 0x8000_0000 {
                AccurateRipOffset::Different(Option::Some((-(v as int)) as i32))
            } else {
                AccurateRipOffset::Different(Option::None)
            }
        } else {
            if v <= 0x7fff_ffff {
                AccurateRipOffset::Different(Option::Some(v as i32))
            } else {
                AccurateRipOffset::Different(Option::None)
            }
        }
    } else {
        AccurateRipOffset::Same
    }
}

/// The first position in `[lo, hi)` where a summary body parses.
pub open spec fn find_body_q(r: Seq<u8>, lo: int, hi: int) -> Option<int>
    decreases hi - lo,
{
    if lo >= hi {
        Option::None
    } else if body_at(r, lo) {
        Option::Some(lo)
    } else {
        find_body_q(r, lo + 1, hi)
    }
}

/// What a found body position satisfies.
pub proof fn lemma_find_body_sound(r: Seq<u8>, lo: int, hi: int)
    ensures
        match find_body_q(r, lo, hi) {
            Option::Some(q) => lo <= q < hi && body_at(r, q),
            Option::None => true,
        },
    decreases hi - lo,
{
    if lo < hi && !body_at(r, lo) {
        lemma_find_body_sound(r, lo + 1, hi);
    }
}

/// A summary line matches at `f`: the phrase, at least one character, and
/// a parsing body on the same line.
pub open spec fn found_at(r: Seq<u8>, f: int) -> bool {
    &&& seq_at(r, f, ascii_bytes("Accurately ripped"@))
    &&& {
        let fe = f + ascii_bytes("Accurately ripped"@).len();
        find_body_q(r, fe + 1, line_end(r, fe)) is Some
    }
}

/// The first summary line at or after `i`.
pub open spec fn find_found_from(r: Seq<u8>, i: int) -> Option<int>
    decreases r.len() - i,
{
    if !(0 <= i < r.len()) {
        Option::None
    } else if found_at(r, i) {
        Option::Some(i)
    } else {
        find_found_from(r, i + 1)
    }
}

/// The block carries a summary line.
pub open spec fn ar_found(r: Seq<u8>) -> bool {
    find_found_from(r, 0) is Some
}

// ---------------------------------------------------------------------
// The confidence table
// ---------------------------------------------------------------------
/// The first index holding key `k`, searching from `i`.
pub open spec fn tbl_idx_from(t: Seq<(u8, AccurateRipConfidence)>, k: u8, i: int) -> Option<int>
    decreases t.len() - i,
{
    if !(0 <= i < t.len()) {
        Option::None
    } else if t[i].0 == k {
        Option::Some(i)
    } else {
        tbl_idx_from(t, k, i + 1)
    }
}

/// Sets `k` to `c` in the association list, overwriting an existing entry.
pub open spec fn tbl_set(
    t: Seq<(u8, AccurateRipConfidence)>,
    k: u8,
    c: AccurateRipConfidence,
) -> Seq<(u8, AccurateRipConfidence)> {
    match tbl_idx_from(t, k, 0) {
        Option::Some(i) => t.update(i, (k, c)),
        Option::None => t.push((k, c)),
    }
}

/// The entry under `k`, if any.
pub open spec fn tbl_get(t: Seq<(u8, AccurateRipConfidence)>, k: u8) -> Option<
    AccurateRipConfidence,
> {
    match tbl_idx_from(t, k, 0) {
        Option::Some(i) => Option::Some(t[i].1),
        Option::None => Option::None,
    }
}

/// The list without the entry under `k`.
pub open spec fn tbl_del(t: Seq<(u8, AccurateRipConfidence)>, k: u8) -> Seq<
    (u8, AccurateRipConfidence),
> {
    match tbl_idx_from(t, k, 0) {
        Option::Some(i) => t.remove(i),
        Option::None => t,
    }
}

/// The confidence entry for one matching count, under the summary's total
/// and offset.
pub open spec fn conf_of(m: u32, ct: Option<u32>, off: AccurateRipOffset) -> AccurateRipConfidence {
    AccurateRipConfidence {
        matching: Option::Some(m),
        total: match ct {
            Option::Some(n) => Option::Some(AccurateRipConfidenceTotal::All(n)),
            Option::None => Option::None,
        },
        offset: off,
    }
}

/// The table built by pairing version and confidence lists from `i` on.
pub open spec fn tbl_build_from(
    vs: Seq<u8>,
    ms: Seq<u32>,
    ct: Option<u32>,
    off: AccurateRipOffset,
    i: int,
    acc: Seq<(u8, AccurateRipConfidence)>,
) -> Seq<(u8, AccurateRipConfidence)>
    decreases vs.len() + ms.len() - i,
{
    if i < 0 || i >= vs.len() || i >= ms.len() {
        acc
    } else {
        tbl_build_from(vs, ms, ct, off, i + 1, tbl_set(acc, vs[i], conf_of(ms[i], ct, off)))
    }
}

/// The confidence table of a block: empty without a summary line.
pub open spec fn spec_table(r: Seq<u8>) -> Seq<(u8, AccurateRipConfidence)> {
    match find_found_from(r, 0) {
        Option::None => Seq::empty(),
        Option::Some(f) => {
            let fe = f + ascii_bytes("Accurately ripped"@).len();
            let q = find_body_q(r, fe + 1, line_end(r, fe)).unwrap();
            tbl_build_from(
                body_vvals(r, q),
                cmlist_vals(r, body_cs(r, q)),
                body_ct(r, q),
                body_offset(r, q),
                0,
                Seq::empty(),
            )
        },
    }
}

// ---------------------------------------------------------------------
// Units
// ---------------------------------------------------------------------
/// The unit emitted when a track has no AccurateRip block.
pub open spec fn disabled_unit_v() -> AccurateRipUnitV {
    AccurateRipUnitV {
        status: AccurateRipStatus::Disabled,
        version: Option::None,
        sign: Seq::empty(),
        offset_sign: Seq::empty(),
        confidence: Option::None,
    }
}

/// The units of the signature lines from `p` on, popping confidences from
/// the table `t` as the lines claim them.  An unversioned line inherits
/// the table's key when the table holds exactly one entry.
pub open spec fn units_from(
    r: Seq<u8>,
    p: int,
    t: Seq<(u8, AccurateRipConfidence)>,
) -> Seq<AccurateRipUnitV>
    decreases r.len() - p,
    via units_from_decreases
{
    match find_sign_from(r, p) {
        Option::None => Seq::empty(),
        Option::Some(j) => {
            let v0 = sign_version(r, j);
            let ver = if v0 is None && ar_found(r) && t.len() == 1 {
                Option::Some(t[0].0)
            } else {
                v0
            };
            let key = match ver {
                Option::Some(k) => k,
                Option::None => 0,
            };
            let conf = tbl_get(t, key);
            let v2 = sign_v2(r, j);
            let sign = r.subrange(v2, v2 + 8);
            let offs = if sign_corr_at(r, j) {
                r.subrange(v2 + 10, v2 + 18)
            } else if ar_found(r) {
                sign
            } else {
                Seq::<u8>::empty()
            };
            seq![
                AccurateRipUnitV {
                    status: spec_ar_status(conf),
                    version: ver,
                    sign: sign,
                    offset_sign: offs,
                    confidence: conf,
                },
            ] + units_from(r, sign_end(r, j), tbl_del(t, key))
        },
    }
}

#[via_fn]
proof fn units_from_decreases(r: Seq<u8>, p: int, t: Seq<(u8, AccurateRipConfidence)>) {
    lemma_find_sign_sound(r, p);
}

/// A disabled unit, if any, is the only unit of its list.
pub open spec fn units_disabled_only(u: Seq<AccurateRipUnitV>) -> bool {
    forall|i: int|
        0 <= i < u.len() && (#[trigger] u[i]).status == AccurateRipStatus::Disabled ==> u.len()
            == 1
}

/// No unit built from a signature line is disabled.
pub proof fn lemma_units_not_disabled(r: Seq<u8>, p: int, t: Seq<(u8, AccurateRipConfidence)>)
    ensures
        forall|i: int|
            0 <= i < units_from(r, p, t).len() ==> (#[trigger] units_from(r, p, t)[i]).status
                != AccurateRipStatus::Disabled,
    decreases r.len() - p,
{
    lemma_find_sign_sound(r, p);
    if let Option::Some(j) = find_sign_from(r, p) {
        let v0 = sign_version(r, j);
        let ver = if v0 is None && ar_found(r) && t.len() == 1 {
            Option::Some(t[0].0)
        } else {
            v0
        };
        let key = match ver {
            Option::Some(k) => k,
            Option::None => 0,
        };
        lemma_units_not_disabled(r, sign_end(r, j), tbl_del(t, key));
    }
}

// ---------------------------------------------------------------------
// Locating the block
// ---------------------------------------------------------------------
/// A block head (version digits unrestricted) matches at `i`.
pub open spec fn blk_ver_at(s: Seq<u8>, i: int) -> bool {
    &&& seq_at(s, i, ascii_bytes("AccurateRip"@))
    &&& {
        let a = i + ascii_bytes("AccurateRip"@).len();
        &&& seq_at(s, a, ascii_bytes(" v"@))
        &&& digits_end(s, a + 2) > a + 2
        &&& seq_at(s, digits_end(s, a + 2), ascii_bytes(" signature"@))
    }
}

/// A block head matches at `i`, with or without a version.
pub open spec fn blk_head_at(s: Seq<u8>, i: int) -> bool {
    ||| blk_ver_at(s, i)
    ||| (seq_at(s, i, ascii_bytes("AccurateRip"@)) && seq_at(
        s,
        i + ascii_bytes("AccurateRip"@).len(),
        ascii_bytes(" signature"@),
    ))
}

/// The end of a block head at `i`.
pub open spec fn blk_head_end(s: Seq<u8>, i: int) -> int {
    if blk_ver_at(s, i) {
        digits_end(s, i + ascii_bytes("AccurateRip"@).len() + 2) + ascii_bytes(" signature"@).len()
    } else {
        i + ascii_bytes("AccurateRip"@).len() + ascii_bytes(" signature"@).len()
    }
}

/// The first `Statistics` word at or after `p`.
pub open spec fn find_stat_from(s: Seq<u8>, p: int) -> Option<int>
    decreases s.len() - p,
{
    if !(0 <= p < s.len()) {
        Option::None
    } else if seq_at(s, p, ascii_bytes("Statistics"@)) {
        Option::Some(p)
    } else {
        find_stat_from(s, p + 1)
    }
}

/// What a found `Statistics` word satisfies.
pub proof fn lemma_find_stat_sound(s: Seq<u8>, p: int)
    ensures
        match find_stat_from(s, p) {
            Option::Some(q) => p <= q < s.len(),
            Option::None => true,
        },
    decreases s.len() - p,
{
    if 0 <= p < s.len() && !seq_at(s, p, ascii_bytes("Statistics"@)) {
        lemma_find_stat_sound(s, p + 1);
    }
}

/// The last `Statistics` word at or after `p`.
pub open spec fn last_stat_from(s: Seq<u8>, p: int) -> Option<int>
    decreases s.len() - p,
    via last_stat_from_decreases
{
    match find_stat_from(s, p) {
        Option::None => Option::None,
        Option::Some(q) => match last_stat_from(s, q + 1) {
            Option::Some(q2) => Option::Some(q2),
            Option::None => Option::Some(q),
        },
    }
}

#[via_fn]
proof fn last_stat_from_decreases(s: Seq<u8>, p: int) {
    lemma_find_stat_sound(s, p);
}

/// What the last `Statistics` word satisfies.
pub proof fn lemma_last_stat_sound(s: Seq<u8>, p: int)
    ensures
        match last_stat_from(s, p) {
            Option::Some(q) => p <= q < s.len(),
            Option::None => true,
        },
    decreases s.len() - p,
{
    lemma_find_stat_sound(s, p);
    if let Option::Some(q) = find_stat_from(s, p) {
        lemma_last_stat_sound(s, q + 1);
    }
}

/// An AccurateRip block starts at `i`: a head, and a `Statistics` word
/// after at least one further character.
pub open spec fn ar_block_at(s: Seq<u8>, i: int) -> bool {
    &&& blk_head_at(s, i)
    &&& last_stat_from(s, blk_head_end(s, i) + 1) is Some
}

/// The first AccurateRip block at or after `i`.
pub open spec fn find_ar_block_from(s: Seq<u8>, i: int) -> Option<int>
    decreases s.len() - i,
{
    if !(0 <= i < s.len()) {
        Option::None
    } else if ar_block_at(s, i) {
        Option::Some(i)
    } else {
        find_ar_block_from(s, i + 1)
    }
}

/// The text of the block starting at `i`: from its head up to the last
/// `Statistics` word.
pub open spec fn ar_region(s: Seq<u8>, i: int) -> Seq<u8> {
    s.subrange(i, last_stat_from(s, blk_head_end(s, i) + 1).unwrap())
}

/// The AccurateRip units of a track block: those of its signature lines,
/// or a single disabled unit when it has no block.
pub open spec fn spec_ar_info(s: Seq<u8>) -> Seq<AccurateRipUnitV> {
    match find_ar_block_from(s, 0) {
        Option::None => seq![disabled_unit_v()],
        Option::Some(i) => {
            let r = ar_region(s, i);
            units_from(r, 0, spec_table(r))
        },
    }
}

/// The ghost forms of a vector of units.
pub open spec fn units_view(u: Seq<AccurateRipUnit>) -> Seq<AccurateRipUnitV> {
    Seq::new(u.len(), |i: int| u[i]@)
}

// ---------------------------------------------------------------------
// Exec: signature lines
// ---------------------------------------------------------------------
/// Exec probe of a signature line at `i`: its version digit, digit start,
/// correction flag and end.
fn sign_probe(r: &[u8], i: usize) -> (res: Option<(Option<u8>, usize, bool, usize)>)
    requires
        i < r@.len(),
    ensures
        match res {
            Option::Some((ver, v2, corr, end)) => {
                &&& sign_at(r@, i as int)
                &&& ver == sign_version(r@, i as int)
                &&& v2 == sign_v2(r@, i as int)
                &&& corr == sign_corr_at(r@, i as int)
                &&& end == sign_end(r@, i as int)
                &&& v2 + 8 <= r@.len()
                &&& (i as int) < (end as int) <= r@.len()
                &&& (corr ==> v2 + 18 <= r@.len())
            },
            Option::None => !sign_at(r@, i as int),
        },
{
    let ar_l = lit_ar();
    let v_l = lit_sp_v();
    let sig_l = lit_sig();
    let n = r.len();
    if !seq_at_b(r, i, ar_l.as_slice()) {
        return Option::None;
    }
    assert(i + ar_l@.len() <= n);
    let a = i + ar_l.len();
    let mut ver: Option<u8> = Option::None;
    let mut he: usize = 0;
    if seq_at_b(r, a, v_l.as_slice()) && n - a > 2 && digit_b(r[a + 2]) && seq_at_b(
        r,
        a + 3,
        sig_l.as_slice(),
    ) {
        ver = Option::Some(r[a + 2] - 48);
        assert(a + 3 + sig_l@.len() <= n);
        he = a + 3 + sig_l.len();
        proof {
            assert(sign_ver_at(r@, i as int));
        }
    } else if seq_at_b(r, a, sig_l.as_slice()) {
        assert(a + sig_l@.len() <= n);
        he = a + sig_l.len();
        proof {
            assert(!sign_ver_at(r@, i as int) && sign_plain_at(r@, i as int));
        }
    } else {
        proof {
            assert(!sign_ver_at(r@, i as int) && !sign_plain_at(r@, i as int));
        }
        return Option::None;
    }
    proof {
        assert(he == sign_head_end(r@, i as int));
    }
    let w = ws_end_x(r, he);
    if !(w < n && r[w] == 58) {
        return Option::None;
    }
    let v2 = ws_end_x(r, w + 1);
    if !hex8_at_b(r, v2) {
        return Option::None;
    }
    let corr_open = lit_sp_paren();
    let corr_close = lit_correction();
    let corr = seq_at_b(r, v2 + 8, corr_open.as_slice()) && hex8_at_b(r, v2 + 10) && seq_at_b(
        r,
        v2 + 18,
        corr_close.as_slice(),
    );
    let end: usize = if corr {
        proof {
            assert(v2 + 18 + corr_close@.len() <= n);
        }
        v2 + 18 + corr_close.len()
    } else {
        v2 + 8
    };
    proof {
        lemma_ws_end(r@, he as int);
        lemma_ws_end(r@, w + 1);
        assert(v2 >= i);
    }
    Option::Some((ver, v2, corr, end))
}

fn lit_ar() -> (l: Vec<u8>)
    ensures
        l@ == ascii_bytes("AccurateRip"@),
        l@.len() == 11,
{
    let lit = "AccurateRip";
    proof {
        reveal_strlit("AccurateRip");
        assert(lit.is_ascii());
    }
    lit_bytes(lit)
}

fn lit_sp_v() -> (l: Vec<u8>)
    ensures
        l@ == ascii_bytes(" v"@),
        l@.len() == 2,
{
    let lit = " v";
    proof {
        reveal_strlit(" v");
        assert(lit.is_ascii());
    }
    lit_bytes(lit)
}

fn lit_sig() -> (l: Vec<u8>)
    ensures
        l@ == ascii_bytes(" signature"@),
        l@.len() == 10,
{
    let lit = " signature";
    proof {
        reveal_strlit(" signature");
        assert(lit.is_ascii());
    }
    lit_bytes(lit)
}

fn lit_sp_paren() -> (l: Vec<u8>)
    ensures
        l@ == ascii_bytes(" ("@),
        l@.len() == 2,
{
    let lit = " (";
    proof {
        reveal_strlit(" (");
        assert(lit.is_ascii());
    }
    lit_bytes(lit)
}

fn lit_correction() -> (l: Vec<u8>)
    ensures
        l@ == ascii_bytes(" w/correction)"@),
        l@.len() == 14,
{
    let lit = " w/correction)";
    proof {
        reveal_strlit(" w/correction)");
        assert(lit.is_ascii());
    }
    lit_bytes(lit)
}

fn lit_found() -> (l: Vec<u8>)
    ensures
        l@ == ascii_bytes("Accurately ripped"@),
        l@.len() == 17,
{
    let lit = "Accurately ripped";
    proof {
        reveal_strlit("Accurately ripped");
        assert(lit.is_ascii());
    }
    lit_bytes(lit)
}

fn lit_confidence() -> (l: Vec<u8>)
    ensures
        l@ == ascii_bytes(", confidence "@),
        l@.len() == 13,
{
    let lit = ", confidence ";
    proof {
        reveal_strlit(", confidence ");
        assert(lit.is_ascii());
    }
    lit_bytes(lit)
}

fn lit_offset() -> (l: Vec<u8>)
    ensures
        l@ == ascii_bytes(", offset "@),
        l@.len() == 9,
{
    let lit = ", offset ";
    proof {
        reveal_strlit(", offset ");
        assert(lit.is_ascii());
    }
    lit_bytes(lit)
}

fn lit_ar_form() -> (l: Vec<u8>)
    ensures
        l@ == ascii_bytes("AR"@),
        l@.len() == 2,
{
    let lit = "AR";
    proof {
        reveal_strlit("AR");
        assert(lit.is_ascii());
    }
    lit_bytes(lit)
}

fn lit_plus_v() -> (l: Vec<u8>)
    ensures
        l@ == ascii_bytes("+v"@),
        l@.len() == 2,
{
    let lit = "+v";
    proof {
        reveal_strlit("+v");
        assert(lit.is_ascii());
    }
    lit_bytes(lit)
}

fn lit_stat() -> (l: Vec<u8>)
    ensures
        l@ == ascii_bytes("Statistics"@),
        l@.len() == 10,
{
    let lit = "Statistics";
    proof {
        reveal_strlit("Statistics");
        assert(lit.is_ascii());
    }
    lit_bytes(lit)
}

// ---------------------------------------------------------------------
// Exec: summary line
// ---------------------------------------------------------------------
/// Exec scan to [`vlist_end`], collecting the version values.
fn vlist_collect(r: &[u8], p: usize, out: &mut Vec<u8>) -> (e: usize)
    requires
        p <= r@.len(),
    ensures
        e == vlist_end(r@, p as int),
        final(out)@ == old(out)@ + vlist_vals(r@, p as int),
        p <= e <= r@.len(),
{
    let ghost out0 = out@;
    let mut q: usize = p;
    loop
        invariant
            p <= q <= r@.len(),
            out0 == old(out)@,
            vlist_end(r@, p as int) == vlist_end(r@, q as int),
            out0 + vlist_vals(r@, p as int) == out@ + vlist_vals(r@, q as int),
        decreases r@.len() - q,
    {
        let n = r.len();
        let d = digits_end_x(r, q);
        proof {
            lemma_digits_end(r@, q as int);
        }
        let plus_v = lit_plus_v();
        let cont = d > q && seq_at_b(r, d, plus_v.as_slice()) && {
            let d2 = digits_end_x(r, d + 2);
            d2 > d + 2
        };
        let v = parse_u8_default_x(r, q, d);
        if cont {
            out.push(v);
            proof {
                assert(out@ + vlist_vals(r@, d + 2) =~= out0 + vlist_vals(r@, p as int));
            }
            q = d + 2;
        } else {
            out.push(v);
            proof {
                assert(vlist_vals(r@, q as int) =~= seq![parse_u8_default(r@, q as int, d as int)]);
                assert(out@ =~= out0 + vlist_vals(r@, p as int));
            }
            return d;
        }
    }
}

/// Exec scan to [`cmlist_end`], collecting the confidence values.
fn cmlist_collect(r: &[u8], p: usize, out: &mut Vec<u32>) -> (e: usize)
    requires
        p <= r@.len(),
    ensures
        e == cmlist_end(r@, p as int),
        final(out)@ == old(out)@ + cmlist_vals(r@, p as int),
        p <= e <= r@.len(),
{
    let ghost out0 = out@;
    let mut q: usize = p;
    loop
        invariant
            p <= q <= r@.len(),
            out0 == old(out)@,
            cmlist_end(r@, p as int) == cmlist_end(r@, q as int),
            out0 + cmlist_vals(r@, p as int) == out@ + cmlist_vals(r@, q as int),
        decreases r@.len() - q,
    {
        let d = digits_end_x(r, q);
        proof {
            lemma_digits_end(r@, q as int);
        }
        let n = r.len();
        let cont = d > q && d < n && r[d] == 43 && {
            let d2 = digits_end_x(r, d + 1);
            d2 > d + 1
        };
        let v = parse_u32_default_x(r, q, d);
        if cont {
            out.push(v);
            proof {
                assert(out@ + cmlist_vals(r@, d + 1) =~= out0 + cmlist_vals(r@, p as int));
            }
            q = d + 1;
        } else {
            out.push(v);
            proof {
                assert(cmlist_vals(r@, q as int) =~= seq![
                    parse_u32_default(r@, q as int, d as int),
                ]);
                assert(out@ =~= out0 + cmlist_vals(r@, p as int));
            }
            return d;
        }
    }
}

/// Exec test of [`body_at`].
fn body_at_b(r: &[u8], q: usize) -> (res: bool)
    requires
        q < r@.len(),
    ensures
        res == body_at(r@, q as int),
{
    let n = r.len();
    if r[q] != 40 {
        return false;
    }
    let ar_f = lit_ar_form();
    let vend: usize;
    if seq_at_b(r, q + 1, ar_f.as_slice()) && {
        let d = digits_end_x(r, q + 3);
        d > q + 3
    } {
        vend = digits_end_x(r, q + 3);
        proof {
            assert(body_ar_form(r@, q as int));
        }
    } else if n - q > 1 && r[q + 1] == 118 && {
        let d = digits_end_x(r, q + 2);
        d > q + 2
    } {
        let mut scratch: Vec<u8> = Vec::new();
        vend = vlist_collect(r, q + 2, &mut scratch);
        proof {
            assert(!body_ar_form(r@, q as int));
        }
    } else {
        proof {
            assert(!body_ver_ok(r@, q as int));
        }
        return false;
    }
    proof {
        assert(body_ver_ok(r@, q as int));
        assert(vend == body_vend(r@, q as int));
    }
    let conf_l = lit_confidence();
    if !seq_at_b(r, vend, conf_l.as_slice()) {
        return false;
    }
    assert(vend + conf_l@.len() <= n);
    let cs = vend + conf_l.len();
    let d0 = digits_end_x(r, cs);
    if !(d0 > cs) {
        return false;
    }
    let mut scratch2: Vec<u32> = Vec::new();
    let cmend = cmlist_collect(r, cs, &mut scratch2);
    let after_ct: usize;
    if cmend < n && r[cmend] == 47 && {
        let d = digits_end_x(r, cmend + 1);
        d > cmend + 1
    } {
        after_ct = digits_end_x(r, cmend + 1);
        proof {
            assert(body_has_ct(r@, q as int));
        }
    } else {
        after_ct = cmend;
        proof {
            assert(!body_has_ct(r@, q as int));
        }
    }
    proof {
        assert(after_ct == body_after_ct(r@, q as int));
    }
    let off_l = lit_offset();
    let mut after_off: usize = after_ct;
    if seq_at_b(r, after_ct, off_l.as_slice()) {
        assert(after_ct + off_l@.len() <= n);
        let os = after_ct + off_l.len();
        if os < n && digit_b(r[os]) {
            after_off = digits_end_x(r, os);
            proof {
                assert(body_has_off(r@, q as int) && !body_off_neg(r@, q as int));
            }
        } else if n - os > 1 && r[os] == 45 && digit_b(r[os + 1]) {
            after_off = digits_end_x(r, os + 1);
            proof {
                assert(body_has_off(r@, q as int) && body_off_neg(r@, q as int));
            }
        } else {
            proof {
                assert(!body_has_off(r@, q as int));
            }
        }
    } else {
        proof {
            assert(!body_has_off(r@, q as int));
        }
    }
    proof {
        assert(after_off == body_after_off(r@, q as int));
    }
    after_off < n && r[after_off] == 41
}

/// Exec search for the first summary line; `None` when the block carries
/// none.
fn find_found_x(r: &[u8]) -> (res: Option<usize>)
    ensures
        match res {
            Option::Some(f) => find_found_from(r@, 0) == Option::Some(f as int),
            Option::None => find_found_from(r@, 0) is None,
        },
{
    let fl = lit_found();
    let mut i: usize = 0;
    while i < r.len()
        invariant
            i <= r@.len(),
            fl@ == ascii_bytes("Accurately ripped"@),
            find_found_from(r@, 0) == find_found_from(r@, i as int),
        decreases r@.len() - i,
    {
        if seq_at_b(r, i, fl.as_slice()) {
            let n = r.len();
            assert(i + fl@.len() <= n);
            let fe = i + fl.len();
            let le = line_end_x(r, fe);
            // scan the line for a parsing body
            let mut got: bool = false;
            if fe < le {
                let mut q: usize = fe + 1;
                proof {
                    assert(find_body_q(r@, fe + 1, le as int) == find_body_q(
                        r@,
                        q as int,
                        le as int,
                    ));
                }
                while q < le && !got
                    invariant
                        fe + 1 <= q <= le <= r@.len(),
                        got ==> (q < le && body_at(r@, q as int) && find_body_q(
                            r@,
                            fe + 1,
                            le as int,
                        ) == Option::Some(q as int)),
                        !got ==> find_body_q(r@, fe + 1, le as int) == find_body_q(
                            r@,
                            q as int,
                            le as int,
                        ),
                    decreases le - q + (if got {
                        0int
                    } else {
                        1int
                    }),
                {
                    if body_at_b(r, q) {
                        got = true;
                    } else {
                        q += 1;
                    }
                }
                if got {
                    proof {
                        assert(found_at(r@, i as int));
                    }
                    return Option::Some(i);
                }
                proof {
                    assert(find_body_q(r@, fe + 1, le as int) is None);
                    assert(!found_at(r@, i as int));
                }
            } else {
                proof {
                    assert(find_body_q(r@, fe + 1, le as int) is None);
                    assert(!found_at(r@, i as int));
                }
            }
        } else {
            proof {
                assert(!found_at(r@, i as int));
            }
        }
        i += 1;
    }
    Option::None
}

/// Exec construction of the confidence table of a block.
fn table_x(r: &[u8]) -> (t: Vec<(u8, AccurateRipConfidence)>)
    ensures
        t@ == spec_table(r@),
{
    let fl = lit_found();
    let found = find_found_x(r);
    let f = match found {
        Option::Some(f) => f,
        Option::None => {
            let t: Vec<(u8, AccurateRipConfidence)> = Vec::new();
            proof {
                assert(t@ =~= spec_table(r@));
            }
            return t;
        },
    };
    proof {
        lemma_find_found_sound(r@, 0);
    }
    let n = r.len();
    assert(f + fl@.len() <= n);
    let fe = f + fl.len();
    let le = line_end_x(r, fe);
    // the summary line parses, so the body scan finds a position
    proof {
        assert(find_body_q(r@, fe + 1, le as int) is Some);
        lemma_find_body_sound(r@, fe + 1, le as int);
    }
    let mut q: usize = fe + 1;
    proof {
        assert(find_body_q(r@, fe + 1, le as int) == find_body_q(r@, q as int, le as int));
    }
    while !(q < le && body_at_b(r, q))
        invariant
            fe + 1 <= q <= le <= r@.len(),
            find_body_q(r@, fe + 1, le as int) is Some,
            find_body_q(r@, fe + 1, le as int) == find_body_q(r@, q as int, le as int),
        decreases le - q,
    {
        proof {
            if q >= le {
                assert(find_body_q(r@, q as int, le as int) is None);
            }
            assert(q < le);
        }
        q += 1;
    }
    proof {
        assert(body_at(r@, q as int));
        assert(find_body_q(r@, fe + 1, le as int) == Option::Some(q as int));
    }
    // parse the body values
    let ar_f = lit_ar_form();
    let mut vvals: Vec<u8> = Vec::new();
    let vend: usize;
    if seq_at_b(r, q + 1, ar_f.as_slice()) && {
        let d = digits_end_x(r, q + 3);
        d > q + 3
    } {
        let d = digits_end_x(r, q + 3);
        proof {
            lemma_digits_end(r@, q + 3);
        }
        vvals.push(parse_u8_default_x(r, q + 3, d));
        vend = d;
        proof {
            assert(vvals@ =~= body_vvals(r@, q as int));
        }
    } else {
        proof {
            assert(!body_ar_form(r@, q as int));
            assert(body_ver_ok(r@, q as int));
            assert(q + 2 <= n);
        }
        vend = vlist_collect(r, q + 2, &mut vvals);
        proof {
            assert(vvals@ =~= body_vvals(r@, q as int));
        }
    }
    let conf_l = lit_confidence();
    assert(vend + conf_l@.len() <= n);
    let cs = vend + conf_l.len();
    let mut cmvals: Vec<u32> = Vec::new();
    let cmend = cmlist_collect(r, cs, &mut cmvals);
    let mut ct: Option<u32> = Option::None;
    if cmend < n && r[cmend] == 47 && {
        let d = digits_end_x(r, cmend + 1);
        d > cmend + 1
    } {
        let d = digits_end_x(r, cmend + 1);
        proof {
            lemma_digits_end(r@, cmend + 1);
            assert(body_has_ct(r@, q as int));
            assert(d == body_after_ct(r@, q as int));
        }
        ct = match parse_digits_capped(r, cmend + 1, d, 0xffff_ffff) {
            Option::Some(v) => Option::Some(v as u32),
            Option::None => Option::None,
        };
        proof {
            assert(ct == body_ct(r@, q as int));
        }
    } else {
        proof {
            assert(!body_has_ct(r@, q as int));
        }
    }
    let after_ct: usize = if cmend < n && r[cmend] == 47 && {
        let d = digits_end_x(r, cmend + 1);
        d > cmend + 1
    } {
        digits_end_x(r, cmend + 1)
    } else {
        cmend
    };
    proof {
        assert(after_ct == body_after_ct(r@, q as int));
    }
    let off_l = lit_offset();
    let mut off: AccurateRipOffset = AccurateRipOffset::Same;
    if seq_at_b(r, after_ct, off_l.as_slice()) {
        assert(after_ct + off_l@.len() <= n);
        let os = after_ct + off_l.len();
        if os < n && digit_b(r[os]) {
            let d = digits_end_x(r, os);
            proof {
                lemma_digits_end(r@, os as int);
                assert(body_has_off(r@, q as int) && !body_off_neg(r@, q as int));
                assert(d == body_after_off(r@, q as int));
            }
            off = match parse_digits_capped(r, os, d, 0x7fff_ffff) {
                Option::Some(v) => AccurateRipOffset::Different(Option::Some(v as i32)),
                Option::None => AccurateRipOffset::Different(Option::None),
            };
        } else if n - os > 1 && r[os] == 45 && digit_b(r[os + 1]) {
            let d = digits_end_x(r, os + 1);
            proof {
                lemma_digits_end(r@, os + 1);
                assert(body_has_off(r@, q as int) && body_off_neg(r@, q as int));
                assert(d == body_after_off(r@, q as int));
            }
            off = match parse_digits_capped(r, os + 1, d, 0x8000_0000) {
                Option::Some(v) => AccurateRipOffset::Different(
                    Option::Some((-(v as i64)) as i32),
                ),
                Option::None => AccurateRipOffset::Different(Option::None),
            };
        } else {
            proof {
                assert(!body_has_off(r@, q as int));
            }
        }
    } else {
        proof {
            assert(!body_has_off(r@, q as int));
        }
    }
    proof {
        assert(off == body_offset(r@, q as int));
    }
    // build the table
    let mut t: Vec<(u8, AccurateRipConfidence)> = Vec::new();
    let m = if vvals.len() < cmvals.len() {
        vvals.len()
    } else {
        cmvals.len()
    };
    let mut i: usize = 0;
    while i < m
        invariant
            i <= m,
            m == if vvals@.len() < cmvals@.len() {
                vvals@.len() as int
            } else {
                cmvals@.len() as int
            },
            spec_table(r@) == tbl_build_from(vvals@, cmvals@, ct, off, i as int, t@),
        decreases m - i,
    {
        let c = AccurateRipConfidence {
            matching: Option::Some(cmvals[i]),
            total: match ct {
                Option::Some(ctn) => Option::Some(AccurateRipConfidenceTotal::All(ctn)),
                Option::None => Option::None,
            },
            offset: off,
        };
        proof {
            assert(c == conf_of(cmvals@[i as int], ct, off));
        }
        tbl_set_x(&mut t, vvals[i], c);
        i += 1;
    }
    t
}

/// What a found summary line satisfies.
pub proof fn lemma_find_found_sound(r: Seq<u8>, i: int)
    ensures
        match find_found_from(r, i) {
            Option::Some(f) => i <= f < r.len() && found_at(r, f),
            Option::None => true,
        },
    decreases r.len() - i,
{
    if 0 <= i < r.len() && !found_at(r, i) {
        lemma_find_found_sound(r, i + 1);
    }
}

// ---------------------------------------------------------------------
// Exec: the table
// ---------------------------------------------------------------------
/// Exec lookup of the first index under `k`.
fn tbl_idx_x(t: &Vec<(u8, AccurateRipConfidence)>, k: u8) -> (res: Option<usize>)
    ensures
        match res {
            Option::Some(i) => tbl_idx_from(t@, k, 0) == Option::Some(i as int) && i < t@.len(),
            Option::None => tbl_idx_from(t@, k, 0) is None,
        },
{
    let mut i: usize = 0;
    while i < t.len()
        invariant
            i <= t@.len(),
            tbl_idx_from(t@, k, 0) == tbl_idx_from(t@, k, i as int),
        decreases t@.len() - i,
    {
        if t[i].0 == k {
            return Option::Some(i);
        }
        i += 1;
    }
    Option::None
}

/// Exec form of [`tbl_set`].
fn tbl_set_x(t: &mut Vec<(u8, AccurateRipConfidence)>, k: u8, c: AccurateRipConfidence)
    ensures
        final(t)@ == tbl_set(old(t)@, k, c),
{
    match tbl_idx_x(t, k) {
        Option::Some(i) => {
            t.set(i, (k, c));
        },
        Option::None => {
            t.push((k, c));
        },
    }
}

/// Exec form of [`tbl_get`].
fn tbl_get_x(t: &Vec<(u8, AccurateRipConfidence)>, k: u8) -> (res: Option<AccurateRipConfidence>)
    ensures
        res == tbl_get(t@, k),
{
    match tbl_idx_x(t, k) {
        Option::Some(i) => Option::Some(t[i].1),
        Option::None => Option::None,
    }
}

/// Exec form of [`tbl_del`].
fn tbl_del_x(t: &mut Vec<(u8, AccurateRipConfidence)>, k: u8)
    ensures
        final(t)@ == tbl_del(old(t)@, k),
{
    match tbl_idx_x(t, k) {
        Option::Some(i) => {
            t.remove(i);
        },
        Option::None => {},
    }
}

// ---------------------------------------------------------------------
// Exec: the block and its units
// ---------------------------------------------------------------------
/// Exec test of [`blk_head_at`]; returns the head end on a match.
fn blk_head_b(s: &[u8], i: usize) -> (res: Option<usize>)
    requires
        i < s@.len(),
    ensures
        match res {
            Option::Some(he) => blk_head_at(s@, i as int) && he == blk_head_end(s@, i as int)
                && i <= he <= s@.len(),
            Option::None => !blk_head_at(s@, i as int),
        },
{
    let ar_l = lit_ar();
    let v_l = lit_sp_v();
    let sig_l = lit_sig();
    let n = s.len();
    if !seq_at_b(s, i, ar_l.as_slice()) {
        return Option::None;
    }
    assert(i + ar_l@.len() <= n);
    let a = i + ar_l.len();
    if seq_at_b(s, a, v_l.as_slice()) && {
        let d = digits_end_x(s, a + 2);
        d > a + 2 && seq_at_b(s, d, sig_l.as_slice())
    } {
        let d = digits_end_x(s, a + 2);
        proof {
            assert(blk_ver_at(s@, i as int));
        }
        assert(d + sig_l@.len() <= n);
        return Option::Some(d + sig_l.len());
    }
    if seq_at_b(s, a, sig_l.as_slice()) {
        proof {
            assert(!blk_ver_at(s@, i as int));
        }
        assert(a + sig_l@.len() <= n);
        return Option::Some(a + sig_l.len());
    }
    Option::None
}

/// Exec search for the last `Statistics` word at or after `p`.
fn last_stat_x(s: &[u8], p: usize) -> (res: Option<usize>)
    requires
        p <= s@.len(),
    ensures
        match res {
            Option::Some(q) => last_stat_from(s@, p as int) == Option::Some(q as int) && p <= q
                <= s@.len(),
            Option::None => last_stat_from(s@, p as int) is None,
        },
{
    let st_l = lit_stat();
    let mut q: usize = p;
    let mut cur: Option<usize> = Option::None;
    while q < s.len()
        invariant
            p <= q <= s@.len(),
            st_l@ == ascii_bytes("Statistics"@),
            match cur {
                Option::Some(l) => p <= l && (l as int) <= s@.len(),
                Option::None => true,
            },
            last_stat_from(s@, p as int) == (match find_stat_from(s@, q as int) {
                Option::Some(_) => last_stat_from(s@, q as int),
                Option::None => match cur {
                    Option::Some(l) => Option::Some(l as int),
                    Option::None => Option::<int>::None,
                },
            }),
        decreases s@.len() - q,
    {
        if seq_at_b(s, q, st_l.as_slice()) {
            proof {
                assert(find_stat_from(s@, q as int) == Option::Some(q as int));
            }
            cur = Option::Some(q);
        } else {
            proof {
                assert(find_stat_from(s@, q as int) == find_stat_from(s@, q + 1));
            }
        }
        q += 1;
    }
    proof {
        assert(find_stat_from(s@, q as int) is None);
    }
    match cur {
        Option::Some(l) => Option::Some(l),
        Option::None => Option::None,
    }
}

/// The AccurateRip units of a track block, as the log states them: one per
/// signature line, or a single disabled unit when the block is absent.
pub fn extract_ar_info_x(s: &[u8]) -> (res: Vec<AccurateRipUnit>)
    ensures
        units_view(res@) == spec_ar_info(s@),
{
    // locate the block
    let mut i: usize = 0;
    let mut blk: Option<usize> = Option::None;
    let mut stat: usize = 0;
    while i < s.len() && blk.is_none()
        invariant
            i <= s@.len(),
            match blk {
                Option::Some(b) => {
                    &&& find_ar_block_from(s@, 0) == Option::Some(b as int)
                    &&& (b as int) < s@.len()
                    &&& last_stat_from(s@, blk_head_end(s@, b as int) + 1) == Option::Some(
                        stat as int,
                    )
                    &&& b <= stat <= s@.len()
                },
                Option::None => find_ar_block_from(s@, 0) == find_ar_block_from(s@, i as int),
            },
        decreases s@.len() - i + (match blk {
            Option::None => 1int,
            Option::Some(_) => 0int,
        }),
    {
        match blk_head_b(s, i) {
            Option::Some(he) => {
                if he < s.len() {
                    match last_stat_x(s, he + 1) {
                        Option::Some(q) => {
                            proof {
                                assert(ar_block_at(s@, i as int));
                                lemma_last_stat_sound(s@, he + 1);
                            }
                            blk = Option::Some(i);
                            stat = q;
                        },
                        Option::None => {
                            proof {
                                assert(!ar_block_at(s@, i as int));
                            }
                            i += 1;
                        },
                    }
                } else {
                    proof {
                        assert(find_stat_from(s@, he + 1) is None);
                        assert(last_stat_from(s@, he + 1) is None);
                        assert(!ar_block_at(s@, i as int));
                    }
                    i += 1;
                }
            },
            Option::None => {
                proof {
                    assert(!ar_block_at(s@, i as int));
                }
                i += 1;
            },
        }
    }
    let b = match blk {
        Option::Some(b) => b,
        Option::None => {
            proof {
                assert(find_ar_block_from(s@, 0) is None);
            }
            let mut res: Vec<AccurateRipUnit> = Vec::new();
            res.push(AccurateRipUnit::new_disabled());
            proof {
                assert(units_view(res@) =~= spec_ar_info(s@));
            }
            return res;
        },
    };
    let region = copy_range(s, b, stat);
    proof {
        assert(region@ == ar_region(s@, b as int));
    }
    let found = match find_found_x(region.as_slice()) {
        Option::Some(_) => true,
        Option::None => false,
    };
    proof {
        assert(found == ar_found(region@));
    }
    let mut tbl = table_x(region.as_slice());
    let ghost tbl0 = tbl@;
    let mut res: Vec<AccurateRipUnit> = Vec::new();
    let mut p: usize = 0;
    proof {
        assert(units_view(res@) + units_from(region@, 0, tbl0) =~= units_from(region@, 0, tbl0));
    }
    loop
        invariant
            p <= region@.len(),
            found == ar_found(region@),
            find_ar_block_from(s@, 0) == Option::Some(b as int),
            region@ == ar_region(s@, b as int),
            units_from(region@, 0, spec_table(region@)) == units_view(res@) + units_from(
                region@,
                p as int,
                tbl@,
            ),
        decreases region@.len() - p,
    {
        if p >= region.len() {
            proof {
                assert(find_sign_from(region@, p as int) is None);
                assert(units_view(res@) =~= units_from(region@, 0, spec_table(region@)));
                assert(units_view(res@) =~= spec_ar_info(s@));
            }
            return res;
        }
        match sign_probe(region.as_slice(), p) {
            Option::Some((v0, v2, corr, end)) => {
                proof {
                    assert(find_sign_from(region@, p as int) == Option::Some(p as int));
                }
                let ver: Option<u8> = match v0 {
                    Option::None => {
                        if found && tbl.len() == 1 {
                            Option::Some(tbl[0].0)
                        } else {
                            Option::None
                        }
                    },
                    Option::Some(d) => Option::Some(d),
                };
                let key: u8 = match ver {
                    Option::Some(k) => k,
                    Option::None => 0,
                };
                let conf = tbl_get_x(&tbl, key);
                let sign = copy_range(region.as_slice(), v2, v2 + 8);
                let offs: Vec<u8> = if corr {
                    copy_range(region.as_slice(), v2 + 10, v2 + 18)
                } else if found {
                    let mut c: Vec<u8> = Vec::new();
                    let mut z: usize = 0;
                    while z < sign.len()
                        invariant
                            z <= sign@.len(),
                            c@ == sign@.take(z as int),
                        decreases sign@.len() - z,
                    {
                        c.push(sign[z]);
                        proof {
                            assert(c@ =~= sign@.take(z + 1));
                        }
                        z += 1;
                    }
                    proof {
                        assert(c@ =~= sign@);
                    }
                    c
                } else {
                    Vec::new()
                };
                let ghost res_pre = res@;
                let ghost tbl_pre = tbl@;
                let unit = AccurateRipUnit::new_xld(ver, sign, offs, conf);
                res.push(unit);
                tbl_del_x(&mut tbl, key);
                proof {
                    assert(units_from(region@, p as int, tbl_pre) == seq![res@.last()@]
                        + units_from(region@, end as int, tbl_del(tbl_pre, key)));
                    assert(units_view(res@) =~= units_view(res_pre) + seq![res@.last()@]);
                    assert(units_view(res@) + units_from(region@, end as int, tbl@)
                        =~= units_from(region@, 0, spec_table(region@)));
                }
                p = end;
            },
            Option::None => {
                proof {
                    assert(find_sign_from(region@, p as int) == find_sign_from(region@, p + 1));
                }
                p += 1;
            },
        }
    }
}

} // verus!
