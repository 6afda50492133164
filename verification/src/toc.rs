//! Times and the table-of-contents region: rows of the form
//! `track | start | length | start sector | end sector`.
use vstd::prelude::*;
use crate::textscan::{
    digits_end, digits_end_x, digits_val, digit_b, is_digit, is_ws, lemma_digits_end,
    lemma_ws_end, parse_digits_capped, ws_b, ws_end, ws_end_x,
};
use crate::types::{Time, TocEntry};

verus! {

/// A byte of the time class: a digit, `:` or `.`.
pub open spec fn is_time_char(b: u8) -> bool {
    is_digit(b) || b == 58 || b == 46
}

/// Exec mirror of [`is_time_char`].
pub fn time_char_b(b: u8) -> (r: bool)
    ensures
        r == is_time_char(b),
{
    digit_b(b) || b == 58 || b == 46
}

/// The end of the run of time-class bytes starting at `i`.
pub open spec fn time_chars_end(s: Seq<u8>, i: int) -> int
    decreases s.len() - i,
{
    if !(0 <= i < s.len()) {
        i
    } else if is_time_char(s[i]) {
        time_chars_end(s, i + 1)
    } else {
        i
    }
}

/// Bounds of the scan to [`time_chars_end`].
pub proof fn lemma_time_chars_end(s: Seq<u8>, i: int)
    requires
        0 <= i <= s.len(),
    ensures
        i <= time_chars_end(s, i) <= s.len(),
    decreases s.len() - i,
{
    if i < s.len() && is_time_char(s[i]) {
        lemma_time_chars_end(s, i + 1);
    }
}

/// Exec scan to [`time_chars_end`].
pub fn time_chars_end_x(s: &[u8], i: usize) -> (r: usize)
    requires
        i <= s@.len(),
    ensures
        r == time_chars_end(s@, i as int),
        i <= r <= s@.len(),
{
    let mut j: usize = i;
    loop
        invariant
            i <= j <= s@.len(),
            time_chars_end(s@, i as int) == time_chars_end(s@, j as int),
        decreases s@.len() - j,
    {
        if j == s.len() || !time_char_b(s[j]) {
            return j;
        }
        j += 1;
    }
}

/// Centi-frames from minute, second and centisecond component values, `0`
/// when a component is out of its 32-bit range.
pub open spec fn cf_from_mm_ss_cs(m: nat, s: nat, c: nat) -> u64 {
    if m > 0xffff_ffff || s > 0xffff_ffff || c > 0xffff_ffff {
        0
    } else {
        (((m * 60 + s) * 7500) + c * 75) as u64
    }
}

/// Centi-frames from minute, second and frame component values, `0` when a
/// component is out of its 32-bit range.
pub open spec fn cf_from_mm_ss_ff(m: nat, s: nat, f: nat) -> u64 {
    if m > 0xffff_ffff || s > 0xffff_ffff || f > 0xffff_ffff {
        0
    } else {
        (((m * 60 + s) * 7500) + f * 100) as u64
    }
}

/// The duration named by the time-class run `s[a..b)`.
///
/// The accepted shapes are `mm:ss` (whole seconds), `mm:ss.cs`
/// (centiseconds) and `mm:ss:ff` (frames); any other shape reads as zero.
pub open spec fn spec_toc_time(s: Seq<u8>, a: int, b: int) -> u64 {
    let e1 = digits_end(s, a);
    if !(a < e1 < b && s[e1] == 58) {
        0
    } else {
        let e2 = digits_end(s, e1 + 1);
        let m = digits_val(s.subrange(a, e1));
        let sec = digits_val(s.subrange(e1 + 1, e2));
        if e1 + 1 == e2 {
            0
        } else if e2 == b {
            cf_from_mm_ss_cs(m, sec, 0)
        } else if !(e2 < b) {
            0
        } else if s[e2] == 46 && digits_end(s, e2 + 1) == b && e2 + 1 < b {
            cf_from_mm_ss_cs(m, sec, digits_val(s.subrange(e2 + 1, b)))
        } else if s[e2] == 58 && digits_end(s, e2 + 1) == b && e2 + 1 < b {
            cf_from_mm_ss_ff(m, sec, digits_val(s.subrange(e2 + 1, b)))
        } else {
            0
        }
    }
}

/// Exec parse of a component digit run, capped to the 32-bit range.
fn component_val(s: &[u8], a: usize, b: usize) -> (r: Option<u64>)
    requires
        a <= b <= s@.len(),
        forall|j: int| a <= j < b ==> is_digit(s@[j]),
    ensures
        match r {
            Option::Some(v) => v == digits_val(s@.subrange(a as int, b as int)) && v
                <= 0xffff_ffff,
            Option::None => digits_val(s@.subrange(a as int, b as int)) > 0xffff_ffff,
        },
{
    parse_digits_capped(s, a, b, 0xffff_ffff)
}

/// Exec evaluation of [`spec_toc_time`] over `s[a..b)`.
pub fn toc_time_x(s: &[u8], a: usize, b: usize) -> (r: Time)
    requires
        a <= b <= s@.len(),
    ensures
        r.centiframes == spec_toc_time(s@, a as int, b as int),
{
    let e1 = digits_end_x(s, a);
    proof {
        lemma_digits_end(s@, a as int);
    }
    if !(a < e1 && e1 < b && s[e1] == 58) {
        return Time { centiframes: 0 };
    }
    let e2 = digits_end_x(s, e1 + 1);
    proof {
        lemma_digits_end(s@, e1 + 1);
    }
    if e1 + 1 == e2 {
        return Time { centiframes: 0 };
    }
    let m = component_val(s, a, e1);
    let sec = component_val(s, e1 + 1, e2);
    if e2 == b {
        match (m, sec) {
            (Option::Some(mv), Option::Some(sv)) => {
                return Time { centiframes: (mv * 60 + sv) * 7500 };
            },
            _ => {
                return Time { centiframes: 0 };
            },
        }
    }
    if !(e2 < b) {
        return Time { centiframes: 0 };
    }
    if (s[e2] == 46 || s[e2] == 58) && e2 + 1 < b {
        let e3 = digits_end_x(s, e2 + 1);
        proof {
            lemma_digits_end(s@, e2 + 1);
        }
        if e3 == b {
            let frac = component_val(s, e2 + 1, b);
            let unit: u64 = if s[e2] == 46 {
                75
            } else {
                100
            };
            match (m, sec, frac) {
                (Option::Some(mv), Option::Some(sv), Option::Some(fv)) => {
                    return Time { centiframes: (mv * 60 + sv) * 7500 + fv * unit };
                },
                _ => {
                    return Time { centiframes: 0 };
                },
            }
        }
    }
    Time { centiframes: 0 }
}

/// Start of the track-number column of a row at `i`.
pub open spec fn tc1s(s: Seq<u8>, i: int) -> int {
    ws_end(s, i)
}

/// End of the track-number column.
pub open spec fn tc1e(s: Seq<u8>, i: int) -> int {
    digits_end(s, tc1s(s, i))
}

/// The `|` after the track-number column.
pub open spec fn tp1(s: Seq<u8>, i: int) -> int {
    ws_end(s, tc1e(s, i))
}

/// Start of the start-time column.
pub open spec fn tc2s(s: Seq<u8>, i: int) -> int {
    ws_end(s, tp1(s, i) + 1)
}

/// End of the start-time column.
pub open spec fn tc2e(s: Seq<u8>, i: int) -> int {
    time_chars_end(s, tc2s(s, i))
}

/// The `|` after the start-time column.
pub open spec fn tp2(s: Seq<u8>, i: int) -> int {
    ws_end(s, tc2e(s, i))
}

/// Start of the length column.
pub open spec fn tc3s(s: Seq<u8>, i: int) -> int {
    ws_end(s, tp2(s, i) + 1)
}

/// End of the length column.
pub open spec fn tc3e(s: Seq<u8>, i: int) -> int {
    time_chars_end(s, tc3s(s, i))
}

/// The `|` after the length column.
pub open spec fn tp3(s: Seq<u8>, i: int) -> int {
    ws_end(s, tc3e(s, i))
}

/// Start of the start-sector column.
pub open spec fn tc4s(s: Seq<u8>, i: int) -> int {
    ws_end(s, tp3(s, i) + 1)
}

/// End of the start-sector column.
pub open spec fn tc4e(s: Seq<u8>, i: int) -> int {
    digits_end(s, tc4s(s, i))
}

/// The `|` after the start-sector column.
pub open spec fn tp4(s: Seq<u8>, i: int) -> int {
    ws_end(s, tc4e(s, i))
}

/// Start of the end-sector column.
pub open spec fn tc5s(s: Seq<u8>, i: int) -> int {
    ws_end(s, tp4(s, i) + 1)
}

/// End of the end-sector column, and of the whole row match.
pub open spec fn tc5e(s: Seq<u8>, i: int) -> int {
    digits_end(s, tc5s(s, i))
}

/// A TOC row matches at `i`: whitespace, the track number, and four more
/// `|`-separated columns (start time, length, start sector, end sector).
pub open spec fn toc_row_at(s: Seq<u8>, i: int) -> bool {
    &&& 0 <= i < s.len()
    &&& is_ws(s[i])
    &&& tc1e(s, i) > tc1s(s, i)
    &&& tp1(s, i) > tc1e(s, i)
    &&& tp1(s, i) < s.len() && s[tp1(s, i)] == 124
    &&& tc2s(s, i) > tp1(s, i) + 1
    &&& tc2e(s, i) > tc2s(s, i)
    &&& tp2(s, i) > tc2e(s, i)
    &&& tp2(s, i) < s.len() && s[tp2(s, i)] == 124
    &&& tc3s(s, i) > tp2(s, i) + 1
    &&& tc3e(s, i) > tc3s(s, i)
    &&& tp3(s, i) > tc3e(s, i)
    &&& tp3(s, i) < s.len() && s[tp3(s, i)] == 124
    &&& tc4s(s, i) > tp3(s, i) + 1
    &&& tc4e(s, i) > tc4s(s, i)
    &&& tp4(s, i) > tc4e(s, i)
    &&& tp4(s, i) < s.len() && s[tp4(s, i)] == 124
    &&& tc5s(s, i) > tp4(s, i) + 1
    &&& tc5e(s, i) > tc5s(s, i)
}

/// Position bounds of a matched row.
pub proof fn lemma_toc_row_bounds(s: Seq<u8>, i: int)
    requires
        toc_row_at(s, i),
    ensures
        i < tc5e(s, i) <= s.len(),
        i <= tc1s(s, i) < tc1e(s, i),
        tc2s(s, i) < tc2e(s, i) <= s.len(),
        tc3s(s, i) < tc3e(s, i) <= s.len(),
        tc4s(s, i) < tc4e(s, i) <= s.len(),
        tc5s(s, i) < tc5e(s, i) <= s.len(),
{
    lemma_ws_end(s, i);
    lemma_digits_end(s, tc1s(s, i));
    lemma_ws_end(s, tc1e(s, i));
    lemma_ws_end(s, tp1(s, i) + 1);
    lemma_time_chars_end(s, tc2s(s, i));
    lemma_ws_end(s, tc2e(s, i));
    lemma_ws_end(s, tp2(s, i) + 1);
    lemma_time_chars_end(s, tc3s(s, i));
    lemma_ws_end(s, tc3e(s, i));
    lemma_ws_end(s, tp3(s, i) + 1);
    lemma_digits_end(s, tc4s(s, i));
    lemma_ws_end(s, tc4e(s, i));
    lemma_ws_end(s, tp4(s, i) + 1);
    lemma_digits_end(s, tc5s(s, i));
}

/// The first TOC row at or after `i`.
pub open spec fn find_toc_row_from(s: Seq<u8>, i: int) -> Option<int>
    decreases s.len() - i,
{
    if !(0 <= i < s.len()) {
        Option::None
    } else if toc_row_at(s, i) {
        Option::Some(i)
    } else {
        find_toc_row_from(s, i + 1)
    }
}

/// What a found row satisfies.
pub proof fn lemma_find_toc_row_sound(s: Seq<u8>, i: int)
    ensures
        match find_toc_row_from(s, i) {
            Option::Some(j) => i <= j < s.len() && toc_row_at(s, j),
            Option::None => true,
        },
    decreases s.len() - i,
{
    if 0 <= i < s.len() && !toc_row_at(s, i) {
        lemma_find_toc_row_sound(s, i + 1);
    }
}

/// The row's numeric columns all fit their types: the track number in 8
/// bits, the sectors in 32 bits.  A row with an oversized number is passed
/// over.
pub open spec fn toc_row_fits(s: Seq<u8>, i: int) -> bool {
    &&& digits_val(s.subrange(tc1s(s, i), tc1e(s, i))) <= 255
    &&& digits_val(s.subrange(tc4s(s, i), tc4e(s, i))) <= 0xffff_ffff
    &&& digits_val(s.subrange(tc5s(s, i), tc5e(s, i))) <= 0xffff_ffff
}

/// The entry a row at `i` denotes.
pub open spec fn spec_toc_entry(s: Seq<u8>, i: int) -> TocEntry {
    TocEntry {
        track: digits_val(s.subrange(tc1s(s, i), tc1e(s, i))) as u8,
        start: Time { centiframes: spec_toc_time(s, tc2s(s, i), tc2e(s, i)) },
        length: Time { centiframes: spec_toc_time(s, tc3s(s, i), tc3e(s, i)) },
        start_sector: digits_val(s.subrange(tc4s(s, i), tc4e(s, i))) as u32,
        end_sector: digits_val(s.subrange(tc5s(s, i), tc5e(s, i))) as u32,
    }
}

/// All TOC entries from position `i` on, in order of appearance.
pub open spec fn toc_entries_from(s: Seq<u8>, i: int) -> Seq<TocEntry>
    decreases s.len() - i,
    via toc_entries_from_decreases
{
    if !(0 <= i <= s.len()) {
        Seq::empty()
    } else {
        match find_toc_row_from(s, i) {
            Option::None => Seq::empty(),
            Option::Some(j) => {
                if toc_row_fits(s, j) {
                    seq![spec_toc_entry(s, j)] + toc_entries_from(s, tc5e(s, j))
                } else {
                    toc_entries_from(s, tc5e(s, j))
                }
            },
        }
    }
}

#[via_fn]
proof fn toc_entries_from_decreases(s: Seq<u8>, i: int) {
    if 0 <= i <= s.len() {
        lemma_find_toc_row_sound(s, i);
        if let Option::Some(j) = find_toc_row_from(s, i) {
            lemma_toc_row_bounds(s, j);
        }
    }
}

/// Exec test of [`toc_row_at`]; on a match, the column bounds are the spec
/// positions.
fn toc_row_at_b(s: &[u8], i: usize) -> (r: bool)
    requires
        i < s@.len(),
    ensures
        r == toc_row_at(s@, i as int),
{
    if !ws_b(s[i]) {
        return false;
    }
    let c1s = ws_end_x(s, i);
    let c1e = digits_end_x(s, c1s);
    if !(c1e > c1s) {
        return false;
    }
    let p1 = ws_end_x(s, c1e);
    if !(p1 > c1e && p1 < s.len() && s[p1] == 124) {
        return false;
    }
    let c2s = ws_end_x(s, p1 + 1);
    let c2e = time_chars_end_x(s, c2s);
    if !(c2s > p1 + 1 && c2e > c2s) {
        return false;
    }
    let p2 = ws_end_x(s, c2e);
    if !(p2 > c2e && p2 < s.len() && s[p2] == 124) {
        return false;
    }
    let c3s = ws_end_x(s, p2 + 1);
    let c3e = time_chars_end_x(s, c3s);
    if !(c3s > p2 + 1 && c3e > c3s) {
        return false;
    }
    let p3 = ws_end_x(s, c3e);
    if !(p3 > c3e && p3 < s.len() && s[p3] == 124) {
        return false;
    }
    let c4s = ws_end_x(s, p3 + 1);
    let c4e = digits_end_x(s, c4s);
    if !(c4s > p3 + 1 && c4e > c4s) {
        return false;
    }
    let p4 = ws_end_x(s, c4e);
    if !(p4 > c4e && p4 < s.len() && s[p4] == 124) {
        return false;
    }
    let c5s = ws_end_x(s, p4 + 1);
    let c5e = digits_end_x(s, c5s);
    if !(c5s > p4 + 1 && c5e > c5s) {
        return false;
    }
    true
}

/// All TOC entries of the text, in order of appearance.
pub fn toc_entries_x(s: &[u8]) -> (r: Vec<TocEntry>)
    ensures
        r@ == toc_entries_from(s@, 0),
{
    let mut r: Vec<TocEntry> = Vec::new();
    let mut i: usize = 0;
    proof {
        assert(r@ + toc_entries_from(s@, 0) =~= toc_entries_from(s@, 0));
    }
    loop
        invariant
            i <= s@.len(),
            toc_entries_from(s@, 0) == r@ + toc_entries_from(s@, i as int),
        decreases s@.len() - i,
    {
        if i >= s.len() {
            proof {
                assert(r@ =~= toc_entries_from(s@, 0));
            }
            return r;
        }
        if toc_row_at_b(s, i) {
            proof {
                lemma_toc_row_bounds(s@, i as int);
                assert(find_toc_row_from(s@, i as int) == Option::Some(i as int));
            }
            let c1s = ws_end_x(s, i);
            let c1e = digits_end_x(s, c1s);
            let p1 = ws_end_x(s, c1e);
            let c2s = ws_end_x(s, p1 + 1);
            let c2e = time_chars_end_x(s, c2s);
            let p2 = ws_end_x(s, c2e);
            let c3s = ws_end_x(s, p2 + 1);
            let c3e = time_chars_end_x(s, c3s);
            let p3 = ws_end_x(s, c3e);
            let c4s = ws_end_x(s, p3 + 1);
            let c4e = digits_end_x(s, c4s);
            let p4 = ws_end_x(s, c4e);
            let c5s = ws_end_x(s, p4 + 1);
            let c5e = digits_end_x(s, c5s);
            proof {
                lemma_digits_end(s@, c1s as int);
                lemma_digits_end(s@, c4s as int);
                lemma_digits_end(s@, c5s as int);
            }
            let track = parse_digits_capped(s, c1s, c1e, 255);
            let ss = parse_digits_capped(s, c4s, c4e, 0xffff_ffff);
            let es = parse_digits_capped(s, c5s, c5e, 0xffff_ffff);
            match (track, ss, es) {
                (Option::Some(tv), Option::Some(sv), Option::Some(ev)) => {
                    let entry = TocEntry {
                        track: tv as u8,
                        start: toc_time_x(s, c2s, c2e),
                        length: toc_time_x(s, c3s, c3e),
                        start_sector: sv as u32,
                        end_sector: ev as u32,
                    };
                    r.push(entry);
                    proof {
                        assert(toc_row_fits(s@, i as int));
                        assert(r@.last() == spec_toc_entry(s@, i as int));
                        assert(r@ + toc_entries_from(s@, tc5e(s@, i as int)) =~= toc_entries_from(
                            s@,
                            0,
                        ));
                    }
                },
                _ => {
                    proof {
                        assert(!toc_row_fits(s@, i as int));
                    }
                },
            }
            i = c5e;
        } else {
            proof {
                assert(find_toc_row_from(s@, i as int) == find_toc_row_from(s@, i + 1));
            }
            i += 1;
        }
    }
}

} // verus!
