//! The labeled-line shapes of the log grammar: a field label, optional
//! spaces, a colon and a space, then the value, which runs to the end of
//! the line.
use vstd::prelude::*;
use crate::textscan::{
    ascii_bytes, blank_end, blank_end_x, digit_b, digits_end, digits_end_x, digits_val, is_digit,
    lemma_digits_end, line_end, line_end_x, lit_bytes, parse_digits_capped, seq_at, seq_at_b, trim,
    trim_range, copy_range,
};
use crate::types::Quartet;

verus! {

/// A labeled line matches at `i`: the label, any spaces, `": "`, and a
/// non-empty rest of line.
pub open spec fn labeled_at(s: Seq<u8>, label: Seq<u8>, i: int) -> bool {
    &&& seq_at(s, i, label)
    &&& {
        let j = blank_end(s, i + label.len());
        &&& j + 2 < s.len()
        &&& s[j] == 58
        &&& s[j + 1] == 32
        &&& s[j + 2] != 10
    }
}

/// Where the value of a labeled line matching at `i` starts.
pub open spec fn labeled_val_start(s: Seq<u8>, label: Seq<u8>, i: int) -> int {
    blank_end(s, i + label.len()) + 2
}

/// The first position at or after `i` where a labeled line matches.
pub open spec fn find_labeled_from(s: Seq<u8>, label: Seq<u8>, i: int) -> Option<int>
    decreases s.len() - i,
{
    if !(0 <= i < s.len()) {
        Option::None
    } else if labeled_at(s, label, i) {
        Option::Some(i)
    } else {
        find_labeled_from(s, label, i + 1)
    }
}

/// The first match of a labeled line in `s`.
pub open spec fn find_labeled(s: Seq<u8>, label: Seq<u8>) -> Option<int> {
    find_labeled_from(s, label, 0)
}

/// The untrimmed value of the first labeled line, if one matches.
pub open spec fn labeled_value(s: Seq<u8>, label: Seq<u8>) -> Option<Seq<u8>> {
    match find_labeled(s, label) {
        Option::Some(i) => {
            let vs = labeled_val_start(s, label, i);
            Option::Some(s.subrange(vs, line_end(s, vs)))
        },
        Option::None => Option::None,
    }
}

/// The trimmed value of the first labeled line, if one matches.
pub open spec fn labeled_value_trim(s: Seq<u8>, label: Seq<u8>) -> Option<Seq<u8>> {
    match labeled_value(s, label) {
        Option::Some(v) => Option::Some(trim(v)),
        Option::None => Option::None,
    }
}

/// Exec test of [`labeled_at`].
pub fn labeled_at_b(s: &[u8], label: &[u8], i: usize) -> (r: bool)
    requires
        i < s@.len(),
    ensures
        r == labeled_at(s@, label@, i as int),
{
    if !seq_at_b(s, i, label) {
        return false;
    }
    let n = s.len();
    assert(i + label@.len() <= n);
    let j = blank_end_x(s, i + label.len());
    j < n && n - j > 2 && s[j] == 58 && s[j + 1] == 32 && s[j + 2] != 10
}

/// Exec search for the first labeled line; returns the value bounds.
pub fn find_labeled_x(s: &[u8], label: &[u8]) -> (r: Option<(usize, usize)>)
    ensures
        match r {
            Option::Some((a, b)) => {
                &&& find_labeled(s@, label@) is Some
                &&& a == labeled_val_start(s@, label@, find_labeled(s@, label@).unwrap())
                &&& b == line_end(s@, a as int)
                &&& a <= b <= s@.len()
            },
            Option::None => find_labeled(s@, label@) is None,
        },
{
    let mut i: usize = 0;
    while i < s.len()
        invariant
            i <= s@.len(),
            find_labeled_from(s@, label@, 0) == find_labeled_from(s@, label@, i as int),
        decreases s@.len() - i,
    {
        if labeled_at_b(s, label, i) {
            let vs = blank_end_x(s, i + label.len()) + 2;
            let ve = line_end_x(s, vs);
            return Option::Some((vs, ve));
        }
        i += 1;
    }
    Option::None
}

/// The trimmed value of the first labeled line, as a vector.
pub fn labeled_value_trim_x(s: &[u8], label: &[u8]) -> (r: Option<Vec<u8>>)
    ensures
        match r {
            Option::Some(v) => labeled_value_trim(s@, label@) == Option::Some(v@),
            Option::None => labeled_value_trim(s@, label@) is None,
        },
{
    match find_labeled_x(s, label) {
        Option::Some((a, b)) => Option::Some(trim_range(s, a, b)),
        Option::None => Option::None,
    }
}

/// The untrimmed value of the first labeled line, as a vector.
pub fn labeled_value_x(s: &[u8], label: &[u8]) -> (r: Option<Vec<u8>>)
    ensures
        match r {
            Option::Some(v) => labeled_value(s@, label@) == Option::Some(v@),
            Option::None => labeled_value(s@, label@) is None,
        },
{
    match find_labeled_x(s, label) {
        Option::Some((a, b)) => Option::Some(copy_range(s, a, b)),
        Option::None => Option::None,
    }
}

/// An on/off labeled line matches at `i`: the label, spaces, `": "`, then
/// one of the allowed words `OK`, `YES`, `NO` (`OK` only where the field
/// accepts it).
pub open spec fn labeled_bool_at(s: Seq<u8>, label: Seq<u8>, allow_ok: bool, i: int) -> bool {
    &&& seq_at(s, i, label)
    &&& {
        let j = blank_end(s, i + label.len());
        &&& j + 2 <= s.len()
        &&& s[j] == 58
        &&& s[j + 1] == 32
        &&& {
            ||| (allow_ok && seq_at(s, j + 2, ascii_bytes("OK"@)))
            ||| seq_at(s, j + 2, ascii_bytes("YES"@))
            ||| seq_at(s, j + 2, ascii_bytes("NO"@))
        }
    }
}

/// The first position at or after `i` where an on/off line matches.
pub open spec fn find_labeled_bool_from(
    s: Seq<u8>,
    label: Seq<u8>,
    allow_ok: bool,
    i: int,
) -> Option<int>
    decreases s.len() - i,
{
    if !(0 <= i < s.len()) {
        Option::None
    } else if labeled_bool_at(s, label, allow_ok, i) {
        Option::Some(i)
    } else {
        find_labeled_bool_from(s, label, allow_ok, i + 1)
    }
}

/// The [`Quartet`] reading of the first on/off line: `True` for `YES` or
/// `OK`, `False` for `NO`, `Unknown` when no line matches.
pub open spec fn spec_boolean_field(s: Seq<u8>, label: Seq<u8>, allow_ok: bool) -> Quartet {
    match find_labeled_bool_from(s, label, allow_ok, 0) {
        Option::None => Quartet::Unknown,
        Option::Some(i) => {
            let j = blank_end(s, i + label.len());
            if allow_ok && seq_at(s, j + 2, ascii_bytes("OK"@)) {
                Quartet::True
            } else if seq_at(s, j + 2, ascii_bytes("YES"@)) {
                Quartet::True
            } else {
                Quartet::False
            }
        },
    }
}

/// Exec evaluation of [`spec_boolean_field`].
pub fn boolean_field_x(s: &[u8], label: &[u8], allow_ok: bool) -> (r: Quartet)
    ensures
        r == spec_boolean_field(s@, label@, allow_ok),
{
    let ok_lit = lit_bytes_ok();
    let yes_lit = lit_bytes_yes();
    let no_lit = lit_bytes_no();
    let mut i: usize = 0;
    while i < s.len()
        invariant
            i <= s@.len(),
            ok_lit@ == ascii_bytes("OK"@),
            yes_lit@ == ascii_bytes("YES"@),
            no_lit@ == ascii_bytes("NO"@),
            find_labeled_bool_from(s@, label@, allow_ok, 0) == find_labeled_bool_from(
                s@,
                label@,
                allow_ok,
                i as int,
            ),
        decreases s@.len() - i,
    {
        if seq_at_b(s, i, label) {
            let n = s.len();
            assert(i + label@.len() <= n);
            let j = blank_end_x(s, i + label.len());
            if j < n && n - j >= 2 && s[j] == 58 && s[j + 1] == 32 {
                if allow_ok && seq_at_b(s, j + 2, ok_lit.as_slice()) {
                    return Quartet::True;
                }
                if seq_at_b(s, j + 2, yes_lit.as_slice()) {
                    return Quartet::True;
                }
                if seq_at_b(s, j + 2, no_lit.as_slice()) {
                    return Quartet::False;
                }
            }
        }
        proof {
            assert(!labeled_bool_at(s@, label@, allow_ok, i as int));
        }
        i += 1;
    }
    Quartet::Unknown
}

/// The byte form of the word `OK`.
fn lit_bytes_ok() -> (r: Vec<u8>)
    ensures
        r@ == ascii_bytes("OK"@),
{
    let lit = "OK";
    proof {
        reveal_strlit("OK");
        assert(lit.is_ascii());
    }
    lit_bytes(lit)
}

/// The byte form of the word `YES`.
fn lit_bytes_yes() -> (r: Vec<u8>)
    ensures
        r@ == ascii_bytes("YES"@),
{
    let lit = "YES";
    proof {
        reveal_strlit("YES");
        assert(lit.is_ascii());
    }
    lit_bytes(lit)
}

/// The byte form of the word `NO`.
fn lit_bytes_no() -> (r: Vec<u8>)
    ensures
        r@ == ascii_bytes("NO"@),
{
    let lit = "NO";
    proof {
        reveal_strlit("NO");
        assert(lit.is_ascii());
    }
    lit_bytes(lit)
}

/// A signed-number line matches at `i`: the label, spaces, `": "`, an
/// optional sign, and at least one digit.
pub open spec fn labeled_int_at(s: Seq<u8>, label: Seq<u8>, i: int) -> bool {
    &&& seq_at(s, i, label)
    &&& {
        let j = blank_end(s, i + label.len());
        &&& j + 2 < s.len()
        &&& s[j] == 58
        &&& s[j + 1] == 32
        &&& {
            ||| is_digit(s[j + 2])
            ||| ((s[j + 2] == 43 || s[j + 2] == 45) && j + 3 < s.len() && is_digit(s[j + 3]))
        }
    }
}

/// The first position at or after `i` where a signed-number line matches.
pub open spec fn find_labeled_int_from(s: Seq<u8>, label: Seq<u8>, i: int) -> Option<int>
    decreases s.len() - i,
{
    if !(0 <= i < s.len()) {
        Option::None
    } else if labeled_int_at(s, label, i) {
        Option::Some(i)
    } else {
        find_labeled_int_from(s, label, i + 1)
    }
}

/// The signed value of the first signed-number line: `None` when no line
/// matches or the number does not fit a 16-bit signed integer.
pub open spec fn spec_i16_field(s: Seq<u8>, label: Seq<u8>) -> Option<i16> {
    match find_labeled_int_from(s, label, 0) {
        Option::None => Option::None,
        Option::Some(i) => {
            let j = blank_end(s, i + label.len());
            let neg = s[j + 2] == 45;
            let ds = if s[j + 2] == 43 || s[j + 2] == 45 {
                j + 3
            } else {
                j + 2
            };
            let v = digits_val(s.subrange(ds, digits_end(s, ds)));
            if neg {
                if v <= 32768 {
                    Option::Some((-(v as int)) as i16)
                } else {
                    Option::None
                }
            } else {
                if v <= 32767 {
                    Option::Some(v as i16)
                } else {
                    Option::None
                }
            }
        },
    }
}

/// Exec evaluation of [`spec_i16_field`].
pub fn i16_field_x(s: &[u8], label: &[u8]) -> (r: Option<i16>)
    ensures
        r == spec_i16_field(s@, label@),
{
    let mut i: usize = 0;
    while i < s.len()
        invariant
            i <= s@.len(),
            find_labeled_int_from(s@, label@, 0) == find_labeled_int_from(s@, label@, i as int),
        decreases s@.len() - i,
    {
        let mut matched = false;
        if seq_at_b(s, i, label) {
            let n = s.len();
            assert(i + label@.len() <= n);
            let j = blank_end_x(s, i + label.len());
            if j < n && n - j > 2 && s[j] == 58 && s[j + 1] == 32 {
                let signed = s[j + 2] == 43 || s[j + 2] == 45;
                if digit_b(s[j + 2]) || (signed && n - j > 3 && digit_b(s[j + 3])) {
                    matched = true;
                    let neg = s[j + 2] == 45;
                    let ds = if signed {
                        j + 3
                    } else {
                        j + 2
                    };
                    let de = digits_end_x(s, ds);
                    proof {
                        lemma_digits_end(s@, ds as int);
                    }
                    let cap: u64 = if neg {
                        32768
                    } else {
                        32767
                    };
                    return match parse_digits_capped(s, ds, de, cap) {
                        Option::Some(v) => {
                            if neg {
                                Option::Some((-(v as i64)) as i16)
                            } else {
                                Option::Some(v as i16)
                            }
                        },
                        Option::None => Option::None,
                    };
                }
            }
        }
        proof {
            assert(!labeled_int_at(s@, label@, i as int));
        }
        i += 1;
    }
    Option::None
}

} // verus!
