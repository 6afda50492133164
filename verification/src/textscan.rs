//! Byte-level text scanning: the primitives every field extractor is built
//! from, each exec function proved against a spec-level description of the
//! scan.
use vstd::prelude::*;
use vstd::string::StrSliceExecFns;

verus! {

broadcast use vstd::string::group_string_axioms;

/// The bytes of an ASCII character sequence, one byte per character.
pub open spec fn ascii_bytes(s: Seq<char>) -> Seq<u8> {
    Seq::new(s.len(), |i: int| s[i] as u8)
}

/// The bytes of an ASCII string slice, for bringing the grammar's literal
/// words into byte form.
pub fn lit_bytes(s: &str) -> (r: Vec<u8>)
    requires
        s.is_ascii(),
    ensures
        r@ == ascii_bytes(s@),
{
    let v = s.as_bytes_vec();
    proof {
        assert(v@ =~= ascii_bytes(s@));
    }
    v
}

/// The whitespace class of the log grammar: space, tab, and the ASCII
/// control characters line feed, vertical tab, form feed, carriage return.
pub open spec fn is_ws(b: u8) -> bool {
    b == 32 || (9 <= b && b <= 13)
}

/// An ASCII decimal digit.
pub open spec fn is_digit(b: u8) -> bool {
    48 <= b && b <= 57
}

/// An uppercase hexadecimal digit, as the logs print hashes.
pub open spec fn is_upper_hex(b: u8) -> bool {
    is_digit(b) || (65 <= b && b <= 70)
}

/// ASCII lower-casing of one byte.
pub open spec fn lower(b: u8) -> u8 {
    if 65 <= b && b <= 90 {
        (b + 32) as u8
    } else {
        b
    }
}

/// Exec mirror of [`is_ws`].
pub fn ws_b(b: u8) -> (r: bool)
    ensures
        r == is_ws(b),
{
    b == 32 || (9 <= b && b <= 13)
}

/// Exec mirror of [`is_digit`].
pub fn digit_b(b: u8) -> (r: bool)
    ensures
        r == is_digit(b),
{
    48 <= b && b <= 57
}

/// Exec mirror of [`is_upper_hex`].
pub fn upper_hex_b(b: u8) -> (r: bool)
    ensures
        r == is_upper_hex(b),
{
    (48 <= b && b <= 57) || (65 <= b && b <= 70)
}

/// Exec mirror of [`lower`].
pub fn lower_b(b: u8) -> (r: u8)
    ensures
        r == lower(b),
{
    if 65 <= b && b <= 90 {
        b + 32
    } else {
        b
    }
}

/// The literal `needle` occurs in `s` starting at position `i`.
pub open spec fn seq_at(s: Seq<u8>, i: int, needle: Seq<u8>) -> bool {
    &&& 0 <= i
    &&& i + needle.len() <= s.len()
    &&& forall|j: int| 0 <= j < needle.len() ==> s[i + j] == needle[j]
}

/// The literal `needle` (given lower-case) occurs at `i` up to ASCII case.
pub open spec fn ci_seq_at(s: Seq<u8>, i: int, needle: Seq<u8>) -> bool {
    &&& 0 <= i
    &&& i + needle.len() <= s.len()
    &&& forall|j: int| 0 <= j < needle.len() ==> lower(s[i + j]) == needle[j]
}

/// Exec test of [`seq_at`].
pub fn seq_at_b(s: &[u8], i: usize, needle: &[u8]) -> (r: bool)
    ensures
        r == seq_at(s@, i as int, needle@),
{
    if i > s.len() || needle.len() > s.len() - i {
        return false;
    }
    let mut j: usize = 0;
    while j < needle.len()
        invariant
            j <= needle.len(),
            i + needle.len() <= s.len(),
            forall|k: int| 0 <= k < j ==> s@[i + k] == needle@[k],
        decreases needle.len() - j,
    {
        if s[i + j] != needle[j] {
            return false;
        }
        j += 1;
    }
    true
}

/// Exec test of [`ci_seq_at`].
pub fn ci_seq_at_b(s: &[u8], i: usize, needle: &[u8]) -> (r: bool)
    ensures
        r == ci_seq_at(s@, i as int, needle@),
{
    if i > s.len() || needle.len() > s.len() - i {
        return false;
    }
    let mut j: usize = 0;
    while j < needle.len()
        invariant
            j <= needle.len(),
            i + needle.len() <= s.len(),
            forall|k: int| 0 <= k < j ==> lower(s@[i + k]) == needle@[k],
        decreases needle.len() - j,
    {
        if lower_b(s[i + j]) != needle[j] {
            return false;
        }
        j += 1;
    }
    true
}

/// The end of the line that position `i` lies in: the next line feed at or
/// after `i`, or the end of the text.
pub open spec fn line_end(s: Seq<u8>, i: int) -> int
    decreases s.len() - i,
{
    if !(0 <= i < s.len()) {
        i
    } else if s[i] == 10 {
        i
    } else {
        line_end(s, i + 1)
    }
}

/// Bounds and contents of the scan to [`line_end`].
pub proof fn lemma_line_end(s: Seq<u8>, i: int)
    requires
        0 <= i <= s.len(),
    ensures
        i <= line_end(s, i) <= s.len(),
        forall|j: int| i <= j < line_end(s, i) ==> s[j] != 10,
        line_end(s, i) < s.len() ==> s[line_end(s, i)] == 10,
    decreases s.len() - i,
{
    if i < s.len() && s[i] != 10 {
        lemma_line_end(s, i + 1);
    }
}

/// Exec scan to [`line_end`].
pub fn line_end_x(s: &[u8], i: usize) -> (r: usize)
    requires
        i <= s@.len(),
    ensures
        r == line_end(s@, i as int),
        i <= r <= s@.len(),
{
    let mut j: usize = i;
    loop
        invariant
            i <= j <= s@.len(),
            line_end(s@, i as int) == line_end(s@, j as int),
        decreases s@.len() - j,
    {
        if j == s.len() || s[j] == 10 {
            return j;
        }
        j += 1;
    }
}

/// The end of the whitespace run starting at `i`.
pub open spec fn ws_end(s: Seq<u8>, i: int) -> int
    decreases s.len() - i,
{
    if !(0 <= i < s.len()) {
        i
    } else if is_ws(s[i]) {
        ws_end(s, i + 1)
    } else {
        i
    }
}

/// Bounds and contents of the scan to [`ws_end`].
pub proof fn lemma_ws_end(s: Seq<u8>, i: int)
    requires
        0 <= i <= s.len(),
    ensures
        i <= ws_end(s, i) <= s.len(),
        forall|j: int| i <= j < ws_end(s, i) ==> is_ws(s[j]),
        ws_end(s, i) < s.len() ==> !is_ws(s[ws_end(s, i)]),
    decreases s.len() - i,
{
    if i < s.len() && is_ws(s[i]) {
        lemma_ws_end(s, i + 1);
    }
}

/// Exec scan to [`ws_end`].
pub fn ws_end_x(s: &[u8], i: usize) -> (r: usize)
    requires
        i <= s@.len(),
    ensures
        r == ws_end(s@, i as int),
        i <= r <= s@.len(),
{
    let mut j: usize = i;
    loop
        invariant
            i <= j <= s@.len(),
            ws_end(s@, i as int) == ws_end(s@, j as int),
        decreases s@.len() - j,
    {
        if j == s.len() || !ws_b(s[j]) {
            return j;
        }
        j += 1;
    }
}

/// The end of the run of plain spaces starting at `i`.
pub open spec fn blank_end(s: Seq<u8>, i: int) -> int
    decreases s.len() - i,
{
    if !(0 <= i < s.len()) {
        i
    } else if s[i] == 32 {
        blank_end(s, i + 1)
    } else {
        i
    }
}

/// Exec scan to [`blank_end`].
pub fn blank_end_x(s: &[u8], i: usize) -> (r: usize)
    requires
        i <= s@.len(),
    ensures
        r == blank_end(s@, i as int),
        i <= r <= s@.len(),
{
    let mut j: usize = i;
    loop
        invariant
            i <= j <= s@.len(),
            blank_end(s@, i as int) == blank_end(s@, j as int),
        decreases s@.len() - j,
    {
        if j == s.len() || s[j] != 32 {
            return j;
        }
        j += 1;
    }
}

/// The end of the run of decimal digits starting at `i`.
pub open spec fn digits_end(s: Seq<u8>, i: int) -> int
    decreases s.len() - i,
{
    if !(0 <= i < s.len()) {
        i
    } else if is_digit(s[i]) {
        digits_end(s, i + 1)
    } else {
        i
    }
}

/// Bounds and contents of the scan to [`digits_end`].
pub proof fn lemma_digits_end(s: Seq<u8>, i: int)
    requires
        0 <= i <= s.len(),
    ensures
        i <= digits_end(s, i) <= s.len(),
        forall|j: int| i <= j < digits_end(s, i) ==> is_digit(s[j]),
        digits_end(s, i) < s.len() ==> !is_digit(s[digits_end(s, i)]),
    decreases s.len() - i,
{
    if i < s.len() && is_digit(s[i]) {
        lemma_digits_end(s, i + 1);
    }
}

/// Exec scan to [`digits_end`].
pub fn digits_end_x(s: &[u8], i: usize) -> (r: usize)
    requires
        i <= s@.len(),
    ensures
        r == digits_end(s@, i as int),
        i <= r <= s@.len(),
{
    let mut j: usize = i;
    loop
        invariant
            i <= j <= s@.len(),
            digits_end(s@, i as int) == digits_end(s@, j as int),
        decreases s@.len() - j,
    {
        if j == s.len() || !digit_b(s[j]) {
            return j;
        }
        j += 1;
    }
}

/// The first occurrence of `needle` at or after `i`.
pub open spec fn find_seq_from(s: Seq<u8>, needle: Seq<u8>, i: int) -> Option<int>
    decreases s.len() - i,
{
    if !(0 <= i && i <= s.len()) {
        Option::None
    } else if seq_at(s, i, needle) {
        Option::Some(i)
    } else if i == s.len() {
        Option::None
    } else {
        find_seq_from(s, needle, i + 1)
    }
}

/// `needle` occurs somewhere in `s`.
pub open spec fn seq_contains(s: Seq<u8>, needle: Seq<u8>) -> bool {
    find_seq_from(s, needle, 0) is Some
}

/// Exec test of [`seq_contains`].
pub fn seq_contains_b(s: &[u8], needle: &[u8]) -> (r: bool)
    ensures
        r == seq_contains(s@, needle@),
{
    let mut i: usize = 0;
    loop
        invariant
            i <= s@.len(),
            find_seq_from(s@, needle@, 0) == find_seq_from(s@, needle@, i as int),
        decreases s@.len() - i,
    {
        if seq_at_b(s, i, needle) {
            return true;
        }
        if i == s.len() {
            return false;
        }
        i += 1;
    }
}

/// Byte-wise equality of two vectors.
pub fn bytes_eq(a: &Vec<u8>, b: &Vec<u8>) -> (r: bool)
    ensures
        r == (a@ =~= b@),
{
    if a.len() != b.len() {
        return false;
    }
    let mut j: usize = 0;
    while j < a.len()
        invariant
            j <= a@.len(),
            a@.len() == b@.len(),
            forall|k: int| 0 <= k < j ==> a@[k] == b@[k],
        decreases a.len() - j,
    {
        if a[j] != b[j] {
            return false;
        }
        j += 1;
    }
    true
}

/// A copy of `s[a..b]`.
pub fn copy_range(s: &[u8], a: usize, b: usize) -> (r: Vec<u8>)
    requires
        a <= b <= s@.len(),
    ensures
        r@ == s@.subrange(a as int, b as int),
{
    let mut r: Vec<u8> = Vec::new();
    let mut j: usize = a;
    while j < b
        invariant
            a <= j <= b <= s@.len(),
            r@ == s@.subrange(a as int, j as int),
        decreases b - j,
    {
        r.push(s[j]);
        proof {
            assert(r@ =~= s@.subrange(a as int, j + 1));
        }
        j += 1;
    }
    r
}

/// End of the trimmed form of `s`: the start of its trailing whitespace run,
/// scanning down from `j`.
pub open spec fn trim_end_from(s: Seq<u8>, j: int) -> int
    decreases j,
{
    if j <= 0 {
        0
    } else if is_ws(s[j - 1]) {
        trim_end_from(s, j - 1)
    } else {
        j
    }
}

/// Bounds of [`trim_end_from`].
pub proof fn lemma_trim_end_from(s: Seq<u8>, j: int)
    requires
        0 <= j <= s.len(),
    ensures
        0 <= trim_end_from(s, j) <= j,
    decreases j,
{
    if j > 0 && is_ws(s[j - 1]) {
        lemma_trim_end_from(s, j - 1);
    }
}

/// Trimming never lengthens.
pub proof fn lemma_trim_le(s: Seq<u8>)
    ensures
        trim(s).len() <= s.len(),
{
    lemma_ws_end(s, 0);
    lemma_trim_end_from(s, s.len() as int);
}

/// `s` with leading and trailing whitespace removed.
pub open spec fn trim(s: Seq<u8>) -> Seq<u8> {
    let a = ws_end(s, 0);
    let b = trim_end_from(s, s.len() as int);
    if a >= b {
        Seq::empty()
    } else {
        s.subrange(a, b)
    }
}

/// Exec computation of [`trim`] over a slice range: trims `s[a..b]`.
pub fn trim_range(s: &[u8], a: usize, b: usize) -> (r: Vec<u8>)
    requires
        a <= b <= s@.len(),
    ensures
        r@ == trim(s@.subrange(a as int, b as int)),
{
    let ghost sub = s@.subrange(a as int, b as int);
    // leading whitespace
    let mut lo: usize = a;
    while lo < b && ws_b(s[lo])
        invariant
            a <= lo <= b <= s@.len(),
            sub == s@.subrange(a as int, b as int),
            ws_end(sub, 0) == ws_end(sub, (lo - a) as int),
        decreases b - lo,
    {
        proof {
            assert(sub[(lo - a) as int] == s@[lo as int]);
        }
        lo += 1;
    }
    proof {
        assert(lo < b ==> sub[(lo - a) as int] == s@[lo as int]);
        assert(ws_end(sub, 0) == (lo - a) as int);
    }
    // trailing whitespace
    let mut hi: usize = b;
    while hi > a && ws_b(s[hi - 1])
        invariant
            a <= hi <= b <= s@.len(),
            sub == s@.subrange(a as int, b as int),
            trim_end_from(sub, sub.len() as int) == trim_end_from(sub, (hi - a) as int),
        decreases hi,
    {
        proof {
            assert(sub[(hi - a - 1) as int] == s@[hi - 1]);
        }
        hi -= 1;
    }
    proof {
        assert(hi > a ==> sub[(hi - a - 1) as int] == s@[hi - 1]);
        assert(trim_end_from(sub, sub.len() as int) == (hi - a) as int);
    }
    if lo >= hi {
        let r: Vec<u8> = Vec::new();
        proof {
            assert(r@ =~= trim(sub));
        }
        r
    } else {
        let r = copy_range(s, lo, hi);
        proof {
            assert(r@ =~= trim(sub));
        }
        r
    }
}

/// Value of a digit string, most significant first.
pub open spec fn digits_val(s: Seq<u8>) -> nat
    decreases s.len(),
{
    if s.len() == 0 {
        0
    } else {
        digits_val(s.drop_last()) * 10 + (s.last() - 48) as nat
    }
}

proof fn lemma_digits_val_take_mono(s: Seq<u8>, m: int)
    requires
        0 <= m <= s.len(),
    ensures
        digits_val(s.take(m)) <= digits_val(s),
    decreases s.len() - m,
{
    if m < s.len() {
        lemma_digits_val_take_mono(s, m + 1);
        assert(s.take(m + 1).drop_last() =~= s.take(m));
        assert(digits_val(s.take(m + 1)) == digits_val(s.take(m)) * 10 + (s.take(m + 1).last()
            - 48) as nat);
    } else {
        assert(s.take(m) =~= s);
    }
}

/// The value of the digit run `s[a..b]`, capped to `0` when it does not fit
/// in `u32`, mirroring a failed integer parse being replaced by the default.
pub open spec fn parse_u32_default(s: Seq<u8>, a: int, b: int) -> u32 {
    if digits_val(s.subrange(a, b)) > 0xffff_ffff {
        0
    } else {
        digits_val(s.subrange(a, b)) as u32
    }
}

/// Exec parse of the digit run `s[a..b]` as `u32`, `0` when it overflows.
pub fn parse_u32_default_x(s: &[u8], a: usize, b: usize) -> (r: u32)
    requires
        a <= b <= s@.len(),
        forall|j: int| a <= j < b ==> is_digit(s@[j]),
    ensures
        r == parse_u32_default(s@, a as int, b as int),
{
    let ghost d = s@.subrange(a as int, b as int);
    let mut acc: u64 = 0;
    let mut j: usize = a;
    while j < b
        invariant
            a <= j <= b <= s@.len(),
            d == s@.subrange(a as int, b as int),
            forall|k: int| a <= k < b ==> is_digit(s@[k]),
            acc == digits_val(d.take(j - a)),
            acc <= 0xffff_ffff,
        decreases b - j,
    {
        let dig = s[j];
        assert(is_digit(s@[j as int]));
        let next: u64 = acc * 10 + ((dig - 48) as u64);
        proof {
            assert(d.take(j - a + 1).drop_last() =~= d.take(j - a));
            assert(d.take(j - a + 1).last() == s@[j as int]);
            assert(digits_val(d.take(j - a + 1)) == next);
        }
        if next > 0xffff_ffff {
            proof {
                lemma_digits_val_take_mono(d, j - a + 1);
                assert(d.take(b - a) =~= d);
            }
            return 0;
        }
        acc = next;
        j += 1;
    }
    proof {
        assert(d.take(b - a) =~= d);
    }
    acc as u32
}

/// Exec parse of the digit run `s[a..b]`: its value when it is at most
/// `cap`, `None` when it exceeds `cap`.
pub fn parse_digits_capped(s: &[u8], a: usize, b: usize, cap: u64) -> (r: Option<u64>)
    requires
        a <= b <= s@.len(),
        forall|j: int| a <= j < b ==> is_digit(s@[j]),
        cap < 0x1000_0000_0000_0000,
    ensures
        match r {
            Option::Some(v) => v == digits_val(s@.subrange(a as int, b as int)) && v <= cap,
            Option::None => digits_val(s@.subrange(a as int, b as int)) > cap,
        },
{
    let ghost d = s@.subrange(a as int, b as int);
    let mut acc: u64 = 0;
    let mut j: usize = a;
    while j < b
        invariant
            a <= j <= b <= s@.len(),
            d == s@.subrange(a as int, b as int),
            forall|k: int| a <= k < b ==> is_digit(s@[k]),
            acc == digits_val(d.take(j - a)),
            acc <= cap,
            cap < 0x1000_0000_0000_0000,
        decreases b - j,
    {
        let dig = s[j];
        assert(is_digit(s@[j as int]));
        let next: u64 = acc * 10 + ((dig - 48) as u64);
        proof {
            assert(d.take(j - a + 1).drop_last() =~= d.take(j - a));
            assert(d.take(j - a + 1).last() == s@[j as int]);
            assert(digits_val(d.take(j - a + 1)) == next);
        }
        if next > cap {
            proof {
                lemma_digits_val_take_mono(d, j - a + 1);
                assert(d.take(b - a) =~= d);
            }
            return Option::None;
        }
        acc = next;
        j += 1;
    }
    proof {
        assert(d.take(b - a) =~= d);
    }
    Option::Some(acc)
}

/// The value of the digit run `s[a..b]` capped to `0` when it does not fit
/// in `u8`.
pub open spec fn parse_u8_default(s: Seq<u8>, a: int, b: int) -> u8 {
    if digits_val(s.subrange(a, b)) > 255 {
        0
    } else {
        digits_val(s.subrange(a, b)) as u8
    }
}

/// Exec parse of the digit run `s[a..b]` as `u8`, `0` when it overflows.
pub fn parse_u8_default_x(s: &[u8], a: usize, b: usize) -> (r: u8)
    requires
        a <= b <= s@.len(),
        forall|j: int| a <= j < b ==> is_digit(s@[j]),
    ensures
        r == parse_u8_default(s@, a as int, b as int),
{
    match parse_digits_capped(s, a, b, 255) {
        Option::Some(v) => v as u8,
        Option::None => 0,
    }
}

} // verus!
