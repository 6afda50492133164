//! Extraction inside one track block: number, filenames, peak level,
//! pre-gap, test/copy hashes, error tallies and AccurateRip units.
use vstd::prelude::*;
use crate::textscan::{
    ascii_bytes, ci_seq_at, ci_seq_at_b, digit_b, digits_end, digits_end_x, digits_val, is_digit,
    is_upper_hex, is_ws, lemma_digits_end, lemma_line_end, lemma_ws_end, line_end, line_end_x,
    lit_bytes, lower, parse_digits_capped, parse_u32_default, parse_u32_default_x,
    parse_u8_default, seq_at, seq_at_b, trim, trim_range, upper_hex_b, ws_b, ws_end, ws_end_x,
    copy_range, bytes_eq,
};
use crate::types::{
    AccurateRipConfidence, AccurateRipConfidenceTotal, AccurateRipOffset, AccurateRipUnit,
    TestAndCopy, Time, TrackError, TrackErrorData, TrackErrorRange, Quartet,
};

verus! {

/// Eight uppercase hexadecimal digits stand at `i`.
pub open spec fn hex8_at(s: Seq<u8>, i: int) -> bool {
    &&& 0 <= i
    &&& i + 8 <= s.len()
    &&& forall|j: int| 0 <= j < 8 ==> is_upper_hex(#[trigger] s[i + j])
}

/// Exec test of [`hex8_at`].
pub fn hex8_at_b(s: &[u8], i: usize) -> (r: bool)
    ensures
        r == hex8_at(s@, i as int),
{
    let n = s.len();
    if i > n || n - i < 8 {
        return false;
    }
    let mut j: usize = 0;
    while j < 8
        invariant
            j <= 8,
            i + 8 <= n,
            n == s@.len(),
            forall|k: int| 0 <= k < j ==> is_upper_hex(#[trigger] s@[i + k]),
        decreases 8 - j,
    {
        if !upper_hex_b(s[i + j]) {
            return false;
        }
        j += 1;
    }
    true
}

// ---------------------------------------------------------------------
// Track number
// ---------------------------------------------------------------------
/// A track-number phrase matches at `i`: the word `Track`, whitespace, and
/// at least one digit.
pub open spec fn track_num_at(s: Seq<u8>, i: int) -> bool {
    &&& seq_at(s, i, ascii_bytes("Track"@))
    &&& {
        let w = ws_end(s, i + ascii_bytes("Track"@).len());
        w < s.len() && is_digit(s[w])
    }
}

/// The first track-number phrase at or after `i`.
pub open spec fn find_track_num_from(s: Seq<u8>, i: int) -> Option<int>
    decreases s.len() - i,
{
    if !(0 <= i < s.len()) {
        Option::None
    } else if track_num_at(s, i) {
        Option::Some(i)
    } else {
        find_track_num_from(s, i + 1)
    }
}

/// The track number of a block: the digits after the first `Track` word,
/// read as `u8`, `0` when absent or out of range.
pub open spec fn spec_track_num(s: Seq<u8>) -> u8 {
    match find_track_num_from(s, 0) {
        Option::None => 0,
        Option::Some(i) => {
            let ds = ws_end(s, i + ascii_bytes("Track"@).len());
            parse_u8_default(s, ds, digits_end(s, ds))
        },
    }
}

/// Exec evaluation of [`spec_track_num`].
pub fn track_num_x(s: &[u8]) -> (r: u8)
    ensures
        r == spec_track_num(s@),
{
    let lit = "Track";
    proof {
        reveal_strlit("Track");
        assert(lit.is_ascii());
    }
    let label = lit_bytes(lit);
    let mut i: usize = 0;
    while i < s.len()
        invariant
            i <= s@.len(),
            label@ == ascii_bytes("Track"@),
            find_track_num_from(s@, 0) == find_track_num_from(s@, i as int),
        decreases s@.len() - i,
    {
        if seq_at_b(s, i, label.as_slice()) {
            let ds = ws_end_x(s, i + label.len());
            if ds < s.len() && digit_b(s[ds]) {
                let de = digits_end_x(s, ds);
                proof {
                    lemma_digits_end(s@, ds as int);
                }
                return crate::textscan::parse_u8_default_x(s, ds, de);
            }
        }
        proof {
            assert(!track_num_at(s@, i as int));
        }
        i += 1;
    }
    0
}

// ---------------------------------------------------------------------
// Peak level
// ---------------------------------------------------------------------
/// A peak-level line matches at `i`: `Peak`, whitespace, `:`, whitespace,
/// and a decimal number with digits on both sides of the point.
pub open spec fn peak_at(s: Seq<u8>, i: int) -> bool {
    &&& seq_at(s, i, ascii_bytes("Peak"@))
    &&& {
        let w = ws_end(s, i + ascii_bytes("Peak"@).len());
        &&& w < s.len()
        &&& s[w] == 58
        &&& {
            let v = ws_end(s, w + 1);
            let e1 = digits_end(s, v);
            &&& e1 > v
            &&& e1 < s.len()
            &&& s[e1] == 46
            &&& digits_end(s, e1 + 1) > e1 + 1
        }
    }
}

/// The first peak-level line at or after `i`.
pub open spec fn find_peak_from(s: Seq<u8>, i: int) -> Option<int>
    decreases s.len() - i,
{
    if !(0 <= i < s.len()) {
        Option::None
    } else if peak_at(s, i) {
        Option::Some(i)
    } else {
        find_peak_from(s, i + 1)
    }
}

/// The decimal text of the first peak-level line, if any.
pub open spec fn spec_peak(s: Seq<u8>) -> Option<Seq<u8>> {
    match find_peak_from(s, 0) {
        Option::None => Option::None,
        Option::Some(i) => {
            let w = ws_end(s, i + ascii_bytes("Peak"@).len());
            let v = ws_end(s, w + 1);
            let e1 = digits_end(s, v);
            Option::Some(s.subrange(v, digits_end(s, e1 + 1)))
        },
    }
}

/// Exec evaluation of [`spec_peak`].
pub fn peak_x(s: &[u8]) -> (r: Option<Vec<u8>>)
    ensures
        match r {
            Option::Some(v) => spec_peak(s@) == Option::Some(v@),
            Option::None => spec_peak(s@) is None,
        },
{
    let lit = "Peak";
    proof {
        reveal_strlit("Peak");
        assert(lit.is_ascii());
    }
    let label = lit_bytes(lit);
    let mut i: usize = 0;
    while i < s.len()
        invariant
            i <= s@.len(),
            label@ == ascii_bytes("Peak"@),
            find_peak_from(s@, 0) == find_peak_from(s@, i as int),
        decreases s@.len() - i,
    {
        if seq_at_b(s, i, label.as_slice()) {
            let w = ws_end_x(s, i + label.len());
            if w < s.len() && s[w] == 58 {
                let v = ws_end_x(s, w + 1);
                let e1 = digits_end_x(s, v);
                if e1 > v && e1 < s.len() && s[e1] == 46 {
                    let e2 = digits_end_x(s, e1 + 1);
                    if e2 > e1 + 1 {
                        return Option::Some(copy_range(s, v, e2));
                    }
                }
            }
        }
        proof {
            assert(!peak_at(s@, i as int));
        }
        i += 1;
    }
    Option::None
}

// ---------------------------------------------------------------------
// Pre-gap length
// ---------------------------------------------------------------------
/// A pre-gap line matches at `i`: the label, whitespace, `:`, whitespace,
/// and a time of the exact shape `dd:dd:dd`.
pub open spec fn pregap_at(s: Seq<u8>, i: int) -> bool {
    &&& seq_at(s, i, ascii_bytes("Pre-gap length"@))
    &&& {
        let w = ws_end(s, i + ascii_bytes("Pre-gap length"@).len());
        &&& w < s.len()
        &&& s[w] == 58
        &&& {
            let v = ws_end(s, w + 1);
            &&& v + 8 <= s.len()
            &&& is_digit(s[v])
            &&& is_digit(s[v + 1])
            &&& s[v + 2] == 58
            &&& is_digit(s[v + 3])
            &&& is_digit(s[v + 4])
            &&& s[v + 5] == 58
            &&& is_digit(s[v + 6])
            &&& is_digit(s[v + 7])
        }
    }
}

/// The first pre-gap line at or after `i`.
pub open spec fn find_pregap_from(s: Seq<u8>, i: int) -> Option<int>
    decreases s.len() - i,
{
    if !(0 <= i < s.len()) {
        Option::None
    } else if pregap_at(s, i) {
        Option::Some(i)
    } else {
        find_pregap_from(s, i + 1)
    }
}

/// Centi-frames of a `dd:dd:dd` time (minutes, seconds, centiseconds)
/// standing at `v`.
pub open spec fn spec_dd_time(s: Seq<u8>, v: int) -> u64 {
    let m = (s[v] - 48) * 10 + (s[v + 1] - 48);
    let sec = (s[v + 3] - 48) * 10 + (s[v + 4] - 48);
    let c = (s[v + 6] - 48) * 10 + (s[v + 7] - 48);
    ((m * 60 + sec) * 7500 + c * 75) as u64
}

/// The pre-gap duration of a block, if its line is present.
pub open spec fn spec_pregap(s: Seq<u8>) -> Option<u64> {
    match find_pregap_from(s, 0) {
        Option::None => Option::None,
        Option::Some(i) => {
            let w = ws_end(s, i + ascii_bytes("Pre-gap length"@).len());
            Option::Some(spec_dd_time(s, ws_end(s, w + 1)))
        },
    }
}

/// Exec evaluation of [`spec_pregap`].
pub fn pregap_x(s: &[u8]) -> (r: Option<Time>)
    ensures
        match r {
            Option::Some(t) => spec_pregap(s@) == Option::Some(t.centiframes),
            Option::None => spec_pregap(s@) is None,
        },
{
    let lit = "Pre-gap length";
    proof {
        reveal_strlit("Pre-gap length");
        assert(lit.is_ascii());
    }
    let label = lit_bytes(lit);
    let mut i: usize = 0;
    while i < s.len()
        invariant
            i <= s@.len(),
            label@ == ascii_bytes("Pre-gap length"@),
            find_pregap_from(s@, 0) == find_pregap_from(s@, i as int),
        decreases s@.len() - i,
    {
        if seq_at_b(s, i, label.as_slice()) {
            let w = ws_end_x(s, i + label.len());
            if w < s.len() && s[w] == 58 {
                let v = ws_end_x(s, w + 1);
                let n = s.len();
                if v <= n && n - v >= 8 && digit_b(s[v]) && digit_b(s[v + 1]) && s[v + 2] == 58
                    && digit_b(s[v + 3]) && digit_b(s[v + 4]) && s[v + 5] == 58 && digit_b(
                    s[v + 6],
                ) && digit_b(s[v + 7]) {
                    let m: u64 = ((s[v] - 48) as u64) * 10 + ((s[v + 1] - 48) as u64);
                    let sec: u64 = ((s[v + 3] - 48) as u64) * 10 + ((s[v + 4] - 48) as u64);
                    let c: u64 = ((s[v + 6] - 48) as u64) * 10 + ((s[v + 7] - 48) as u64);
                    return Option::Some(Time { centiframes: (m * 60 + sec) * 7500 + c * 75 });
                }
            }
        }
        proof {
            assert(!pregap_at(s@, i as int));
        }
        i += 1;
    }
    Option::None
}

// ---------------------------------------------------------------------
// Test and copy hashes
// ---------------------------------------------------------------------
/// A hash line matches at `i`: the label, whitespace, `:`, whitespace, and
/// eight uppercase hexadecimal digits.
pub open spec fn crc_at(s: Seq<u8>, label: Seq<u8>, i: int) -> bool {
    &&& seq_at(s, i, label)
    &&& {
        let w = ws_end(s, i + label.len());
        &&& w < s.len()
        &&& s[w] == 58
        &&& hex8_at(s, ws_end(s, w + 1))
    }
}

/// The first hash line at or after `i`.
pub open spec fn find_crc_from(s: Seq<u8>, label: Seq<u8>, i: int) -> Option<int>
    decreases s.len() - i,
{
    if !(0 <= i < s.len()) {
        Option::None
    } else if crc_at(s, label, i) {
        Option::Some(i)
    } else {
        find_crc_from(s, label, i + 1)
    }
}

/// The eight hash digits of the first matching line, empty when none
/// matches.
pub open spec fn spec_crc(s: Seq<u8>, label: Seq<u8>) -> Seq<u8> {
    match find_crc_from(s, label, 0) {
        Option::None => Seq::empty(),
        Option::Some(i) => {
            let v = ws_end(s, ws_end(s, i + label.len()) + 1);
            s.subrange(v, v + 8)
        },
    }
}

/// Exec evaluation of [`spec_crc`].
pub fn crc_x(s: &[u8], label: &[u8]) -> (r: Vec<u8>)
    ensures
        r@ == spec_crc(s@, label@),
{
    let mut i: usize = 0;
    while i < s.len()
        invariant
            i <= s@.len(),
            find_crc_from(s@, label@, 0) == find_crc_from(s@, label@, i as int),
        decreases s@.len() - i,
    {
        if seq_at_b(s, i, label) {
            let n = s.len();
            assert(i + label@.len() <= n);
            let w = ws_end_x(s, i + label.len());
            if w < n && s[w] == 58 {
                let v = ws_end_x(s, w + 1);
                if hex8_at_b(s, v) {
                    return copy_range(s, v, v + 8);
                }
            }
        }
        proof {
            assert(!crc_at(s@, label@, i as int));
        }
        i += 1;
    }
    Vec::new()
}

// ---------------------------------------------------------------------
// Error tallies
// ---------------------------------------------------------------------
/// An error line of one kind matches at `i`: its label, optionally
/// followed by whitespace, `:`, whitespace and a count.
pub open spec fn err_at(s: Seq<u8>, label: Seq<u8>, i: int) -> bool {
    seq_at(s, i, label)
}

/// The count carried by an error line at `i`: the digits after the colon,
/// `0` when no count follows or it overflows.
pub open spec fn err_count_at(s: Seq<u8>, label: Seq<u8>, i: int) -> u32 {
    let w = ws_end(s, i + label.len());
    if w < s.len() && s[w] == 58 {
        let v = ws_end(s, w + 1);
        if v < s.len() && is_digit(s[v]) {
            parse_u32_default(s, v, digits_end(s, v))
        } else {
            0
        }
    } else {
        0
    }
}

/// The first error line of a kind at or after `i`.
pub open spec fn find_err_from(s: Seq<u8>, label: Seq<u8>, i: int) -> Option<int>
    decreases s.len() - i,
{
    if !(0 <= i < s.len()) {
        Option::None
    } else if err_at(s, label, i) {
        Option::Some(i)
    } else {
        find_err_from(s, label, i + 1)
    }
}

/// The count of the last error line of a kind, starting the scan at `i`
/// with `acc` as the count seen so far.
pub open spec fn spec_err_count_from(s: Seq<u8>, label: Seq<u8>, i: int, acc: u32) -> u32
    decreases s.len() - i,
    via spec_err_count_from_decreases
{
    if !(0 <= i <= s.len()) {
        acc
    } else {
        match find_err_from(s, label, i) {
            Option::None => acc,
            Option::Some(j) => spec_err_count_from(s, label, j + 1, err_count_at(s, label, j)),
        }
    }
}

#[via_fn]
proof fn spec_err_count_from_decreases(s: Seq<u8>, label: Seq<u8>, i: int, acc: u32) {
    if 0 <= i <= s.len() {
        lemma_find_err_sound(s, label, i);
    }
}

/// What a found error line satisfies.
pub proof fn lemma_find_err_sound(s: Seq<u8>, label: Seq<u8>, i: int)
    ensures
        match find_err_from(s, label, i) {
            Option::Some(j) => i <= j < s.len() && err_at(s, label, j),
            Option::None => true,
        },
    decreases s.len() - i,
{
    if 0 <= i < s.len() && !err_at(s, label, i) {
        lemma_find_err_sound(s, label, i + 1);
    }
}

/// The count of one error kind in a block: that of its last line, `0` when
/// the kind is absent.
pub open spec fn spec_err_count(s: Seq<u8>, label: Seq<u8>) -> u32 {
    spec_err_count_from(s, label, 0, 0)
}

/// One error kind is mentioned at all.
pub open spec fn spec_err_present(s: Seq<u8>, label: Seq<u8>) -> bool {
    find_err_from(s, label, 0) is Some
}

/// Exec evaluation of [`spec_err_count`].
pub fn err_count_x(s: &[u8], label: &[u8]) -> (r: u32)
    ensures
        r == spec_err_count(s@, label@),
{
    let mut acc: u32 = 0;
    let mut i: usize = 0;
    while i < s.len()
        invariant
            i <= s@.len(),
            spec_err_count_from(s@, label@, 0, 0) == spec_err_count_from(
                s@,
                label@,
                i as int,
                acc,
            ),
        decreases s@.len() - i,
    {
        if seq_at_b(s, i, label) {
            let n = s.len();
            assert(i + label@.len() <= n);
            let w = ws_end_x(s, i + label.len());
            let mut cnt: u32 = 0;
            if w < n && s[w] == 58 {
                let v = ws_end_x(s, w + 1);
                if v < n && digit_b(s[v]) {
                    let de = digits_end_x(s, v);
                    proof {
                        lemma_digits_end(s@, v as int);
                    }
                    cnt = parse_u32_default_x(s, v, de);
                }
            }
            proof {
                assert(cnt == err_count_at(s@, label@, i as int));
                assert(find_err_from(s@, label@, i as int) == Option::Some(i as int));
            }
            acc = cnt;
            i += 1;
        } else {
            proof {
                assert(find_err_from(s@, label@, i as int) == find_err_from(s@, label@, i + 1));
            }
            i += 1;
        }
    }
    acc
}

/// Exec evaluation of [`spec_err_present`].
pub fn err_present_x(s: &[u8], label: &[u8]) -> (r: bool)
    ensures
        r == spec_err_present(s@, label@),
{
    let mut i: usize = 0;
    while i < s.len()
        invariant
            i <= s@.len(),
            find_err_from(s@, label@, 0) == find_err_from(s@, label@, i as int),
        decreases s@.len() - i,
    {
        if seq_at_b(s, i, label) {
            return true;
        }
        i += 1;
    }
    false
}

// ---------------------------------------------------------------------
// Filenames
// ---------------------------------------------------------------------
/// Length of the audio extension (with its dot) standing at `q`, matched
/// without regard to case; `0` when none stands there.
pub open spec fn ext_len_at(s: Seq<u8>, q: int) -> int {
    if ci_seq_at(s, q, ascii_bytes(".flac"@)) {
        5
    } else if ci_seq_at(s, q, ascii_bytes(".wav"@)) {
        4
    } else if ci_seq_at(s, q, ascii_bytes(".mp3"@)) {
        4
    } else if ci_seq_at(s, q, ascii_bytes(".m4a"@)) {
        4
    } else if ci_seq_at(s, q, ascii_bytes(".ape"@)) {
        4
    } else if ci_seq_at(s, q, ascii_bytes(".tta"@)) {
        4
    } else if ci_seq_at(s, q, ascii_bytes(".ogg"@)) {
        4
    } else {
        0
    }
}

/// Exec evaluation of [`ext_len_at`].
fn ext_len_at_x(s: &[u8], q: usize) -> (r: usize)
    ensures
        r == ext_len_at(s@, q as int),
        r <= 5,
        r > 0 ==> q + r <= s@.len(),
{
    proof {
        reveal_strlit(".flac");
        reveal_strlit(".wav");
        reveal_strlit(".mp3");
        reveal_strlit(".m4a");
        reveal_strlit(".ape");
        reveal_strlit(".tta");
        reveal_strlit(".ogg");
        assert(".flac".is_ascii() && ".wav".is_ascii() && ".mp3".is_ascii() && ".m4a".is_ascii()
            && ".ape".is_ascii() && ".tta".is_ascii() && ".ogg".is_ascii());
    }
    let flac = lit_ci(".flac");
    let wav = lit_ci(".wav");
    let mp3 = lit_ci(".mp3");
    let m4a = lit_ci(".m4a");
    let ape = lit_ci(".ape");
    let tta = lit_ci(".tta");
    let ogg = lit_ci(".ogg");
    if ci_seq_at_b(s, q, flac.as_slice()) {
        proof {
            reveal_strlit(".flac");
        }
        5
    } else if ci_seq_at_b(s, q, wav.as_slice()) {
        proof {
            reveal_strlit(".wav");
        }
        4
    } else if ci_seq_at_b(s, q, mp3.as_slice()) {
        proof {
            reveal_strlit(".mp3");
        }
        4
    } else if ci_seq_at_b(s, q, m4a.as_slice()) {
        proof {
            reveal_strlit(".m4a");
        }
        4
    } else if ci_seq_at_b(s, q, ape.as_slice()) {
        proof {
            reveal_strlit(".ape");
        }
        4
    } else if ci_seq_at_b(s, q, tta.as_slice()) {
        proof {
            reveal_strlit(".tta");
        }
        4
    } else if ci_seq_at_b(s, q, ogg.as_slice()) {
        proof {
            reveal_strlit(".ogg");
        }
        4
    } else {
        0
    }
}

/// The bytes of an ASCII literal, for the case-insensitive needles.
fn lit_ci(lit: &str) -> (r: Vec<u8>)
    requires
        lit.is_ascii(),
    ensures
        r@ == ascii_bytes(lit@),
{
    lit_bytes(lit)
}

/// The first extension position at or after `q`, anywhere in the rest of
/// the block (a filename may wrap across lines).
pub open spec fn find_ext_from(s: Seq<u8>, q: int) -> Option<int>
    decreases s.len() - q,
{
    if !(0 <= q < s.len()) {
        Option::None
    } else if ext_len_at(s, q) > 0 {
        Option::Some(q)
    } else {
        find_ext_from(s, q + 1)
    }
}

/// A single-filename line matches at `i`: the word, whitespace, `:`, and a
/// value that eventually ends in an audio extension.
pub open spec fn fname_at(s: Seq<u8>, i: int) -> bool {
    &&& ci_seq_at(s, i, ascii_bytes("filename"@))
    &&& {
        let w = ws_end(s, i + ascii_bytes("filename"@).len());
        &&& w < s.len()
        &&& s[w] == 58
        &&& find_ext_from(s, ws_end(s, w + 1) + 1) is Some
    }
}

/// The first single-filename line at or after `i`.
pub open spec fn find_fname_from(s: Seq<u8>, i: int) -> Option<int>
    decreases s.len() - i,
{
    if !(0 <= i < s.len()) {
        Option::None
    } else if fname_at(s, i) {
        Option::Some(i)
    } else {
        find_fname_from(s, i + 1)
    }
}

/// The trimmed first filename of a block, empty when none is found.
pub open spec fn spec_first_filename(s: Seq<u8>) -> Seq<u8> {
    match find_fname_from(s, 0) {
        Option::None => Seq::empty(),
        Option::Some(i) => {
            let w = ws_end(s, i + ascii_bytes("filename"@).len());
            let v = ws_end(s, w + 1);
            let q = find_ext_from(s, v + 1).unwrap();
            trim(s.subrange(v, q + ext_len_at(s, q)))
        },
    }
}

/// What a found extension position satisfies.
pub proof fn lemma_find_ext_sound(s: Seq<u8>, q: int)
    ensures
        match find_ext_from(s, q) {
            Option::Some(e) => q <= e < s.len() && ext_len_at(s, e) > 0 && e + ext_len_at(s, e)
                <= s.len(),
            Option::None => true,
        },
    decreases s.len() - q,
{
    reveal_strlit(".flac");
    reveal_strlit(".wav");
    reveal_strlit(".mp3");
    reveal_strlit(".m4a");
    reveal_strlit(".ape");
    reveal_strlit(".tta");
    reveal_strlit(".ogg");
    if 0 <= q < s.len() && !(ext_len_at(s, q) > 0) {
        lemma_find_ext_sound(s, q + 1);
    }
}

/// Exec evaluation of [`spec_first_filename`].
pub fn first_filename_x(s: &[u8]) -> (r: Vec<u8>)
    ensures
        r@ == spec_first_filename(s@),
{
    let label = lit_fname();
    let mut i: usize = 0;
    while i < s.len()
        invariant
            i <= s@.len(),
            label@ == ascii_bytes("filename"@),
            find_fname_from(s@, 0) == find_fname_from(s@, i as int),
        decreases s@.len() - i,
    {
        if ci_seq_at_b(s, i, label.as_slice()) {
            let n = s.len();
            assert(i + label@.len() <= n);
            let w = ws_end_x(s, i + label.len());
            if w < n && s[w] == 58 {
                let v = ws_end_x(s, w + 1);
                if v < n {
                    match find_ext_x(s, v + 1) {
                        Option::Some(q) => {
                            proof {
                                lemma_find_ext_sound(s@, v + 1);
                            }
                            let el = ext_len_at_x(s, q);
                            return trim_range(s, v, q + el);
                        },
                        Option::None => {
                            proof {
                                assert(!fname_at(s@, i as int));
                            }
                        },
                    }
                } else {
                    proof {
                        assert(find_ext_from(s@, v + 1) is None);
                        assert(!fname_at(s@, i as int));
                    }
                }
            } else {
                proof {
                    assert(!fname_at(s@, i as int));
                }
            }
        } else {
            proof {
                assert(!fname_at(s@, i as int));
            }
        }
        i += 1;
    }
    Vec::new()
}

fn lit_fname() -> (l: Vec<u8>)
    ensures
        l@ == ascii_bytes("filename"@),
        l@.len() == 8,
{
    let lit = "filename";
    proof {
        reveal_strlit("filename");
        assert(lit.is_ascii());
    }
    lit_bytes(lit)
}

/// Exec search for the first extension position at or after `q`.
fn find_ext_x(s: &[u8], q: usize) -> (r: Option<usize>)
    requires
        q <= s@.len(),
    ensures
        match r {
            Option::Some(e) => find_ext_from(s@, q as int) == Option::Some(e as int) && e
                < s@.len(),
            Option::None => find_ext_from(s@, q as int) is None,
        },
{
    let mut p: usize = q;
    while p < s.len()
        invariant
            q <= p <= s@.len(),
            find_ext_from(s@, q as int) == find_ext_from(s@, p as int),
        decreases s@.len() - p,
    {
        if ext_len_at_x(s, p) > 0 {
            return Option::Some(p);
        }
        p += 1;
    }
    Option::None
}

/// The length of the line break standing at `p`: two bytes for CRLF, one
/// for a bare CR or LF, zero when none stands there.
pub open spec fn lb_len(s: Seq<u8>, p: int) -> int {
    if 0 <= p < s.len() && s[p] == 13 {
        if p + 1 < s.len() && s[p + 1] == 10 {
            2
        } else {
            1
        }
    } else if 0 <= p < s.len() && s[p] == 10 {
        1
    } else {
        0
    }
}

/// Exec evaluation of [`lb_len`].
fn lb_len_x(s: &[u8], p: usize) -> (r: usize)
    ensures
        r == lb_len(s@, p as int),
        r > 0 ==> p + r <= s@.len(),
{
    let n = s.len();
    if p < n && s[p] == 13 {
        if n - p > 1 && s[p + 1] == 10 {
            2
        } else {
            1
        }
    } else if p < n && s[p] == 10 {
        1
    } else {
        0
    }
}

/// The dot position of a filename-list unit starting at `p`: the first
/// position on the unit's line where an extension stands with a line break
/// right after it.
pub open spec fn find_unit_dot(s: Seq<u8>, q: int, limit: int) -> Option<int>
    decreases limit - q,
{
    if q >= limit {
        Option::None
    } else if ext_len_at(s, q) > 0 && lb_len(s, q + ext_len_at(s, q)) > 0 {
        Option::Some(q)
    } else {
        find_unit_dot(s, q + 1, limit)
    }
}

/// A filename-list unit starts at `p`: at least one character, an
/// extension, and a line break.
pub open spec fn unit_at(s: Seq<u8>, p: int) -> bool {
    &&& 0 <= p <= s.len()
    &&& find_unit_dot(s, p + 1, line_end(s, p)) is Some
}

/// The position just past the unit starting at `p`, its line break
/// included.
pub open spec fn unit_end(s: Seq<u8>, p: int) -> int {
    let q = find_unit_dot(s, p + 1, line_end(s, p)).unwrap();
    q + ext_len_at(s, q) + lb_len(s, q + ext_len_at(s, q))
}

/// What a found unit dot satisfies.
pub proof fn lemma_find_unit_dot_sound(s: Seq<u8>, q: int, limit: int)
    ensures
        match find_unit_dot(s, q, limit) {
            Option::Some(e) => q <= e < limit && ext_len_at(s, e) > 0 && lb_len(
                s,
                e + ext_len_at(s, e),
            ) > 0,
            Option::None => true,
        },
    decreases limit - q,
{
    if q < limit && !(ext_len_at(s, q) > 0 && lb_len(s, q + ext_len_at(s, q)) > 0) {
        lemma_find_unit_dot_sound(s, q + 1, limit);
    }
}

/// Bounds of a unit.
pub proof fn lemma_unit_bounds(s: Seq<u8>, p: int)
    requires
        unit_at(s, p),
    ensures
        p < unit_end(s, p) <= s.len(),
{
    lemma_line_end(s, p);
    lemma_find_unit_dot_sound(s, p + 1, line_end(s, p));
}

/// The end of the chain of consecutive units starting at `p`.
pub open spec fn units_end(s: Seq<u8>, p: int) -> int
    decreases s.len() - p,
    via units_end_decreases
{
    if unit_at(s, p) && p < s.len() {
        units_end(s, unit_end(s, p))
    } else {
        p
    }
}

#[via_fn]
proof fn units_end_decreases(s: Seq<u8>, p: int) {
    if unit_at(s, p) && p < s.len() {
        lemma_unit_bounds(s, p);
    }
}

/// Bounds of a unit chain.
pub proof fn lemma_units_end_bounds(s: Seq<u8>, p: int)
    requires
        0 <= p <= s.len(),
    ensures
        p <= units_end(s, p) <= s.len(),
    decreases s.len() - p,
{
    if unit_at(s, p) && p < s.len() {
        lemma_unit_bounds(s, p);
        lemma_units_end_bounds(s, unit_end(s, p));
    }
}

/// A filename-list matches at `i`: the word, whitespace, `:`, whitespace,
/// and at least one unit.
pub open spec fn multi_at(s: Seq<u8>, i: int) -> bool {
    &&& ci_seq_at(s, i, ascii_bytes("filename"@))
    &&& {
        let w = ws_end(s, i + ascii_bytes("filename"@).len());
        &&& w < s.len()
        &&& s[w] == 58
        &&& unit_at(s, ws_end(s, w + 1))
    }
}

/// The first filename-list at or after `i`.
pub open spec fn find_multi_from(s: Seq<u8>, i: int) -> Option<int>
    decreases s.len() - i,
{
    if !(0 <= i < s.len()) {
        Option::None
    } else if multi_at(s, i) {
        Option::Some(i)
    } else {
        find_multi_from(s, i + 1)
    }
}

/// Where the value of a filename-list matching at `j` starts.
pub open spec fn multi_val_start(s: Seq<u8>, j: int) -> int {
    ws_end(s, ws_end(s, j + ascii_bytes("filename"@).len()) + 1)
}

/// Where the value of a filename-list matching at `j` ends: past its last
/// consecutive filename line.
pub open spec fn multi_val_end(s: Seq<u8>, j: int) -> int {
    units_end(s, multi_val_start(s, j))
}

/// What a found filename-list satisfies.
pub proof fn lemma_find_multi_sound(s: Seq<u8>, i: int)
    ensures
        match find_multi_from(s, i) {
            Option::Some(j) => i <= j < s.len() && multi_at(s, j),
            Option::None => true,
        },
    decreases s.len() - i,
{
    if 0 <= i < s.len() && !multi_at(s, i) {
        lemma_find_multi_sound(s, i + 1);
    }
}

/// Bounds of the value of a matched filename-list.
pub proof fn lemma_multi_block_bounds(s: Seq<u8>, j: int)
    requires
        0 <= j < s.len(),
        multi_at(s, j),
    ensures
        j < multi_val_end(s, j) <= s.len(),
        0 <= multi_val_start(s, j) <= multi_val_end(s, j),
{
    let w = ws_end(s, j + ascii_bytes("filename"@).len());
    lemma_ws_end(s, j + ascii_bytes("filename"@).len());
    lemma_ws_end(s, w + 1);
    let v = multi_val_start(s, j);
    lemma_line_end(s, v);
    lemma_find_unit_dot_sound(s, v + 1, line_end(s, v));
    lemma_unit_bounds(s, v);
    lemma_units_end_bounds(s, unit_end(s, v));
}

/// The trimmed value of the first filename-list, if any: all its
/// consecutive filename lines.
pub open spec fn spec_multi_value(s: Seq<u8>) -> Option<Seq<u8>> {
    match find_multi_from(s, 0) {
        Option::None => Option::None,
        Option::Some(i) => {
            let v = ws_end(s, ws_end(s, i + ascii_bytes("filename"@).len()) + 1);
            Option::Some(trim(s.subrange(v, units_end(s, v))))
        },
    }
}

/// Exec test of [`unit_at`].
fn unit_at_b(s: &[u8], p: usize) -> (r: bool)
    requires
        p <= s@.len(),
    ensures
        r == unit_at(s@, p as int),
{
    let n = s.len();
    let le = line_end_x(s, p);
    if p >= le {
        proof {
            assert(find_unit_dot(s@, p + 1, line_end(s@, p as int)) is None);
        }
        return false;
    }
    let mut q: usize = p + 1;
    while q < le
        invariant
            p + 1 <= q <= le <= n,
            n == s@.len(),
            le == line_end(s@, p as int),
            find_unit_dot(s@, p + 1, le as int) == find_unit_dot(s@, q as int, le as int),
        decreases le - q,
    {
        let el = ext_len_at_x(s, q);
        if el > 0 && lb_len_x(s, q + el) > 0 {
            return true;
        }
        q += 1;
    }
    false
}

/// Exec computation of [`unit_end`] of a unit known to start at `p`.
fn unit_end_x(s: &[u8], p: usize) -> (e: usize)
    requires
        p <= s@.len(),
        unit_at(s@, p as int),
    ensures
        e == unit_end(s@, p as int),
        p < e <= s@.len(),
{
    proof {
        lemma_unit_bounds(s@, p as int);
        lemma_line_end(s@, p as int);
    }
    let le = line_end_x(s, p);
    let mut q: usize = p + 1;
    loop
        invariant
            p + 1 <= q <= le <= s@.len(),
            le == line_end(s@, p as int),
            unit_at(s@, p as int),
            p <= s@.len(),
            find_unit_dot(s@, p + 1, le as int) is Some,
            find_unit_dot(s@, p + 1, le as int) == find_unit_dot(s@, q as int, le as int),
        decreases le - q,
    {
        let n = s.len();
        proof {
            if q >= le {
                assert(find_unit_dot(s@, q as int, le as int) is None);
            }
            assert(q < le);
        }
        let el = ext_len_at_x(s, q);
        if el > 0 && lb_len_x(s, q + el) > 0 {
            proof {
                assert(find_unit_dot(s@, p + 1, le as int) == Option::Some(q as int));
            }
            let lb = lb_len_x(s, q + el);
            return q + el + lb;
        }
        q += 1;
    }
}

/// Exec evaluation of [`spec_multi_value`].
pub fn multi_value_x(s: &[u8]) -> (r: Option<Vec<u8>>)
    ensures
        match r {
            Option::Some(v) => spec_multi_value(s@) == Option::Some(v@),
            Option::None => spec_multi_value(s@) is None,
        },
{
    let label = lit_fname();
    let mut i: usize = 0;
    while i < s.len()
        invariant
            i <= s@.len(),
            label@ == ascii_bytes("filename"@),
            find_multi_from(s@, 0) == find_multi_from(s@, i as int),
        decreases s@.len() - i,
    {
        if ci_seq_at_b(s, i, label.as_slice()) {
            let n = s.len();
            assert(i + label@.len() <= n);
            let w = ws_end_x(s, i + label.len());
            if w < n && s[w] == 58 {
                let v = ws_end_x(s, w + 1);
                if unit_at_b(s, v) {
                    let e = units_end_x(s, v);
                    proof {
                        assert(multi_at(s@, i as int));
                        assert(find_multi_from(s@, i as int) == Option::Some(i as int));
                    }
                    return Option::Some(trim_range(s, v, e));
                }
            }
        }
        proof {
            assert(!multi_at(s@, i as int));
        }
        i += 1;
    }
    Option::None
}

// ---------------------------------------------------------------------
// Lines, extensions, encoders
// ---------------------------------------------------------------------
/// The lines of a text from position `p` on: split at each line feed, a
/// carriage return before the split dropped.
pub open spec fn split_from(v: Seq<u8>, p: int) -> Seq<Seq<u8>>
    decreases v.len() - p,
    via split_from_decreases
{
    if !(0 <= p < v.len()) {
        Seq::empty()
    } else {
        let e = line_end(v, p);
        let e2 = if e > p && v[e - 1] == 13 {
            e - 1
        } else {
            e
        };
        if e >= v.len() {
            seq![v.subrange(p, e2)]
        } else {
            seq![v.subrange(p, e2)] + split_from(v, e + 1)
        }
    }
}

#[via_fn]
proof fn split_from_decreases(v: Seq<u8>, p: int) {
    if 0 <= p < v.len() {
        lemma_line_end(v, p);
    }
}

/// The lines of a text.
pub open spec fn split_lines(v: Seq<u8>) -> Seq<Seq<u8>> {
    split_from(v, 0)
}

/// Exec splitting into lines, each line copied out.
pub fn split_lines_x(v: &[u8]) -> (r: Vec<Vec<u8>>)
    ensures
        vecs_view(r@) == split_lines(v@),
{
    let mut r: Vec<Vec<u8>> = Vec::new();
    let mut p: usize = 0;
    proof {
        assert(vecs_view(r@) + split_from(v@, 0) =~= split_from(v@, 0));
    }
    loop
        invariant
            p <= v@.len(),
            split_lines(v@) == vecs_view(r@) + split_from(v@, p as int),
        decreases v@.len() - p,
    {
        let n = v.len();
        if p >= n {
            proof {
                assert(vecs_view(r@) =~= split_lines(v@));
            }
            return r;
        }
        let e = line_end_x(v, p);
        proof {
            lemma_line_end(v@, p as int);
        }
        let e2 = if e > p && v[e - 1] == 13 {
            e - 1
        } else {
            e
        };
        let line = copy_range(v, p, e2);
        let ghost pre = vecs_view(r@);
        r.push(line);
        proof {
            assert(vecs_view(r@) =~= pre.push(v@.subrange(p as int, e2 as int)));
        }
        if e >= n {
            proof {
                assert(split_from(v@, p as int) =~= seq![v@.subrange(p as int, e2 as int)]);
                assert(vecs_view(r@) =~= split_lines(v@));
            }
            return r;
        }
        proof {
            assert(vecs_view(r@) + split_from(v@, e + 1) =~= split_lines(v@));
        }
        p = e + 1;
    }
}

/// Lower-cased bytes.
pub open spec fn lower_seq(x: Seq<u8>) -> Seq<u8> {
    Seq::new(x.len(), |i: int| lower(x[i]))
}

/// The position after the last path separator of a name, scanning down
/// from `j`.
pub open spec fn last_slash_end_from(t: Seq<u8>, j: int) -> int
    decreases j,
{
    if j <= 0 {
        0
    } else if t[j - 1] == 47 {
        j
    } else {
        last_slash_end_from(t, j - 1)
    }
}

/// The index of the last dot of a file name at or before `j`, `-1` when
/// there is none.
pub open spec fn last_dot_from(t: Seq<u8>, lo: int, j: int) -> int
    decreases j - lo,
{
    if j <= lo {
        -1
    } else if t[j - 1] == 46 {
        j - 1
    } else {
        last_dot_from(t, lo, j - 1)
    }
}

/// The lower-cased extension of one filename line: the part of its trimmed
/// file name after the last dot, empty when the name has no usable
/// extension.
pub open spec fn ext_of_line(line: Seq<u8>) -> Seq<u8> {
    let t = trim(line);
    let ls = last_slash_end_from(t, t.len() as int);
    let d = last_dot_from(t, ls, t.len() as int);
    if d <= ls {
        Seq::empty()
    } else {
        lower_seq(t.subrange(d + 1, t.len() as int))
    }
}

/// Bounds of [`last_slash_end_from`].
pub proof fn lemma_last_slash_end(t: Seq<u8>, j: int)
    requires
        0 <= j <= t.len(),
    ensures
        0 <= last_slash_end_from(t, j) <= j,
    decreases j,
{
    if j > 0 && t[j - 1] != 47 {
        lemma_last_slash_end(t, j - 1);
    }
}

/// Bounds of [`last_dot_from`].
pub proof fn lemma_last_dot(t: Seq<u8>, lo: int, j: int)
    requires
        0 <= lo <= j <= t.len(),
    ensures
        last_dot_from(t, lo, j) == -1 || lo <= last_dot_from(t, lo, j) < j,
    decreases j - lo,
{
    if j > lo && t[j - 1] != 46 {
        lemma_last_dot(t, lo, j - 1);
    }
}

/// Exec computation of [`ext_of_line`] on an already-trimmed line.
fn ext_of_trimmed_x(t: &Vec<u8>, ghost_line: Ghost<Seq<u8>>) -> (r: Vec<u8>)
    requires
        t@ == trim(ghost_line@),
    ensures
        r@ == ext_of_line(ghost_line@),
{
    let n = t.len();
    proof {
        lemma_last_slash_end(t@, n as int);
    }
    // last slash
    let mut ls: usize = n;
    while ls > 0 && t[ls - 1] != 47
        invariant
            ls <= n,
            n == t@.len(),
            last_slash_end_from(t@, n as int) == last_slash_end_from(t@, ls as int),
        decreases ls,
    {
        ls -= 1;
    }
    proof {
        assert(last_slash_end_from(t@, n as int) == ls as int);
        lemma_last_dot(t@, ls as int, n as int);
    }
    // last dot after the slash
    let mut ld: usize = n;
    while ld > ls && t[ld - 1] != 46
        invariant
            ls <= ld <= n,
            n == t@.len(),
            last_dot_from(t@, ls as int, n as int) == last_dot_from(t@, ls as int, ld as int),
        decreases ld,
    {
        ld -= 1;
    }
    let ghost d = last_dot_from(t@, ls as int, n as int);
    proof {
        if ld > ls {
            assert(d == ld - 1);
        } else {
            assert(d == -1);
        }
    }
    if ld <= ls {
        // no dot in the file name, or a leading dot only
        let r: Vec<u8> = Vec::new();
        proof {
            assert(d <= ls as int);
            assert(r@ =~= ext_of_line(ghost_line@));
        }
        return r;
    }
    if ld - 1 <= ls {
        // the dot is the leading character of the file name
        let r: Vec<u8> = Vec::new();
        proof {
            assert(d <= ls as int);
            assert(r@ =~= ext_of_line(ghost_line@));
        }
        return r;
    }
    proof {
        assert(d > ls as int);
    }
    let mut r: Vec<u8> = Vec::new();
    let mut j: usize = ld;
    while j < n
        invariant
            ld <= j <= n,
            n == t@.len(),
            ls < ld - 1,
            d == ld - 1,
            d == last_dot_from(t@, ls as int, n as int),
            ls as int == last_slash_end_from(t@, n as int),
            r@ == lower_seq(t@.subrange(d + 1, n as int)).take(j - ld),
        decreases n - j,
    {
        r.push(crate::textscan::lower_b(t[j]));
        proof {
            assert(r@ =~= lower_seq(t@.subrange(d + 1, n as int)).take(j + 1 - ld));
        }
        j += 1;
    }
    proof {
        let full = lower_seq(t@.subrange(d + 1, n as int));
        assert(full.take(full.len() as int) =~= full);
        assert(r@ =~= ext_of_line(ghost_line@));
    }
    r
}

/// The ghost forms of a vector of byte strings.
pub open spec fn vecs_view(v: Seq<Vec<u8>>) -> Seq<Seq<u8>> {
    Seq::new(v.len(), |i: int| v[i]@)
}

/// A sequence of byte strings contains `x`.
pub open spec fn contains_bytes(acc: Seq<Seq<u8>>, x: Seq<u8>) -> bool {
    exists|i: int| 0 <= i < acc.len() && acc[i] == x
}

/// Adds a line's extension to the accumulated list, unless it is empty or
/// already present.
pub open spec fn add_encoder(acc: Seq<Seq<u8>>, line: Seq<u8>) -> Seq<Seq<u8>> {
    let e = ext_of_line(line);
    if e.len() == 0 || contains_bytes(acc, e) {
        acc
    } else {
        acc.push(e)
    }
}

/// The encoder list accumulated over the lines from `i` on.
pub open spec fn encoders_from(lines: Seq<Seq<u8>>, i: int, acc: Seq<Seq<u8>>) -> Seq<Seq<u8>>
    decreases lines.len() - i,
{
    if !(0 <= i < lines.len()) {
        acc
    } else {
        encoders_from(lines, i + 1, add_encoder(acc, lines[i]))
    }
}

/// The encoder list accumulated over every filename-list at or after `i`:
/// each list's trimmed lines contribute their extensions, and the scan
/// continues past the list.
pub open spec fn encoders_all_from(s: Seq<u8>, i: int, acc: Seq<Seq<u8>>) -> Seq<Seq<u8>>
    decreases s.len() - i,
    via encoders_all_from_decreases
{
    match find_multi_from(s, i) {
        Option::None => acc,
        Option::Some(j) => {
            let v = multi_val_start(s, j);
            let e = multi_val_end(s, j);
            encoders_all_from(s, e, encoders_from(split_lines(trim(s.subrange(v, e))), 0, acc))
        },
    }
}

#[via_fn]
proof fn encoders_all_from_decreases(s: Seq<u8>, i: int, acc: Seq<Seq<u8>>) {
    lemma_find_multi_sound(s, i);
    if let Option::Some(j) = find_multi_from(s, i) {
        lemma_multi_block_bounds(s, j);
    }
}

/// The audio encoders named by a log: the distinct lower-cased extensions
/// of the lines of every filename list, in order of first appearance.
pub open spec fn spec_audio_encoder(s: Seq<u8>) -> Seq<Seq<u8>> {
    encoders_all_from(s, 0, Seq::empty())
}

/// Exec membership test.
fn contains_bytes_x(acc: &Vec<Vec<u8>>, x: &Vec<u8>) -> (r: bool)
    ensures
        r == contains_bytes(vecs_view(acc@), x@),
{
    let mut i: usize = 0;
    while i < acc.len()
        invariant
            i <= acc@.len(),
            forall|k: int| 0 <= k < i ==> (#[trigger] acc@[k])@ != x@,
        decreases acc@.len() - i,
    {
        if bytes_eq(&acc[i], x) {
            proof {
                assert(vecs_view(acc@)[i as int] == x@);
            }
            return true;
        }
        proof {
            assert(!(acc@[i as int]@ =~= x@));
        }
        i += 1;
    }
    proof {
        assert(!contains_bytes(vecs_view(acc@), x@));
    }
    false
}

/// Exec scan to [`units_end`]: walks the chain of consecutive filename
/// lines starting at `v`.
fn units_end_x(s: &[u8], v: usize) -> (e: usize)
    requires
        v <= s@.len(),
    ensures
        e as int == units_end(s@, v as int),
        v <= e <= s@.len(),
{
    let mut e: usize = v;
    loop
        invariant
            v <= e <= s@.len(),
            units_end(s@, v as int) == units_end(s@, e as int),
        decreases s@.len() - e,
    {
        if e < s.len() && unit_at_b(s, e) {
            proof {
                lemma_unit_bounds(s@, e as int);
            }
            e = unit_end_x(s, e);
        } else {
            proof {
                assert(units_end(s@, e as int) == e as int);
            }
            return e;
        }
    }
}

/// Adds the extensions of one filename-list value to the accumulated
/// encoder list.
fn accumulate_encoders(value: &[u8], r: &mut Vec<Vec<u8>>)
    ensures
        vecs_view(final(r)@) == encoders_from(split_lines(value@), 0, vecs_view(old(r)@)),
{
    let ghost vseq = value@;
    let lines = split_lines_x(value);
    let mut i: usize = 0;
    while i < lines.len()
        invariant
            i <= lines@.len(),
            vecs_view(lines@) == split_lines(vseq),
            vseq == value@,
            encoders_from(split_lines(vseq), 0, vecs_view(old(r)@)) == encoders_from(
                split_lines(vseq),
                i as int,
                vecs_view(r@),
            ),
        decreases lines@.len() - i,
    {
        let ghost line = split_lines(vseq)[i as int];
        proof {
            assert(lines@[i as int]@ == line);
        }
        let t = trim_range(lines[i].as_slice(), 0, lines[i].len());
        proof {
            assert(lines@[i as int]@.subrange(0, lines@[i as int]@.len() as int) =~= line);
        }
        let e = ext_of_trimmed_x(&t, Ghost(line));
        if e.len() > 0 && !contains_bytes_x(r, &e) {
            let ghost pre = vecs_view(r@);
            r.push(e);
            proof {
                assert(vecs_view(r@) =~= pre.push(ext_of_line(line)));
                assert(vecs_view(r@) =~= add_encoder(pre, line));
            }
        } else {
            proof {
                assert(vecs_view(r@) =~= add_encoder(vecs_view(r@), line));
            }
        }
        i += 1;
    }
}

/// Exec evaluation of [`spec_audio_encoder`]: walks every filename list
/// of the text.
pub fn audio_encoder_x(s: &[u8]) -> (r: Vec<Vec<u8>>)
    ensures
        vecs_view(r@) == spec_audio_encoder(s@),
{
    let label = lit_fname();
    let mut r: Vec<Vec<u8>> = Vec::new();
    let mut i: usize = 0;
    proof {
        assert(vecs_view(r@) =~= Seq::<Seq<u8>>::empty());
    }
    loop
        invariant
            i <= s@.len(),
            label@ == ascii_bytes("filename"@),
            spec_audio_encoder(s@) == encoders_all_from(s@, i as int, vecs_view(r@)),
        decreases s@.len() - i,
    {
        if i >= s.len() {
            proof {
                assert(find_multi_from(s@, i as int) is None);
            }
            return r;
        }
        let mut matched = false;
        if ci_seq_at_b(s, i, label.as_slice()) {
            let n = s.len();
            assert(i + label@.len() <= n);
            let w = ws_end_x(s, i + label.len());
            if w < n && s[w] == 58 {
                let v = ws_end_x(s, w + 1);
                if unit_at_b(s, v) {
                    matched = true;
                    proof {
                        assert(multi_at(s@, i as int));
                        assert(find_multi_from(s@, i as int) == Option::Some(i as int));
                        lemma_multi_block_bounds(s@, i as int);
                        lemma_units_end_bounds(s@, v as int);
                    }
                    // walk the unit chain to the end of this list's value
                    let e = units_end_x(s, v);
                    proof {
                        assert(e == multi_val_end(s@, i as int));
                    }
                    let value = trim_range(s, v, e);
                    let ghost pre = vecs_view(r@);
                    accumulate_encoders(value.as_slice(), &mut r);
                    proof {
                        assert(vecs_view(r@) == encoders_from(
                            split_lines(trim(s@.subrange(v as int, e as int))),
                            0,
                            pre,
                        ));
                        assert(spec_audio_encoder(s@) == encoders_all_from(
                            s@,
                            e as int,
                            vecs_view(r@),
                        ));
                    }
                    i = e;
                }
            }
        }
        if !matched {
            proof {
                assert(!multi_at(s@, i as int));
                assert(find_multi_from(s@, i as int) == find_multi_from(s@, i + 1));
            }
            i += 1;
        }
    }
}

/// The non-empty trimmed lines from index `i` on.
pub open spec fn trimmed_tail_lines(lines: Seq<Seq<u8>>, i: int) -> Seq<Seq<u8>>
    decreases lines.len() - i,
{
    if !(0 <= i < lines.len()) {
        Seq::empty()
    } else {
        let t = trim(lines[i]);
        if t.len() > 0 {
            seq![t] + trimmed_tail_lines(lines, i + 1)
        } else {
            trimmed_tail_lines(lines, i + 1)
        }
    }
}

/// The filenames of a block: the first filename, then the further lines of
/// the filename list; empty when no first filename is found.
pub open spec fn spec_filenames(s: Seq<u8>) -> Seq<Seq<u8>> {
    let first = spec_first_filename(s);
    if first.len() == 0 {
        Seq::empty()
    } else {
        seq![first] + (match spec_multi_value(s) {
            Option::Some(v) => trimmed_tail_lines(split_lines(v), 1),
            Option::None => Seq::empty(),
        })
    }
}

/// Exec evaluation of [`spec_filenames`].
pub fn filenames_x(s: &[u8]) -> (r: Vec<Vec<u8>>)
    ensures
        vecs_view(r@) == spec_filenames(s@),
{
    let first = first_filename_x(s);
    if first.len() == 0 {
        let r: Vec<Vec<u8>> = Vec::new();
        proof {
            assert(vecs_view(r@) =~= spec_filenames(s@));
        }
        return r;
    }
    let mut r: Vec<Vec<u8>> = Vec::new();
    let ghost firstv = first@;
    r.push(first);
    let value = match multi_value_x(s) {
        Option::Some(v) => v,
        Option::None => {
            proof {
                assert(vecs_view(r@) =~= spec_filenames(s@));
            }
            return r;
        },
    };
    let ghost vseq = value@;
    let lines = split_lines_x(value.as_slice());
    let mut i: usize = 1;
    proof {
        assert(vecs_view(r@) =~= seq![firstv]);
        if split_lines(vseq).len() < 1 {
            assert(trimmed_tail_lines(split_lines(vseq), 1) =~= Seq::<Seq<u8>>::empty());
        }
        assert(vecs_view(r@) + trimmed_tail_lines(split_lines(vseq), 1) =~= spec_filenames(s@));
    }
    while i < lines.len()
        invariant
            1 <= i,
            i <= lines@.len() || lines@.len() < 1,
            vecs_view(lines@) == split_lines(vseq),
            spec_multi_value(s@) == Option::Some(vseq),
            spec_first_filename(s@) == firstv,
            firstv.len() > 0,
            vecs_view(r@) + trimmed_tail_lines(split_lines(vseq), i as int) == spec_filenames(
                s@,
            ),
        decreases lines@.len() - i,
    {
        let ghost line = split_lines(vseq)[i as int];
        proof {
            assert(lines@[i as int]@ == line);
        }
        let t = trim_range(lines[i].as_slice(), 0, lines[i].len());
        proof {
            assert(lines@[i as int]@.subrange(0, lines@[i as int]@.len() as int) =~= line);
        }
        if t.len() > 0 {
            let ghost pre = vecs_view(r@);
            r.push(t);
            proof {
                assert(vecs_view(r@) =~= pre.push(trim(line)));
                assert(vecs_view(r@) + trimmed_tail_lines(split_lines(vseq), i + 1)
                    =~= spec_filenames(s@));
            }
        } else {
            proof {
                assert(vecs_view(r@) + trimmed_tail_lines(split_lines(vseq), i + 1)
                    =~= spec_filenames(s@));
            }
        }
        i += 1;
    }
    proof {
        assert(vecs_view(r@) =~= spec_filenames(s@));
    }
    r
}

// ---------------------------------------------------------------------
// Position lists (damaged sectors, suspicious positions)
// ---------------------------------------------------------------------
/// Start of the parenthesised index of a position unit at `p`.
pub open spec fn pu_u(s: Seq<u8>, p: int) -> int {
    ws_end(s, p)
}

/// End of the index digits.
pub open spec fn pu_d1(s: Seq<u8>, p: int) -> int {
    digits_end(s, pu_u(s, p) + 1)
}

/// Start of the time of the unit.
pub open spec fn pu_v(s: Seq<u8>, p: int) -> int {
    ws_end(s, pu_d1(s, p) + 1)
}

/// End of the minutes digits.
pub open spec fn pu_t1(s: Seq<u8>, p: int) -> int {
    digits_end(s, pu_v(s, p))
}

/// End of the seconds digits.
pub open spec fn pu_t2(s: Seq<u8>, p: int) -> int {
    digits_end(s, pu_t1(s, p) + 1)
}

/// End of the centiseconds digits, and of the unit.
pub open spec fn pu_t3(s: Seq<u8>, p: int) -> int {
    digits_end(s, pu_t2(s, p) + 1)
}

/// A position unit matches at `p`: whitespace, `(index)`, whitespace, and
/// a `m:s:cs` time.
pub open spec fn pos_unit_at(s: Seq<u8>, p: int) -> bool {
    &&& 0 <= p <= s.len()
    &&& pu_u(s, p) < s.len()
    &&& s[pu_u(s, p)] == 40
    &&& pu_d1(s, p) > pu_u(s, p) + 1
    &&& pu_d1(s, p) < s.len()
    &&& s[pu_d1(s, p)] == 41
    &&& pu_t1(s, p) > pu_v(s, p)
    &&& pu_t1(s, p) < s.len()
    &&& s[pu_t1(s, p)] == 58
    &&& pu_t2(s, p) > pu_t1(s, p) + 1
    &&& pu_t2(s, p) < s.len()
    &&& s[pu_t2(s, p)] == 58
    &&& pu_t3(s, p) > pu_t2(s, p) + 1
}

/// Position bounds of a matched unit.
pub proof fn lemma_pos_unit_bounds(s: Seq<u8>, p: int)
    requires
        pos_unit_at(s, p),
    ensures
        p < pu_t3(s, p) <= s.len(),
        pu_v(s, p) < pu_t1(s, p),
{
    lemma_ws_end(s, p);
    lemma_digits_end(s, pu_u(s, p) + 1);
    lemma_ws_end(s, pu_d1(s, p) + 1);
    lemma_digits_end(s, pu_v(s, p));
    lemma_digits_end(s, pu_t1(s, p) + 1);
    lemma_digits_end(s, pu_t2(s, p) + 1);
}

/// The error range a unit denotes: its time as the start, zero length.
pub open spec fn pos_unit_range(s: Seq<u8>, p: int) -> TrackErrorRange {
    let m = digits_val(s.subrange(pu_v(s, p), pu_t1(s, p)));
    let sec = digits_val(s.subrange(pu_t1(s, p) + 1, pu_t2(s, p)));
    let c = digits_val(s.subrange(pu_t2(s, p) + 1, pu_t3(s, p)));
    TrackErrorRange {
        start: Time { centiframes: crate::toc::cf_from_mm_ss_cs(m, sec, c) },
        length: Time { centiframes: 0 },
    }
}

/// The ranges of the chain of consecutive units starting at `p`.
pub open spec fn pos_units_from(s: Seq<u8>, p: int) -> Seq<TrackErrorRange>
    decreases s.len() - p,
    via pos_units_from_decreases
{
    if pos_unit_at(s, p) {
        seq![pos_unit_range(s, p)] + pos_units_from(s, pu_t3(s, p))
    } else {
        Seq::empty()
    }
}

#[via_fn]
proof fn pos_units_from_decreases(s: Seq<u8>, p: int) {
    if pos_unit_at(s, p) {
        lemma_pos_unit_bounds(s, p);
    }
}

/// A position-list line matches at `i`: the label, whitespace, `:`, and at
/// least one unit.
pub open spec fn pos_list_at(s: Seq<u8>, label: Seq<u8>, i: int) -> bool {
    &&& seq_at(s, i, label)
    &&& {
        let w = ws_end(s, i + label.len());
        &&& w < s.len()
        &&& s[w] == 58
        &&& pos_unit_at(s, w + 1)
    }
}

/// The first position-list line at or after `i`.
pub open spec fn find_pos_list_from(s: Seq<u8>, label: Seq<u8>, i: int) -> Option<int>
    decreases s.len() - i,
{
    if !(0 <= i < s.len()) {
        Option::None
    } else if pos_list_at(s, label, i) {
        Option::Some(i)
    } else {
        find_pos_list_from(s, label, i + 1)
    }
}

/// The ranges listed by the first position-list line of a kind, empty when
/// none is present.
pub open spec fn spec_pos_list(s: Seq<u8>, label: Seq<u8>) -> Seq<TrackErrorRange> {
    match find_pos_list_from(s, label, 0) {
        Option::None => Seq::empty(),
        Option::Some(i) => pos_units_from(s, ws_end(s, i + label.len()) + 1),
    }
}

/// Exec test of [`pos_unit_at`].
fn pos_unit_at_b(s: &[u8], p: usize) -> (r: bool)
    requires
        p <= s@.len(),
    ensures
        r == pos_unit_at(s@, p as int),
{
    let n = s.len();
    let u = ws_end_x(s, p);
    if !(u < n && s[u] == 40) {
        return false;
    }
    let d1 = digits_end_x(s, u + 1);
    if !(d1 > u + 1 && d1 < n && s[d1] == 41) {
        return false;
    }
    let v = ws_end_x(s, d1 + 1);
    let t1 = digits_end_x(s, v);
    if !(t1 > v && t1 < n && s[t1] == 58) {
        return false;
    }
    let t2 = digits_end_x(s, t1 + 1);
    if !(t2 > t1 + 1 && t2 < n && s[t2] == 58) {
        return false;
    }
    let t3 = digits_end_x(s, t2 + 1);
    t3 > t2 + 1
}

/// Exec collection of the unit chain starting at `p`.
fn pos_units_x(s: &[u8], p: usize) -> (r: Vec<TrackErrorRange>)
    requires
        p <= s@.len(),
    ensures
        r@ == pos_units_from(s@, p as int),
{
    let mut r: Vec<TrackErrorRange> = Vec::new();
    let mut q: usize = p;
    proof {
        assert(r@ + pos_units_from(s@, p as int) =~= pos_units_from(s@, p as int));
    }
    while pos_unit_at_b(s, q)
        invariant
            q <= s@.len(),
            pos_units_from(s@, p as int) == r@ + pos_units_from(s@, q as int),
        decreases s@.len() - q,
    {
        proof {
            lemma_pos_unit_bounds(s@, q as int);
        }
        let n = s.len();
        let u = ws_end_x(s, q);
        let d1 = digits_end_x(s, u + 1);
        let v = ws_end_x(s, d1 + 1);
        let t1 = digits_end_x(s, v);
        let t2 = digits_end_x(s, t1 + 1);
        let t3 = digits_end_x(s, t2 + 1);
        proof {
            lemma_digits_end(s@, v as int);
            lemma_digits_end(s@, t1 + 1);
            lemma_digits_end(s@, t2 + 1);
        }
        let m = parse_digits_capped(s, v, t1, 0xffff_ffff);
        let sec = parse_digits_capped(s, t1 + 1, t2, 0xffff_ffff);
        let c = parse_digits_capped(s, t2 + 1, t3, 0xffff_ffff);
        let cf: u64 = match (m, sec, c) {
            (Option::Some(mv), Option::Some(sv), Option::Some(cv)) => (mv * 60 + sv) * 7500 + cv
                * 75,
            _ => 0,
        };
        r.push(
            TrackErrorRange {
                start: Time { centiframes: cf },
                length: Time { centiframes: 0 },
            },
        );
        proof {
            assert(r@.last() == pos_unit_range(s@, q as int));
            assert(r@ + pos_units_from(s@, pu_t3(s@, q as int)) =~= pos_units_from(
                s@,
                p as int,
            ));
        }
        q = t3;
    }
    r
}

/// The error tallies of one track block: the count of the last line of
/// each error kind, the listed damaged and suspicious positions, and
/// whether samples are missing.
pub open spec fn spec_track_error(raw: Seq<u8>) -> crate::types::TrackErrorV {
    crate::types::TrackErrorV {
        read: crate::types::TrackErrorDataV {
            count: spec_err_count(raw, ascii_bytes("Read error"@)),
            ranges: Seq::empty(),
        },
        skip: crate::types::TrackErrorDataV {
            count: spec_err_count(raw, ascii_bytes("Skipped (treated as error)"@)),
            ranges: Seq::empty(),
        },
        jitter_generic: crate::types::TrackErrorDataV {
            count: spec_err_count(raw, ascii_bytes("Jitter error (maybe fixed)"@)),
            ranges: Seq::empty(),
        },
        jitter_edge: crate::types::TrackErrorDataV {
            count: spec_err_count(raw, ascii_bytes("Edge jitter error (maybe fixed)"@)),
            ranges: Seq::empty(),
        },
        jitter_atom: crate::types::TrackErrorDataV {
            count: spec_err_count(raw, ascii_bytes("Atom jitter error (maybe fixed)"@)),
            ranges: Seq::empty(),
        },
        drift: crate::types::TrackErrorDataV {
            count: spec_err_count(raw, ascii_bytes("Drift error (maybe fixed)"@)),
            ranges: Seq::empty(),
        },
        dropped: crate::types::TrackErrorDataV {
            count: spec_err_count(raw, ascii_bytes("Dropped bytes error (maybe fixed)"@)),
            ranges: Seq::empty(),
        },
        duplicated: crate::types::TrackErrorDataV {
            count: spec_err_count(raw, ascii_bytes("Duplicated bytes error (maybe fixed)"@)),
            ranges: Seq::empty(),
        },
        damaged_sectors: crate::types::TrackErrorDataV {
            count: spec_err_count(raw, ascii_bytes("Damaged sector count"@)),
            ranges: spec_pos_list(raw, ascii_bytes("List of damaged sector positions"@)),
        },
        inconsistent_err_sectors: crate::types::TrackErrorDataV {
            count: spec_err_count(raw, ascii_bytes("Inconsistency in error sectors"@)),
            ranges: spec_pos_list(raw, ascii_bytes("List of suspicious positions"@)),
        },
        missing_samples: crate::types::TrackErrorDataV {
            count: if spec_err_present(raw, ascii_bytes("Missing samples"@)) {
                1
            } else {
                0
            },
            ranges: Seq::empty(),
        },
    }
}

/// One error label as bytes.
fn err_lit(lit: &str) -> (l: Vec<u8>)
    requires
        lit.is_ascii(),
    ensures
        l@ == ascii_bytes(lit@),
{
    lit_bytes(lit)
}

/// Exec extraction of the error tallies of a block.
pub fn extract_errors_x(raw: &[u8]) -> (r: TrackError)
    ensures
        r@ == spec_track_error(raw@),
{
    proof {
        reveal_strlit("Read error");
        reveal_strlit("Skipped (treated as error)");
        reveal_strlit("Jitter error (maybe fixed)");
        reveal_strlit("Edge jitter error (maybe fixed)");
        reveal_strlit("Atom jitter error (maybe fixed)");
        reveal_strlit("Drift error (maybe fixed)");
        reveal_strlit("Dropped bytes error (maybe fixed)");
        reveal_strlit("Duplicated bytes error (maybe fixed)");
        reveal_strlit("Damaged sector count");
        reveal_strlit("Inconsistency in error sectors");
        reveal_strlit("Missing samples");
        reveal_strlit("List of damaged sector positions");
        reveal_strlit("List of suspicious positions");
        assert("Read error".is_ascii());
        assert("Skipped (treated as error)".is_ascii());
        assert("Jitter error (maybe fixed)".is_ascii());
        assert("Edge jitter error (maybe fixed)".is_ascii());
        assert("Atom jitter error (maybe fixed)".is_ascii());
        assert("Drift error (maybe fixed)".is_ascii());
        assert("Dropped bytes error (maybe fixed)".is_ascii());
        assert("Duplicated bytes error (maybe fixed)".is_ascii());
        assert("Damaged sector count".is_ascii());
        assert("Inconsistency in error sectors".is_ascii());
        assert("Missing samples".is_ascii());
        assert("List of damaged sector positions".is_ascii());
        assert("List of suspicious positions".is_ascii());
    }
    let l_read = err_lit("Read error");
    let l_skip = err_lit("Skipped (treated as error)");
    let l_jg = err_lit("Jitter error (maybe fixed)");
    let l_je = err_lit("Edge jitter error (maybe fixed)");
    let l_ja = err_lit("Atom jitter error (maybe fixed)");
    let l_drf = err_lit("Drift error (maybe fixed)");
    let l_drp = err_lit("Dropped bytes error (maybe fixed)");
    let l_dup = err_lit("Duplicated bytes error (maybe fixed)");
    let l_dmg = err_lit("Damaged sector count");
    let l_inc = err_lit("Inconsistency in error sectors");
    let l_ms = err_lit("Missing samples");
    let l_dmg_list = err_lit("List of damaged sector positions");
    let l_sus_list = err_lit("List of suspicious positions");
    let r = TrackError {
        read: TrackErrorData::from_count(err_count_x(raw, l_read.as_slice())),
        skip: TrackErrorData::from_count(err_count_x(raw, l_skip.as_slice())),
        jitter_generic: TrackErrorData::from_count(err_count_x(raw, l_jg.as_slice())),
        jitter_edge: TrackErrorData::from_count(err_count_x(raw, l_je.as_slice())),
        jitter_atom: TrackErrorData::from_count(err_count_x(raw, l_ja.as_slice())),
        drift: TrackErrorData::from_count(err_count_x(raw, l_drf.as_slice())),
        dropped: TrackErrorData::from_count(err_count_x(raw, l_drp.as_slice())),
        duplicated: TrackErrorData::from_count(err_count_x(raw, l_dup.as_slice())),
        damaged_sectors: TrackErrorData::new(
            err_count_x(raw, l_dmg.as_slice()),
            pos_list_x(raw, l_dmg_list.as_slice()),
        ),
        inconsistent_err_sectors: TrackErrorData::new(
            err_count_x(raw, l_inc.as_slice()),
            pos_list_x(raw, l_sus_list.as_slice()),
        ),
        missing_samples: TrackErrorData::from_count(
            if err_present_x(raw, l_ms.as_slice()) {
                1
            } else {
                0
            },
        ),
    };
    proof {
        assert(r@.read.ranges =~= Seq::<TrackErrorRange>::empty());
        assert(r@.skip.ranges =~= Seq::<TrackErrorRange>::empty());
        assert(r@.jitter_generic.ranges =~= Seq::<TrackErrorRange>::empty());
        assert(r@.jitter_edge.ranges =~= Seq::<TrackErrorRange>::empty());
        assert(r@.jitter_atom.ranges =~= Seq::<TrackErrorRange>::empty());
        assert(r@.drift.ranges =~= Seq::<TrackErrorRange>::empty());
        assert(r@.dropped.ranges =~= Seq::<TrackErrorRange>::empty());
        assert(r@.duplicated.ranges =~= Seq::<TrackErrorRange>::empty());
        assert(r@.missing_samples.ranges =~= Seq::<TrackErrorRange>::empty());
    }
    r
}

/// The full reading of one track block.
pub open spec fn spec_track_entry(raw: Seq<u8>, is_range: bool) -> crate::types::TrackEntryV {
    crate::types::TrackEntryV {
        num: spec_track_num(raw),
        is_range: is_range,
        aborted: false,
        filenames: spec_filenames(raw),
        peak_level: spec_peak(raw),
        pregap_length: match spec_pregap(raw) {
            Option::Some(cf) => Option::Some(Time { centiframes: cf }),
            Option::None => Option::None,
        },
        extraction_speed: Option::None,
        gain: Option::None,
        preemphasis: Quartet::Unknown,
        test_and_copy: crate::types::TestAndCopyV {
            test_hash: spec_crc(raw, ascii_bytes("CRC32 hash (test run)"@)),
            copy_hash: spec_crc(raw, ascii_bytes("CRC32 hash"@)),
            integrity: crate::types::spec_test_and_copy_integrity(
                spec_crc(raw, ascii_bytes("CRC32 hash (test run)"@)),
                spec_crc(raw, ascii_bytes("CRC32 hash"@)),
            ),
        },
        errors: spec_track_error(raw),
        ar_info: crate::ar::spec_ar_info(raw),
    }
}

/// One track block of a log and whether the log rips a whole range.
pub struct XldParserTrack {
    pub is_range: bool,
    pub raw: Vec<u8>,
}

impl XldParserTrack {
    /// A track block over its text.
    pub fn new(is_range: bool, raw: Vec<u8>) -> (r: XldParserTrack)
        ensures
            r.is_range == is_range,
            r.raw == raw,
    {
        XldParserTrack { is_range, raw }
    }

    /// Reads every field of the block.
    pub fn parse_track(&self) -> (r: crate::types::TrackEntry)
        ensures
            r@ == spec_track_entry(self.raw@, self.is_range),
    {
        proof {
            reveal_strlit("CRC32 hash (test run)");
            reveal_strlit("CRC32 hash");
            assert("CRC32 hash (test run)".is_ascii());
            assert("CRC32 hash".is_ascii());
        }
        let l_test = lit_bytes("CRC32 hash (test run)");
        let l_copy = lit_bytes("CRC32 hash");
        let s = self.raw.as_slice();
        let filenames = filenames_x(s);
        let ar_info = crate::ar::extract_ar_info_x(s);
        let r = crate::types::TrackEntry {
            num: track_num_x(s),
            is_range: self.is_range,
            aborted: false,
            filenames,
            peak_level: peak_x(s),
            pregap_length: pregap_x(s),
            extraction_speed: Option::None,
            gain: Option::None,
            preemphasis: Quartet::Unknown,
            test_and_copy: TestAndCopy::new_no_skipzero(
                crc_x(s, l_test.as_slice()),
                crc_x(s, l_copy.as_slice()),
            ),
            errors: extract_errors_x(s),
            ar_info,
        };
        proof {
            assert(r@.filenames =~= spec_filenames(self.raw@));
            assert(r@.ar_info =~= crate::ar::spec_ar_info(self.raw@));
            assert(r@ == spec_track_entry(self.raw@, self.is_range));
        }
        r
    }
}

/// Exec evaluation of [`spec_pos_list`].
pub fn pos_list_x(s: &[u8], label: &[u8]) -> (r: Vec<TrackErrorRange>)
    ensures
        r@ == spec_pos_list(s@, label@),
{
    let mut i: usize = 0;
    while i < s.len()
        invariant
            i <= s@.len(),
            find_pos_list_from(s@, label@, 0) == find_pos_list_from(s@, label@, i as int),
        decreases s@.len() - i,
    {
        if seq_at_b(s, i, label) {
            let n = s.len();
            assert(i + label@.len() <= n);
            let w = ws_end_x(s, i + label.len());
            if w < n && s[w] == 58 && pos_unit_at_b(s, w + 1) {
                return pos_units_x(s, w + 1);
            }
        }
        proof {
            assert(!pos_list_at(s@, label@, i as int));
        }
        i += 1;
    }
    Vec::new()
}

} // verus!
