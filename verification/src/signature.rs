//! The XLD authenticity signature: locating the embedded signature block,
//! stripping it from the log body, and computing the signature string a log
//! body should carry.
//!
//! The signature string is the custom-alphabet base64 form of the scrambled
//! concatenation of the uppercase hex digest (SHA-256 from XLD's initial
//! state) and a version marker line.
use vstd::prelude::*;
use crate::b64::{b64_encode, encode_custom_b64};
use crate::sha256::{hex_upper, sha256_of, Sha256Custom, Sha256State};
use crate::textscan::{
    ascii_bytes, line_end, line_end_x, lit_bytes, seq_at, seq_at_b, trim, trim_range, copy_range,
};

verus! {

/// The line that opens a signature block, with the line feeds around it.
pub open spec fn begin_mark() -> Seq<u8> {
    ascii_bytes("\n-----BEGIN XLD SIGNATURE-----\n"@)
}

/// The line that closes a signature block, with the line feed before it.
pub open spec fn end_mark() -> Seq<u8> {
    ascii_bytes("\n-----END XLD SIGNATURE-----"@)
}

/// A signature block matches at `i`: the opening line, a non-empty
/// signature line, and the closing line.
pub open spec fn sig_at(s: Seq<u8>, i: int) -> bool {
    &&& seq_at(s, i, begin_mark())
    &&& {
        let cs = i + begin_mark().len();
        let ce = line_end(s, cs);
        &&& ce > cs
        &&& seq_at(s, ce, end_mark())
    }
}

/// Where the signature line of a block matching at `i` starts.
pub open spec fn sig_cap_start(s: Seq<u8>, i: int) -> int {
    i + begin_mark().len()
}

/// The position just past a block matching at `i`.
pub open spec fn sig_end(s: Seq<u8>, i: int) -> int {
    line_end(s, sig_cap_start(s, i)) + end_mark().len()
}

/// The first signature block at or after `i`.
pub open spec fn find_sig_from(s: Seq<u8>, i: int) -> Option<int>
    decreases s.len() - i,
{
    if !(0 <= i < s.len()) {
        Option::None
    } else if sig_at(s, i) {
        Option::Some(i)
    } else {
        find_sig_from(s, i + 1)
    }
}

/// What a found signature block satisfies.
pub proof fn lemma_find_sig_from_sound(s: Seq<u8>, i: int)
    ensures
        match find_sig_from(s, i) {
            Option::Some(j) => i <= j < s.len() && sig_at(s, j),
            Option::None => true,
        },
    decreases s.len() - i,
{
    if 0 <= i < s.len() && !sig_at(s, i) {
        lemma_find_sig_from_sound(s, i + 1);
    }
}

/// The embedded signature string: the trimmed signature line of the first
/// block, or empty when the log carries no block.
pub open spec fn spec_embedded_sig(s: Seq<u8>) -> Seq<u8> {
    match find_sig_from(s, 0) {
        Option::Some(j) => trim(s.subrange(sig_cap_start(s, j), line_end(s, sig_cap_start(s, j)))),
        Option::None => Seq::empty(),
    }
}

/// The log with every signature block removed, scanning from `i`.
pub open spec fn strip_from(s: Seq<u8>, i: int) -> Seq<u8>
    decreases s.len() - i,
    via strip_from_decreases
{
    if !(0 <= i <= s.len()) {
        Seq::empty()
    } else {
        match find_sig_from(s, i) {
            Option::None => s.subrange(i, s.len() as int),
            Option::Some(j) => s.subrange(i, j) + strip_from(s, sig_end(s, j)),
        }
    }
}

#[via_fn]
proof fn strip_from_decreases(s: Seq<u8>, i: int) {
    if 0 <= i <= s.len() {
        lemma_find_sig_from_sound(s, i);
        if let Option::Some(j) = find_sig_from(s, i) {
            crate::textscan::lemma_line_end(s, sig_cap_start(s, j));
        }
    }
}

/// The log with every signature block removed, as the signature is
/// computed over it.
pub open spec fn strip_sigs(s: Seq<u8>) -> Seq<u8> {
    strip_from(s, 0)
}

/// Stripping never lengthens the log.
pub proof fn lemma_strip_from_len(s: Seq<u8>, i: int)
    requires
        0 <= i <= s.len(),
    ensures
        strip_from(s, i).len() <= s.len() - i,
    decreases s.len() - i,
{
    lemma_find_sig_from_sound(s, i);
    if let Option::Some(j) = find_sig_from(s, i) {
        crate::textscan::lemma_line_end(s, sig_cap_start(s, j));
        lemma_strip_from_len(s, sig_end(s, j));
    }
}

/// The byte form of the opening line.
pub fn begin_mark_x() -> (r: Vec<u8>)
    ensures
        r@ == begin_mark(),
{
    let lit = "\n-----BEGIN XLD SIGNATURE-----\n";
    proof {
        reveal_strlit("\n-----BEGIN XLD SIGNATURE-----\n");
        assert(lit.is_ascii());
    }
    lit_bytes(lit)
}

/// The byte form of the closing line.
pub fn end_mark_x() -> (r: Vec<u8>)
    ensures
        r@ == end_mark(),
{
    let lit = "\n-----END XLD SIGNATURE-----";
    proof {
        reveal_strlit("\n-----END XLD SIGNATURE-----");
        assert(lit.is_ascii());
    }
    lit_bytes(lit)
}

/// Exec search for the first signature block at or after `from`: the block
/// start, the signature line bounds, and the block end.
pub fn find_sig_x(s: &[u8], from: usize) -> (r: Option<(usize, usize, usize, usize)>)
    requires
        from <= s@.len(),
    ensures
        match r {
            Option::Some((j, cs, ce, e)) => {
                &&& find_sig_from(s@, from as int) == Option::Some(j as int)
                &&& cs == sig_cap_start(s@, j as int)
                &&& ce == line_end(s@, cs as int)
                &&& e == sig_end(s@, j as int)
                &&& from <= j <= cs < ce <= e <= s@.len()
            },
            Option::None => find_sig_from(s@, from as int) is None,
        },
{
    let begin_v = begin_mark_x();
    let end_v = end_mark_x();
    let n = s.len();
    let mut i: usize = from;
    while i < n
        invariant
            from <= i <= n,
            n == s@.len(),
            begin_v@ == begin_mark(),
            end_v@ == end_mark(),
            find_sig_from(s@, from as int) == find_sig_from(s@, i as int),
        decreases n - i,
    {
        if seq_at_b(s, i, begin_v.as_slice()) {
            let cs = i + begin_v.len();
            let ce = line_end_x(s, cs);
            if ce > cs && seq_at_b(s, ce, end_v.as_slice()) {
                let e = ce + end_v.len();
                return Option::Some((i, cs, ce, e));
            }
        }
        proof {
            assert(!sig_at(s@, i as int));
        }
        i += 1;
    }
    Option::None
}

/// The embedded signature string of a log, empty when it carries none.
pub fn embedded_sig_x(s: &[u8]) -> (r: Vec<u8>)
    ensures
        r@ == spec_embedded_sig(s@),
{
    match find_sig_x(s, 0) {
        Option::Some((_j, cs, ce, _e)) => trim_range(s, cs, ce),
        Option::None => Vec::new(),
    }
}

/// The log with every signature block removed.
pub fn strip_sigs_x(s: &[u8]) -> (r: Vec<u8>)
    ensures
        r@ == strip_sigs(s@),
        r@.len() <= s@.len(),
{
    let n = s.len();
    let mut out: Vec<u8> = Vec::new();
    let mut i: usize = 0;
    proof {
        lemma_strip_from_len(s@, 0);
    }
    loop
        invariant
            i <= n,
            n == s@.len(),
            strip_from(s@, 0) == out@ + strip_from(s@, i as int),
            out@.len() <= i,
        decreases n - i,
    {
        match find_sig_x(s, i) {
            Option::Some((j, cs, ce, e)) => {
                let mut part = copy_range(s, i, j);
                out.append(&mut part);
                proof {
                    lemma_strip_from_len(s@, e as int);
                    assert(strip_from(s@, i as int) == s@.subrange(i as int, j as int)
                        + strip_from(s@, e as int));
                    assert(out@ + strip_from(s@, e as int) =~= strip_from(s@, 0));
                }
                i = e;
            },
            Option::None => {
                let mut part = copy_range(s, i, n);
                out.append(&mut part);
                proof {
                    assert(strip_from(s@, i as int) == s@.subrange(i as int, n as int));
                    assert(out@ =~= strip_from(s@, 0));
                }
                return out;
            },
        }
    }
}

/// The fixed 16-byte key the scramble pass repeats over its input.
pub open spec fn scramble_key(i: int) -> u8 {
    if i == 0 { 0xa7 } else if i == 1 { 0x3c } else if i == 2 { 0x5e } else if i == 3 { 0x91 }
    else if i == 4 { 0x0f } else if i == 5 { 0xd2 } else if i == 6 { 0x68 } else if i == 7 { 0xb4 }
    else if i == 8 { 0x29 } else if i == 9 { 0xe5 } else if i == 10 { 0x7a } else if i == 11 { 0x1c }
    else if i == 12 { 0xc3 } else if i == 13 { 0x56 } else if i == 14 { 0x8d } else { 0x3f }
}

/// The scramble pass: every byte XOR-ed with the key byte at its position
/// modulo the key length.  It is deterministic, keeps the length, and is an
/// involution.
pub open spec fn scramble_seq(s: Seq<u8>) -> Seq<u8> {
    Seq::new(s.len(), |i: int| s[i] ^ scramble_key(i % 16))
}

/// Scrambling twice gives the input back.
pub proof fn lemma_scramble_involutive(s: Seq<u8>)
    ensures
        scramble_seq(scramble_seq(s)) == s,
{
    assert forall|i: int| 0 <= i < s.len() implies scramble_seq(scramble_seq(s))[i] == s[i] by {
        let k = scramble_key(i % 16);
        let x = s[i];
        assert((x ^ k) ^ k == x) by (bit_vector);
    };
    assert(scramble_seq(scramble_seq(s)) =~= s);
}

/// Exec lookup of [`scramble_key`].
fn scramble_key_x(i: usize) -> (r: u8)
    requires
        i < 16,
    ensures
        r == scramble_key(i as int),
{
    if i == 0 { 0xa7 } else if i == 1 { 0x3c } else if i == 2 { 0x5e } else if i == 3 { 0x91 }
    else if i == 4 { 0x0f } else if i == 5 { 0xd2 } else if i == 6 { 0x68 } else if i == 7 { 0xb4 }
    else if i == 8 { 0x29 } else if i == 9 { 0xe5 } else if i == 10 { 0x7a } else if i == 11 { 0x1c }
    else if i == 12 { 0xc3 } else if i == 13 { 0x56 } else if i == 14 { 0x8d } else { 0x3f }
}

/// Exec scramble pass.
pub fn scramble_x(data: &[u8]) -> (r: Vec<u8>)
    ensures
        r@ == scramble_seq(data@),
{
    let mut r: Vec<u8> = Vec::new();
    let mut i: usize = 0;
    while i < data.len()
        invariant
            i <= data@.len(),
            r@.len() == i,
            forall|k: int| 0 <= k < i ==> r@[k] == data@[k] ^ scramble_key(k % 16),
        decreases data@.len() - i,
    {
        r.push(data[i] ^ scramble_key_x(i % 16));
        i += 1;
    }
    proof {
        assert(r@ =~= scramble_seq(data@));
    }
    r
}

/// The eight initial state words XLD runs SHA-256 from.
pub open spec fn xld_iv() -> Sha256State {
    Sha256State {
        a: 0x1d95e3a4,
        b: 0x06520ef5,
        c: 0x3a9cfb75,
        d: 0x6104bcae,
        e: 0x09ceda82,
        f: 0xba55e60b,
        g: 0xeaec16c6,
        h: 0xeb19af15,
    }
}

/// The version marker appended to the hex digest before scrambling.
pub open spec fn version_marker() -> Seq<u8> {
    ascii_bytes("\nVersion=0001"@)
}

/// The signature string a log body should carry: custom base64 of the
/// scrambled hex digest plus version marker.
pub open spec fn xld_signature_of(body: Seq<u8>) -> Seq<u8>
    recommends
        body.len() < 0x2000000000000000,
{
    b64_encode(scramble_seq(hex_upper(sha256_of(xld_iv(), body)) + version_marker()))
}

/// Exec computation of the signature string over a log body.
pub fn xld_signature_x(body: &Vec<u8>) -> (r: Vec<u8>)
    requires
        body@.len() < 0x10000000,
    ensures
        r@ == xld_signature_of(body@),
        r@.len() > 0,
{
    let hasher = Sha256Custom {
        state: Sha256State {
            a: 0x1d95e3a4,
            b: 0x06520ef5,
            c: 0x3a9cfb75,
            d: 0x6104bcae,
            e: 0x09ceda82,
            f: 0xba55e60b,
            g: 0xeaec16c6,
            h: 0xeb19af15,
        },
    };
    let mut hexd = hasher.encrypt(body);
    let marker_lit = "\nVersion=0001";
    proof {
        reveal_strlit("\nVersion=0001");
        assert(marker_lit.is_ascii());
    }
    let mut marker = lit_bytes(marker_lit);
    hexd.append(&mut marker);
    proof {
        assert(hexd@ =~= hex_upper(sha256_of(xld_iv(), body@)) + version_marker());
    }
    let scrambled = scramble_x(hexd.as_slice());
    let r = encode_custom_b64(scrambled.as_slice());
    proof {
        assert(scrambled@.len() >= 64);
        assert(r@.len() > 0);
    }
    r
}

/// The signature string over any body is non-empty.
pub proof fn lemma_signature_nonempty(body: Seq<u8>)
    ensures
        xld_signature_of(body).len() > 0,
{
    let digest = sha256_of(xld_iv(), body);
    assert(digest.len() == 32);
    crate::sha256::lemma_hex_upper_len(digest);
    let scrambled = scramble_seq(hex_upper(digest) + version_marker());
    assert(scrambled.len() >= 64);
    assert(b64_encode(scrambled).len() > 0);
}

} // verus!
