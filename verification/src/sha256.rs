//! SHA-256 with a caller-supplied initial state.
//!
//! The compression function, padding and length encoding are the standard
//! ones; only the eight initial state words are a parameter, because the
//! XLD signature scheme runs the algorithm from a non-standard initial
//! state.  With [`STANDARD_IV`] the function is plain SHA-256.
use vstd::prelude::*;
use vstd::wrapping::u32_specs;

verus! {

/// The eight working words of the hash state.
#[derive(Debug, Clone, Copy, PartialEq, Eq, Structural)]
pub struct Sha256State {
    pub a: u32,
    pub b: u32,
    pub c: u32,
    pub d: u32,
    pub e: u32,
    pub f: u32,
    pub g: u32,
    pub h: u32,
}

/// Modular 32-bit addition.
pub open spec fn add32(x: u32, y: u32) -> u32 {
    u32_specs::wrapping_add(x, y)
}

/// Right rotation of a 32-bit word.
pub open spec fn rotr(x: u32, n: u32) -> u32
    recommends
        0 < n < 32,
{
    (x >> n) | (x << ((32 - n) as u32))
}

/// The round constant for round `t` of the compression function.
pub open spec fn sha_k(t: int) -> u32 {
    if t == 0 { 0x428a2f98 } else if t == 1 { 0x71374491 } else if t == 2 { 0xb5c0fbcf }
    else if t == 3 { 0xe9b5dba5 } else if t == 4 { 0x3956c25b } else if t == 5 { 0x59f111f1 }
    else if t == 6 { 0x923f82a4 } else if t == 7 { 0xab1c5ed5 } else if t == 8 { 0xd807aa98 }
    else if t == 9 { 0x12835b01 } else if t == 10 { 0x243185be } else if t == 11 { 0x550c7dc3 }
    else if t == 12 { 0x72be5d74 } else if t == 13 { 0x80deb1fe } else if t == 14 { 0x9bdc06a7 }
    else if t == 15 { 0xc19bf174 } else if t == 16 { 0xe49b69c1 } else if t == 17 { 0xefbe4786 }
    else if t == 18 { 0x0fc19dc6 } else if t == 19 { 0x240ca1cc } else if t == 20 { 0x2de92c6f }
    else if t == 21 { 0x4a7484aa } else if t == 22 { 0x5cb0a9dc } else if t == 23 { 0x76f988da }
    else if t == 24 { 0x983e5152 } else if t == 25 { 0xa831c66d } else if t == 26 { 0xb00327c8 }
    else if t == 27 { 0xbf597fc7 } else if t == 28 { 0xc6e00bf3 } else if t == 29 { 0xd5a79147 }
    else if t == 30 { 0x06ca6351 } else if t == 31 { 0x14292967 } else if t == 32 { 0x27b70a85 }
    else if t == 33 { 0x2e1b2138 } else if t == 34 { 0x4d2c6dfc } else if t == 35 { 0x53380d13 }
    else if t == 36 { 0x650a7354 } else if t == 37 { 0x766a0abb } else if t == 38 { 0x81c2c92e }
    else if t == 39 { 0x92722c85 } else if t == 40 { 0xa2bfe8a1 } else if t == 41 { 0xa81a664b }
    else if t == 42 { 0xc24b8b70 } else if t == 43 { 0xc76c51a3 } else if t == 44 { 0xd192e819 }
    else if t == 45 { 0xd6990624 } else if t == 46 { 0xf40e3585 } else if t == 47 { 0x106aa070 }
    else if t == 48 { 0x19a4c116 } else if t == 49 { 0x1e376c08 } else if t == 50 { 0x2748774c }
    else if t == 51 { 0x34b0bcb5 } else if t == 52 { 0x391c0cb3 } else if t == 53 { 0x4ed8aa4a }
    else if t == 54 { 0x5b9cca4f } else if t == 55 { 0x682e6ff3 } else if t == 56 { 0x748f82ee }
    else if t == 57 { 0x78a5636f } else if t == 58 { 0x84c87814 } else if t == 59 { 0x8cc70208 }
    else if t == 60 { 0x90befffa } else if t == 61 { 0xa4506ceb } else if t == 62 { 0xbef9a3f7 }
    else { 0xc67178f2 }
}

/// Exec lookup of [`sha_k`].
fn sha_k_x(t: usize) -> (r: u32)
    requires
        t < 64,
    ensures
        r == sha_k(t as int),
{
    if t == 0 { 0x428a2f98 } else if t == 1 { 0x71374491 } else if t == 2 { 0xb5c0fbcf }
    else if t == 3 { 0xe9b5dba5 } else if t == 4 { 0x3956c25b } else if t == 5 { 0x59f111f1 }
    else if t == 6 { 0x923f82a4 } else if t == 7 { 0xab1c5ed5 } else if t == 8 { 0xd807aa98 }
    else if t == 9 { 0x12835b01 } else if t == 10 { 0x243185be } else if t == 11 { 0x550c7dc3 }
    else if t == 12 { 0x72be5d74 } else if t == 13 { 0x80deb1fe } else if t == 14 { 0x9bdc06a7 }
    else if t == 15 { 0xc19bf174 } else if t == 16 { 0xe49b69c1 } else if t == 17 { 0xefbe4786 }
    else if t == 18 { 0x0fc19dc6 } else if t == 19 { 0x240ca1cc } else if t == 20 { 0x2de92c6f }
    else if t == 21 { 0x4a7484aa } else if t == 22 { 0x5cb0a9dc } else if t == 23 { 0x76f988da }
    else if t == 24 { 0x983e5152 } else if t == 25 { 0xa831c66d } else if t == 26 { 0xb00327c8 }
    else if t == 27 { 0xbf597fc7 } else if t == 28 { 0xc6e00bf3 } else if t == 29 { 0xd5a79147 }
    else if t == 30 { 0x06ca6351 } else if t == 31 { 0x14292967 } else if t == 32 { 0x27b70a85 }
    else if t == 33 { 0x2e1b2138 } else if t == 34 { 0x4d2c6dfc } else if t == 35 { 0x53380d13 }
    else if t == 36 { 0x650a7354 } else if t == 37 { 0x766a0abb } else if t == 38 { 0x81c2c92e }
    else if t == 39 { 0x92722c85 } else if t == 40 { 0xa2bfe8a1 } else if t == 41 { 0xa81a664b }
    else if t == 42 { 0xc24b8b70 } else if t == 43 { 0xc76c51a3 } else if t == 44 { 0xd192e819 }
    else if t == 45 { 0xd6990624 } else if t == 46 { 0xf40e3585 } else if t == 47 { 0x106aa070 }
    else if t == 48 { 0x19a4c116 } else if t == 49 { 0x1e376c08 } else if t == 50 { 0x2748774c }
    else if t == 51 { 0x34b0bcb5 } else if t == 52 { 0x391c0cb3 } else if t == 53 { 0x4ed8aa4a }
    else if t == 54 { 0x5b9cca4f } else if t == 55 { 0x682e6ff3 } else if t == 56 { 0x748f82ee }
    else if t == 57 { 0x78a5636f } else if t == 58 { 0x84c87814 } else if t == 59 { 0x8cc70208 }
    else if t == 60 { 0x90befffa } else if t == 61 { 0xa4506ceb } else if t == 62 { 0xbef9a3f7 }
    else { 0xc67178f2 }
}

/// The small sigma-0 message schedule function.
pub open spec fn ssig0(x: u32) -> u32 {
    rotr(x, 7) ^ rotr(x, 18) ^ (x >> 3)
}

/// The small sigma-1 message schedule function.
pub open spec fn ssig1(x: u32) -> u32 {
    rotr(x, 17) ^ rotr(x, 19) ^ (x >> 10)
}

/// The big sigma-0 round function.
pub open spec fn bsig0(x: u32) -> u32 {
    rotr(x, 2) ^ rotr(x, 13) ^ rotr(x, 22)
}

/// The big sigma-1 round function.
pub open spec fn bsig1(x: u32) -> u32 {
    rotr(x, 6) ^ rotr(x, 11) ^ rotr(x, 25)
}

/// The choice function of the round.
pub open spec fn ch(e: u32, f: u32, g: u32) -> u32 {
    (e & f) ^ (!e & g)
}

/// The majority function of the round.
pub open spec fn maj(a: u32, b: u32, c: u32) -> u32 {
    (a & b) ^ (a & c) ^ (b & c)
}

/// Number of zero bytes the padding inserts for a message of `len` bytes.
pub open spec fn pad_zero_count(len: nat) -> nat {
    if len % 64 <= 55 {
        (55 - len % 64) as nat
    } else {
        (119 - len % 64) as nat
    }
}

/// The 8-byte big-endian encoding of the bit length of a message of `len`
/// bytes.
pub open spec fn len_bytes(len: nat) -> Seq<u8> {
    let bits = (8 * len) as u64;
    seq![
        (((bits >> 56) & 0xff) as u8),
        (((bits >> 48) & 0xff) as u8),
        (((bits >> 40) & 0xff) as u8),
        (((bits >> 32) & 0xff) as u8),
        (((bits >> 24) & 0xff) as u8),
        (((bits >> 16) & 0xff) as u8),
        (((bits >> 8) & 0xff) as u8),
        ((bits & 0xff) as u8),
    ]
}

/// The padded message: the message, a `0x80` byte, zeros to 56 modulo 64,
/// and the bit length.
pub open spec fn padded(m: Seq<u8>) -> Seq<u8>
    recommends
        m.len() < 0x2000000000000000,
{
    m + seq![0x80u8] + Seq::new(pad_zero_count(m.len()), |i: int| 0u8) + len_bytes(m.len())
}

/// Word `t` of block `b` of the padded message, big-endian.
pub open spec fn msg_word(p: Seq<u8>, b: int, t: int) -> u32 {
    let i = 64 * b + 4 * t;
    ((p[i] as u32) << 24) | ((p[i + 1] as u32) << 16) | ((p[i + 2] as u32) << 8) | (p[i + 3] as u32)
}

/// Entry `t` of the message schedule of block `b`.
pub open spec fn sched(p: Seq<u8>, b: int, t: int) -> u32
    decreases t,
{
    if t < 16 {
        msg_word(p, b, t)
    } else {
        add32(
            add32(ssig1(sched(p, b, t - 2)), sched(p, b, t - 7)),
            add32(ssig0(sched(p, b, t - 15)), sched(p, b, t - 16)),
        )
    }
}

/// One round of the compression function.
pub open spec fn round_step(st: Sha256State, wt: u32, kt: u32) -> Sha256State {
    let t1 = add32(add32(add32(st.h, bsig1(st.e)), add32(ch(st.e, st.f, st.g), wt)), kt);
    let t2 = add32(bsig0(st.a), maj(st.a, st.b, st.c));
    Sha256State {
        a: add32(t1, t2),
        b: st.a,
        c: st.b,
        d: st.c,
        e: add32(st.d, t1),
        f: st.e,
        g: st.f,
        h: st.g,
    }
}

/// The state after the first `t` rounds of block `b`, starting from `st`.
pub open spec fn rounds(p: Seq<u8>, b: int, st: Sha256State, t: int) -> Sha256State
    decreases t,
{
    if t <= 0 {
        st
    } else {
        round_step(rounds(p, b, st, t - 1), sched(p, b, t - 1), sha_k(t - 1))
    }
}

/// The state after compressing block `b` into `st`.
pub open spec fn block_out(p: Seq<u8>, b: int, st: Sha256State) -> Sha256State {
    let r = rounds(p, b, st, 64);
    Sha256State {
        a: add32(st.a, r.a),
        b: add32(st.b, r.b),
        c: add32(st.c, r.c),
        d: add32(st.d, r.d),
        e: add32(st.e, r.e),
        f: add32(st.f, r.f),
        g: add32(st.g, r.g),
        h: add32(st.h, r.h),
    }
}

/// The state after compressing the first `n` blocks of the padded message
/// into the initial state `iv`.
pub open spec fn state_after(p: Seq<u8>, n: int, iv: Sha256State) -> Sha256State
    decreases n,
{
    if n <= 0 {
        iv
    } else {
        block_out(p, n - 1, state_after(p, n - 1, iv))
    }
}

/// The big-endian bytes of one state word.
pub open spec fn word_bytes(x: u32) -> Seq<u8> {
    seq![
        (((x >> 24) & 0xff) as u8),
        (((x >> 16) & 0xff) as u8),
        (((x >> 8) & 0xff) as u8),
        ((x & 0xff) as u8),
    ]
}

/// The 32 digest bytes of a state.
pub open spec fn state_bytes(st: Sha256State) -> Seq<u8> {
    word_bytes(st.a) + word_bytes(st.b) + word_bytes(st.c) + word_bytes(st.d) + word_bytes(st.e)
        + word_bytes(st.f) + word_bytes(st.g) + word_bytes(st.h)
}

/// The digest of `m` under SHA-256 run from the initial state `iv`.
pub open spec fn sha256_of(iv: Sha256State, m: Seq<u8>) -> Seq<u8>
    recommends
        m.len() < 0x2000000000000000,
{
    let p = padded(m);
    state_bytes(state_after(p, p.len() as int / 64, iv))
}

/// The uppercase hexadecimal digit for a value below 16.
pub open spec fn hex_digit(v: u8) -> u8
    recommends
        v < 16,
{
    if v < 10 {
        (48 + v) as u8
    } else {
        (65 + (v - 10)) as u8
    }
}

/// Uppercase hexadecimal encoding, two digits per byte.
pub open spec fn hex_upper(s: Seq<u8>) -> Seq<u8>
    decreases s.len(),
{
    if s.len() == 0 {
        Seq::empty()
    } else {
        seq![hex_digit(s[0] >> 4), hex_digit(s[0] & 15)] + hex_upper(s.skip(1))
    }
}

/// Exec uppercase hexadecimal encoding.
pub fn hex_upper_x(data: &[u8]) -> (r: Vec<u8>)
    ensures
        r@ == hex_upper(data@),
        r@.len() == 2 * data@.len(),
{
    let mut r: Vec<u8> = Vec::new();
    let mut i: usize = 0;
    proof {
        assert(data@.skip(0) =~= data@);
        assert(r@ + hex_upper(data@) =~= hex_upper(data@));
        lemma_hex_upper_len(data@);
    }
    while i < data.len()
        invariant
            i <= data@.len(),
            hex_upper(data@) == r@ + hex_upper(data@.skip(i as int)),
            r@.len() == 2 * i,
        decreases data@.len() - i,
    {
        let b = data[i];
        assert(b >> 4 < 16 && b & 15 < 16) by (bit_vector);
        let hi = if (b >> 4) < 10 {
            48 + (b >> 4)
        } else {
            65 + ((b >> 4) - 10)
        };
        let lo = if (b & 15) < 10 {
            48 + (b & 15)
        } else {
            65 + ((b & 15) - 10)
        };
        r.push(hi);
        r.push(lo);
        proof {
            let rem = data@.skip(i as int);
            assert(rem[0] == data@[i as int]);
            assert(rem.skip(1) =~= data@.skip(i + 1));
            assert(hex_upper(data@) =~= r@ + hex_upper(data@.skip(i + 1)));
        }
        i += 1;
    }
    proof {
        assert(data@.skip(data@.len() as int) =~= Seq::<u8>::empty());
        assert(r@ =~= hex_upper(data@));
    }
    r
}

pub proof fn lemma_hex_upper_len(s: Seq<u8>)
    ensures
        hex_upper(s).len() == 2 * s.len(),
    decreases s.len(),
{
    if s.len() > 0 {
        lemma_hex_upper_len(s.skip(1));
    }
}

/// The standard SHA-256 initial state, as a state value.
pub open spec fn standard_iv_state() -> Sha256State {
    Sha256State {
        a: 0x6a09e667,
        b: 0xbb67ae85,
        c: 0x3c6ef372,
        d: 0xa54ff53a,
        e: 0x510e527f,
        f: 0x9b05688c,
        g: 0x1f83d9ab,
        h: 0x5be0cd19,
    }
}

/// The standard SHA-256 initial state.
pub fn standard_iv() -> (r: [u32; 8])
    ensures
        r@ == seq![
            0x6a09e667u32,
            0xbb67ae85u32,
            0x3c6ef372u32,
            0xa54ff53au32,
            0x510e527fu32,
            0x9b05688cu32,
            0x1f83d9abu32,
            0x5be0cd19u32,
        ],
{
    [0x6a09e667, 0xbb67ae85, 0x3c6ef372, 0xa54ff53a, 0x510e527f, 0x9b05688c, 0x1f83d9ab,
        0x5be0cd19]
}

/// The state packed from eight words.
pub open spec fn state_from(iv: Seq<u32>) -> Sha256State
    recommends
        iv.len() == 8,
{
    Sha256State {
        a: iv[0],
        b: iv[1],
        c: iv[2],
        d: iv[3],
        e: iv[4],
        f: iv[5],
        g: iv[6],
        h: iv[7],
    }
}

/// SHA-256 run from a caller-supplied initial state.
pub struct Sha256Custom {
    pub state: Sha256State,
}

impl Sha256Custom {
    /// A hasher whose compression starts from the given eight words.
    pub fn new(iv: [u32; 8]) -> (r: Sha256Custom)
        ensures
            r.state == state_from(iv@),
    {
        Sha256Custom {
            state: Sha256State {
                a: iv[0],
                b: iv[1],
                c: iv[2],
                d: iv[3],
                e: iv[4],
                f: iv[5],
                g: iv[6],
                h: iv[7],
            },
        }
    }

    /// The digest of `data`, as 32 raw bytes.
    pub fn digest(&self, data: &Vec<u8>) -> (r: Vec<u8>)
        requires
            data@.len() < 0x10000000,
        ensures
            r@ == sha256_of(self.state, data@),
            r@.len() == 32,
    {
        let p = pad_message(data);
        let nb = p.len() / 64;
        proof {
            assert(64 * (p@.len() as int / 64) <= p@.len()) by (nonlinear_arith);
        }
        let mut st = self.state;
        let mut b: usize = 0;
        while b < nb
            invariant
                nb == p@.len() as int / 64,
                64 * (p@.len() as int / 64) <= p@.len(),
                st == state_after(p@, b as int, self.state),
                b <= nb,
            decreases nb - b,
        {
            proof {
                assert(64 * (b + 1) <= 64 * (p@.len() as int / 64)) by (nonlinear_arith)
                    requires
                        b + 1 <= p@.len() as int / 64,
                ;
            }
            st = compress_block(&p, b, st);
            b += 1;
        }
        state_bytes_x(st)
    }

    /// The digest of `data`, as 64 uppercase hexadecimal bytes.
    pub fn encrypt(&self, data: &Vec<u8>) -> (r: Vec<u8>)
        requires
            data@.len() < 0x10000000,
        ensures
            r@ == hex_upper(sha256_of(self.state, data@)),
            r@.len() == 64,
    {
        let d = self.digest(data);
        hex_upper_x(d.as_slice())
    }
}

/// Exec padding of a message.
fn pad_message(m: &Vec<u8>) -> (r: Vec<u8>)
    requires
        m@.len() < 0x10000000,
    ensures
        r@ == padded(m@),
        r@.len() == m@.len() + 1 + pad_zero_count(m@.len() as nat) + 8,
{
    let mut r: Vec<u8> = Vec::new();
    let mut i: usize = 0;
    while i < m.len()
        invariant
            i <= m@.len(),
            r@ == m@.take(i as int),
        decreases m@.len() - i,
    {
        r.push(m[i]);
        proof {
            assert(r@ =~= m@.take(i + 1));
        }
        i += 1;
    }
    proof {
        assert(m@.take(m@.len() as int) =~= m@);
    }
    r.push(0x80);
    let rem = m.len() % 64;
    let zeros = if rem <= 55 {
        55 - rem
    } else {
        119 - rem
    };
    let mut z: usize = 0;
    while z < zeros
        invariant
            z <= zeros,
            zeros == pad_zero_count(m@.len() as nat),
            r@ == m@ + seq![0x80u8] + Seq::new(z as nat, |k: int| 0u8),
        decreases zeros - z,
    {
        r.push(0);
        proof {
            assert(r@ =~= m@ + seq![0x80u8] + Seq::new((z + 1) as nat, |k: int| 0u8));
        }
        z += 1;
    }
    let bits: u64 = (m.len() as u64) * 8;
    proof {
        assert(bits == (8 * m@.len() as nat) as u64);
    }
    r.push(((bits >> 56) & 0xff) as u8);
    r.push(((bits >> 48) & 0xff) as u8);
    r.push(((bits >> 40) & 0xff) as u8);
    r.push(((bits >> 32) & 0xff) as u8);
    r.push(((bits >> 24) & 0xff) as u8);
    r.push(((bits >> 16) & 0xff) as u8);
    r.push(((bits >> 8) & 0xff) as u8);
    r.push((bits & 0xff) as u8);
    proof {
        assert(r@ =~= padded(m@));
    }
    r
}

/// Exec compression of block `b` of the padded message into `st`.
fn compress_block(p: &Vec<u8>, b: usize, st: Sha256State) -> (r: Sha256State)
    requires
        64 * b + 64 <= p@.len(),
    ensures
        r == block_out(p@, b as int, st),
{
    let n = p.len();
    assert(64 * b + 64 <= n);
    let mut w: Vec<u32> = Vec::new();
    let mut t: usize = 0;
    while t < 16
        invariant
            t <= 16,
            64 * b + 64 <= n,
            n == p@.len(),
            w@.len() == t,
            forall|j: int| 0 <= j < t ==> w@[j] == sched(p@, b as int, j),
        decreases 16 - t,
    {
        let i = 64 * b + 4 * t;
        let word = ((p[i] as u32) << 24u32) | ((p[i + 1] as u32) << 16u32) | ((p[i + 2] as u32)
            << 8u32) | (p[i + 3] as u32);
        w.push(word);
        t += 1;
    }
    while t < 64
        invariant
            16 <= t <= 64,
            64 * b + 64 <= n,
            n == p@.len(),
            w@.len() == t,
            forall|j: int| 0 <= j < t ==> w@[j] == sched(p@, b as int, j),
        decreases 64 - t,
    {
        let s0 = {
            let x = w[t - 15];
            (x >> 7u32 | x << 25u32) ^ (x >> 18u32 | x << 14u32) ^ (x >> 3u32)
        };
        let s1 = {
            let x = w[t - 2];
            (x >> 17u32 | x << 15u32) ^ (x >> 19u32 | x << 13u32) ^ (x >> 10u32)
        };
        let word = s1.wrapping_add(w[t - 7]).wrapping_add(s0.wrapping_add(w[t - 16]));
        proof {
            assert(word == sched(p@, b as int, t as int));
        }
        w.push(word);
        t += 1;
    }
    let mut cur = st;
    let mut round: usize = 0;
    while round < 64
        invariant
            round <= 64,
            w@.len() == 64,
            forall|j: int| 0 <= j < 64 ==> w@[j] == sched(p@, b as int, j),
            cur == rounds(p@, b as int, st, round as int),
        decreases 64 - round,
    {
        let e = cur.e;
        let a = cur.a;
        let big1 = (e >> 6u32 | e << 26u32) ^ (e >> 11u32 | e << 21u32) ^ (e >> 25u32 | e << 7u32);
        let big0 = (a >> 2u32 | a << 30u32) ^ (a >> 13u32 | a << 19u32) ^ (a >> 22u32 | a
            << 10u32);
        let chv = (e & cur.f) ^ (!e & cur.g);
        let majv = (a & cur.b) ^ (a & cur.c) ^ (cur.b & cur.c);
        let t1 = cur.h.wrapping_add(big1).wrapping_add(chv.wrapping_add(w[round])).wrapping_add(
            sha_k_x(round),
        );
        let t2 = big0.wrapping_add(majv);
        proof {
            assert(t1 == add32(
                add32(add32(cur.h, bsig1(cur.e)), add32(ch(cur.e, cur.f, cur.g), w@[round as int])),
                sha_k(round as int),
            ));
        }
        cur = Sha256State {
            a: t1.wrapping_add(t2),
            b: cur.a,
            c: cur.b,
            d: cur.c,
            e: cur.d.wrapping_add(t1),
            f: cur.e,
            g: cur.f,
            h: cur.g,
        };
        round += 1;
    }
    Sha256State {
        a: st.a.wrapping_add(cur.a),
        b: st.b.wrapping_add(cur.b),
        c: st.c.wrapping_add(cur.c),
        d: st.d.wrapping_add(cur.d),
        e: st.e.wrapping_add(cur.e),
        f: st.f.wrapping_add(cur.f),
        g: st.g.wrapping_add(cur.g),
        h: st.h.wrapping_add(cur.h),
    }
}

/// Exec extraction of the digest bytes of a state.
fn state_bytes_x(st: Sha256State) -> (r: Vec<u8>)
    ensures
        r@ == state_bytes(st),
        r@.len() == 32,
{
    let mut r: Vec<u8> = Vec::new();
    push_word(&mut r, st.a);
    push_word(&mut r, st.b);
    push_word(&mut r, st.c);
    push_word(&mut r, st.d);
    push_word(&mut r, st.e);
    push_word(&mut r, st.f);
    push_word(&mut r, st.g);
    push_word(&mut r, st.h);
    proof {
        assert(r@ =~= state_bytes(st));
    }
    r
}

/// Appends the big-endian bytes of one word.
fn push_word(r: &mut Vec<u8>, x: u32)
    ensures
        final(r)@ == old(r)@ + word_bytes(x),
{
    r.push(((x >> 24u32) & 0xff) as u8);
    r.push(((x >> 16u32) & 0xff) as u8);
    r.push(((x >> 8u32) & 0xff) as u8);
    r.push((x & 0xff) as u8);
    proof {
        assert(r@ =~= old(r)@ + word_bytes(x));
    }
}

} // verus!
