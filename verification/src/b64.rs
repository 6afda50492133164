//! The custom base64 alphabet XLD signatures use: digits, then uppercase,
//! then lowercase, then `.` and `_`, with standard grouping and the trailing
//! `=` padding stripped.
use vstd::prelude::*;

verus! {

/// The alphabet character for a six-bit value.
pub open spec fn b64_char(v: u8) -> u8
    recommends
        v < 64,
{
    if v < 10 {
        (48 + v) as u8  // '0'..'9'
    } else if v < 36 {
        (65 + (v - 10)) as u8  // 'A'..'Z'
    } else if v < 62 {
        (97 + (v - 36)) as u8  // 'a'..'z'
    } else if v == 62 {
        46u8  // '.'
    } else {
        95u8  // '_'
    }
}

/// The six-bit value of an alphabet character, `None` outside the alphabet.
pub open spec fn b64_val(c: u8) -> Option<u8> {
    if 48 <= c && c <= 57 {
        Option::Some((c - 48) as u8)
    } else if 65 <= c && c <= 90 {
        Option::Some((c - 65 + 10) as u8)
    } else if 97 <= c && c <= 122 {
        Option::Some((c - 97 + 36) as u8)
    } else if c == 46 {
        Option::Some(62u8)
    } else if c == 95 {
        Option::Some(63u8)
    } else {
        Option::None
    }
}

/// The two characters decode back to the value they encode.
pub proof fn lemma_b64_char_val(v: u8)
    requires
        v < 64,
    ensures
        b64_val(b64_char(v)) == Option::Some(v),
{
}

/// Base64 over the custom alphabet, trailing padding stripped: three input
/// bytes become four characters; a final one or two bytes become two or
/// three.
pub open spec fn b64_encode(s: Seq<u8>) -> Seq<u8>
    decreases s.len(),
{
    if s.len() == 0 {
        Seq::empty()
    } else if s.len() == 1 {
        let b0 = s[0];
        seq![b64_char(b0 >> 2), b64_char((b0 & 3) << 4)]
    } else if s.len() == 2 {
        let b0 = s[0];
        let b1 = s[1];
        seq![
            b64_char(b0 >> 2),
            b64_char(((b0 & 3) << 4) | (b1 >> 4)),
            b64_char((b1 & 15) << 2),
        ]
    } else {
        let b0 = s[0];
        let b1 = s[1];
        let b2 = s[2];
        seq![
            b64_char(b0 >> 2),
            b64_char(((b0 & 3) << 4) | (b1 >> 4)),
            b64_char(((b1 & 15) << 2) | (b2 >> 6)),
            b64_char(b2 & 63),
        ] + b64_encode(s.skip(3))
    }
}

/// Decoding of an unpadded custom-base64 string: `None` when a character is
/// outside the alphabet or the length is 1 more than a multiple of 4.
pub open spec fn b64_decode(s: Seq<u8>) -> Option<Seq<u8>>
    decreases s.len(),
{
    if s.len() == 0 {
        Option::Some(Seq::empty())
    } else if s.len() == 1 {
        Option::None
    } else if s.len() == 2 {
        match (b64_val(s[0]), b64_val(s[1])) {
            (Option::Some(v0), Option::Some(v1)) => Option::Some(
                seq![((v0 << 2) | (v1 >> 4)) as u8],
            ),
            _ => Option::None,
        }
    } else if s.len() == 3 {
        match (b64_val(s[0]), b64_val(s[1]), b64_val(s[2])) {
            (Option::Some(v0), Option::Some(v1), Option::Some(v2)) => Option::Some(
                seq![((v0 << 2) | (v1 >> 4)) as u8, (((v1 & 15) << 4) | (v2 >> 2)) as u8],
            ),
            _ => Option::None,
        }
    } else {
        match (b64_val(s[0]), b64_val(s[1]), b64_val(s[2]), b64_val(s[3])) {
            (Option::Some(v0), Option::Some(v1), Option::Some(v2), Option::Some(v3)) => {
                match b64_decode(s.skip(4)) {
                    Option::Some(rest) => Option::Some(
                        seq![
                            ((v0 << 2) | (v1 >> 4)) as u8,
                            (((v1 & 15) << 4) | (v2 >> 2)) as u8,
                            (((v2 & 3) << 6) | v3) as u8,
                        ] + rest,
                    ),
                    Option::None => Option::None,
                }
            },
            _ => Option::None,
        }
    }
}

/// Decoding inverts encoding: for every byte string, encoding and then
/// decoding gives the original back.
pub proof fn lemma_b64_round_trip(s: Seq<u8>)
    ensures
        b64_decode(b64_encode(s)) == Option::Some(s),
    decreases s.len(),
{
    if s.len() == 0 {
        assert(b64_decode(b64_encode(s)) =~= Option::Some(s));
    } else if s.len() == 1 {
        let b0 = s[0];
        assert(b0 >> 2 < 64 && (b0 & 3) << 4 < 64) by (bit_vector);
        lemma_b64_char_val(b0 >> 2);
        lemma_b64_char_val((b0 & 3) << 4);
        assert((((b0 >> 2) << 2) | (((b0 & 3) << 4) >> 4)) == b0) by (bit_vector);
        assert(b64_decode(b64_encode(s)).unwrap() =~= s);
    } else if s.len() == 2 {
        let b0 = s[0];
        let b1 = s[1];
        let v0 = b0 >> 2;
        let v1 = ((b0 & 3) << 4) | (b1 >> 4);
        let v2 = (b1 & 15) << 2;
        assert(b0 >> 2 < 64 && (((b0 & 3) << 4) | (b1 >> 4)) < 64 && (b1 & 15) << 2 < 64)
            by (bit_vector);
        lemma_b64_char_val(v0);
        lemma_b64_char_val(v1);
        lemma_b64_char_val(v2);
        assert((((b0 >> 2) << 2) | ((((b0 & 3) << 4) | (b1 >> 4)) >> 4)) == b0) by (bit_vector);
        assert((((((b0 & 3) << 4) | (b1 >> 4)) & 15) << 4) | (((b1 & 15) << 2) >> 2) == b1)
            by (bit_vector);
        assert(b64_decode(b64_encode(s)).unwrap() =~= s);
    } else {
        let b0 = s[0];
        let b1 = s[1];
        let b2 = s[2];
        let v0 = b0 >> 2;
        let v1 = ((b0 & 3) << 4) | (b1 >> 4);
        let v2 = ((b1 & 15) << 2) | (b2 >> 6);
        let v3 = b2 & 63;
        assert(b0 >> 2 < 64 && (((b0 & 3) << 4) | (b1 >> 4)) < 64 && (((b1 & 15) << 2) | (b2 >> 6))
            < 64 && b2 & 63 < 64) by (bit_vector);
        lemma_b64_char_val(v0);
        lemma_b64_char_val(v1);
        lemma_b64_char_val(v2);
        lemma_b64_char_val(v3);
        assert((((b0 >> 2) << 2) | ((((b0 & 3) << 4) | (b1 >> 4)) >> 4)) == b0) by (bit_vector);
        assert((((((b0 & 3) << 4) | (b1 >> 4)) & 15) << 4) | (((((b1 & 15) << 2) | (b2 >> 6)) >> 2))
            == b1) by (bit_vector);
        assert((((((b1 & 15) << 2) | (b2 >> 6)) & 3) << 6) | (b2 & 63) == b2) by (bit_vector);
        lemma_b64_round_trip(s.skip(3));
        let enc = b64_encode(s);
        let head = seq![b64_char(v0), b64_char(v1), b64_char(v2), b64_char(v3)];
        assert(enc =~= head + b64_encode(s.skip(3)));
        assert(enc.skip(4) =~= b64_encode(s.skip(3)));
        // the encoding of the remainder is never a single character
        assert(b64_encode(s.skip(3)).len() != 1) by {
            let r = s.skip(3);
            if r.len() != 0 && r.len() != 1 && r.len() != 2 {
                assert(b64_encode(r).len() >= 4);
            }
        };
        assert(enc[0] == b64_char(v0) && enc[1] == b64_char(v1) && enc[2] == b64_char(v2) && enc[3]
            == b64_char(v3));
        if enc.len() == 4 {
            assert(s.skip(3) =~= Seq::<u8>::empty());
            assert(b64_decode(enc).unwrap() =~= s);
        } else {
            assert(b64_decode(enc).unwrap() =~= seq![b0, b1, b2] + b64_decode(
                enc.skip(4),
            ).unwrap());
            assert(b64_decode(enc).unwrap() =~= s);
        }
    }
}

/// Exec form of [`b64_char`].
pub fn b64_char_x(v: u8) -> (r: u8)
    requires
        v < 64,
    ensures
        r == b64_char(v),
{
    if v < 10 {
        48 + v
    } else if v < 36 {
        65 + (v - 10)
    } else if v < 62 {
        97 + (v - 36)
    } else if v == 62 {
        46
    } else {
        95
    }
}

/// Exec form of [`b64_val`].
pub fn b64_val_x(c: u8) -> (r: Option<u8>)
    ensures
        r == b64_val(c),
{
    if 48 <= c && c <= 57 {
        Option::Some(c - 48)
    } else if 65 <= c && c <= 90 {
        Option::Some(c - 65 + 10)
    } else if 97 <= c && c <= 122 {
        Option::Some(c - 97 + 36)
    } else if c == 46 {
        Option::Some(62)
    } else if c == 95 {
        Option::Some(63)
    } else {
        Option::None
    }
}

/// Encodes bytes with the custom alphabet, no padding in the result.
pub fn encode_custom_b64(data: &[u8]) -> (r: Vec<u8>)
    ensures
        r@ == b64_encode(data@),
{
    let mut r: Vec<u8> = Vec::new();
    let mut i: usize = 0;
    proof {
        assert(data@.skip(0) =~= data@);
        assert(r@ + b64_encode(data@) =~= b64_encode(data@));
    }
    while data.len() - i >= 3
        invariant
            i <= data@.len(),
            b64_encode(data@) == r@ + b64_encode(data@.skip(i as int)),
        decreases data@.len() - i,
    {
        let b0 = data[i];
        let b1 = data[i + 1];
        let b2 = data[i + 2];
        assert((b0 >> 2) < 64 && (((b0 & 3) << 4) | (b1 >> 4)) < 64 && (((b1 & 15) << 2) | (b2
            >> 6)) < 64 && (b2 & 63) < 64) by (bit_vector);
        r.push(b64_char_x(b0 >> 2));
        r.push(b64_char_x(((b0 & 3) << 4) | (b1 >> 4)));
        r.push(b64_char_x(((b1 & 15) << 2) | (b2 >> 6)));
        r.push(b64_char_x(b2 & 63));
        proof {
            let rem = data@.skip(i as int);
            assert(rem[0] == data@[i as int] && rem[1] == data@[i + 1] && rem[2] == data@[i + 2]);
            assert(rem.skip(3) =~= data@.skip(i + 3));
            assert(b64_encode(data@) =~= r@ + b64_encode(data@.skip(i + 3)));
        }
        i += 3;
    }
    if data.len() - i == 1 {
        let b0 = data[i];
        assert((b0 >> 2) < 64 && ((b0 & 3) << 4) < 64) by (bit_vector);
        r.push(b64_char_x(b0 >> 2));
        r.push(b64_char_x((b0 & 3) << 4));
        proof {
            let rem = data@.skip(i as int);
            assert(rem.len() == 1 && rem[0] == data@[i as int]);
            assert(b64_encode(data@) =~= r@);
        }
    } else if data.len() - i == 2 {
        let b0 = data[i];
        let b1 = data[i + 1];
        assert((b0 >> 2) < 64 && (((b0 & 3) << 4) | (b1 >> 4)) < 64 && ((b1 & 15) << 2) < 64)
            by (bit_vector);
        r.push(b64_char_x(b0 >> 2));
        r.push(b64_char_x(((b0 & 3) << 4) | (b1 >> 4)));
        r.push(b64_char_x((b1 & 15) << 2));
        proof {
            let rem = data@.skip(i as int);
            assert(rem.len() == 2 && rem[0] == data@[i as int] && rem[1] == data@[i + 1]);
            assert(b64_encode(data@) =~= r@);
        }
    } else {
        proof {
            let rem = data@.skip(i as int);
            assert(rem.len() == 0);
            assert(b64_encode(data@) =~= r@);
        }
    }
    r
}

/// Decodes an unpadded custom-base64 byte string; `None` when it is not one.
pub fn decode_custom_b64(data: &[u8]) -> (r: Option<Vec<u8>>)
    ensures
        match r {
            Option::Some(v) => b64_decode(data@) == Option::Some(v@),
            Option::None => b64_decode(data@) == Option::<Seq<u8>>::None,
        },
{
    let mut out: Vec<u8> = Vec::new();
    let mut i: usize = 0;
    proof {
        assert(data@.skip(0) =~= data@);
        if b64_decode(data@) is Some {
            assert(out@ + b64_decode(data@).unwrap() =~= b64_decode(data@).unwrap());
        }
    }
    while data.len() - i >= 4
        invariant
            i <= data@.len(),
            b64_decode(data@) == match b64_decode(data@.skip(i as int)) {
                Option::Some(t) => Option::Some(out@ + t),
                Option::None => Option::<Seq<u8>>::None,
            },
        decreases data@.len() - i,
    {
        let ghost rem = data@.skip(i as int);
        proof {
            assert(rem[0] == data@[i as int] && rem[1] == data@[i + 1] && rem[2] == data@[i + 2]
                && rem[3] == data@[i + 3]);
            assert(rem.skip(4) =~= data@.skip(i + 4));
        }
        let v0 = match b64_val_x(data[i]) {
            Option::Some(v) => v,
            Option::None => {
                return Option::None;
            },
        };
        let v1 = match b64_val_x(data[i + 1]) {
            Option::Some(v) => v,
            Option::None => {
                return Option::None;
            },
        };
        let v2 = match b64_val_x(data[i + 2]) {
            Option::Some(v) => v,
            Option::None => {
                return Option::None;
            },
        };
        let v3 = match b64_val_x(data[i + 3]) {
            Option::Some(v) => v,
            Option::None => {
                return Option::None;
            },
        };
        out.push((v0 << 2) | (v1 >> 4));
        out.push(((v1 & 15) << 4) | (v2 >> 2));
        out.push(((v2 & 3) << 6) | v3);
        proof {
            if b64_decode(data@.skip(i + 4)) is Some {
                assert(out@ + b64_decode(data@.skip(i + 4)).unwrap() =~= out@.subrange(
                    0,
                    out@.len() - 3,
                ) + b64_decode(rem).unwrap());
            }
        }
        i += 4;
    }
    let ghost rem = data@.skip(i as int);
    if data.len() - i == 0 {
        proof {
            assert(out@ + b64_decode(rem).unwrap() =~= out@);
        }
        Option::Some(out)
    } else if data.len() - i == 1 {
        Option::None
    } else if data.len() - i == 2 {
        proof {
            assert(rem[0] == data@[i as int] && rem[1] == data@[i + 1]);
        }
        let v0 = match b64_val_x(data[i]) {
            Option::Some(v) => v,
            Option::None => {
                return Option::None;
            },
        };
        let v1 = match b64_val_x(data[i + 1]) {
            Option::Some(v) => v,
            Option::None => {
                return Option::None;
            },
        };
        out.push((v0 << 2) | (v1 >> 4));
        proof {
            assert(out@ =~= out@.subrange(0, out@.len() - 1) + b64_decode(rem).unwrap());
        }
        Option::Some(out)
    } else {
        proof {
            assert(rem[0] == data@[i as int] && rem[1] == data@[i + 1] && rem[2] == data@[i + 2]);
        }
        let v0 = match b64_val_x(data[i]) {
            Option::Some(v) => v,
            Option::None => {
                return Option::None;
            },
        };
        let v1 = match b64_val_x(data[i + 1]) {
            Option::Some(v) => v,
            Option::None => {
                return Option::None;
            },
        };
        let v2 = match b64_val_x(data[i + 2]) {
            Option::Some(v) => v,
            Option::None => {
                return Option::None;
            },
        };
        out.push((v0 << 2) | (v1 >> 4));
        out.push(((v1 & 15) << 4) | (v2 >> 2));
        proof {
            assert(out@ =~= out@.subrange(0, out@.len() - 2) + b64_decode(rem).unwrap());
        }
        Option::Some(out)
    }
}

} // verus!
