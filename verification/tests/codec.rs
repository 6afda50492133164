//! The signature engine in isolation: the custom base64 codec, the
//! SHA-256 core, and the signature string.
use base64::engine::Engine as _;
use cambia::b64::{decode_custom_b64, encode_custom_b64};
use sha2::Digest;
use cambia::sha256::{standard_iv, Sha256Custom};
use cambia::signature::{scramble_x, xld_signature_x};

fn round_trip(data: &[u8]) {
    let enc = encode_custom_b64(data);
    let dec = decode_custom_b64(enc.as_slice()).expect("decoding an encoding must succeed");
    assert_eq!(dec, data.to_vec());
}

#[test]
fn b64_round_trip_small() {
    round_trip(b"");
    round_trip(b"a");
    round_trip(b"ab");
    round_trip(b"abc");
    round_trip(b"abcd");
    round_trip(&[0u8, 255, 128, 7, 63, 64, 200]);
}

#[test]
fn b64_round_trip_long() {
    let mut data = Vec::new();
    let mut x: u32 = 7;
    for _ in 0..257 {
        x = x.wrapping_mul(1103515245).wrapping_add(12345);
        data.push((x >> 16) as u8);
    }
    round_trip(&data);
}

#[test]
fn b64_matches_reference_engine() {
    let alphabet = base64::alphabet::Alphabet::new(
        "0123456789ABCDEFGHIJKLMNOPQRSTUVWXYZabcdefghijklmnopqrstuvwxyz._",
    )
    .unwrap();
    let engine =
        base64::engine::GeneralPurpose::new(&alphabet, base64::engine::general_purpose::PAD);
    for data in [
        b"".to_vec(),
        b"a".to_vec(),
        b"ab".to_vec(),
        b"abc".to_vec(),
        b"hello world, this crosses several groups".to_vec(),
        vec![0xff, 0x00, 0x7e, 0x81, 0x13],
    ] {
        let ours = String::from_utf8(encode_custom_b64(&data)).unwrap();
        let theirs = engine.encode(&data);
        assert_eq!(ours, theirs.trim_end_matches('=').to_string());
    }
}

#[test]
fn b64_decode_rejects_bad_input() {
    assert!(decode_custom_b64(b"!").is_none());
    assert!(decode_custom_b64(b"A").is_none(), "a single character is never valid");
    assert!(decode_custom_b64(b"AB!C").is_none());
}

#[test]
fn sha256_standard_iv_matches_reference() {
    for data in [
        b"".to_vec(),
        b"abc".to_vec(),
        b"The quick brown fox jumps over the lazy dog".to_vec(),
        vec![0x61u8; 200],
    ] {
        let hasher = Sha256Custom::new(standard_iv());
        let ours = hasher.digest(&data);
        let theirs = sha2::Sha256::digest(&data);
        assert_eq!(ours, theirs.to_vec());
    }
}

#[test]
fn sha256_known_vector_abc() {
    let hasher = Sha256Custom::new(standard_iv());
    let hex = hasher.encrypt(&b"abc".to_vec());
    assert_eq!(
        String::from_utf8(hex).unwrap(),
        "BA7816BF8F01CFEA414140DE5DAE2223B00361A396177A9CB410FF61F20015AD"
    );
}

#[test]
fn scramble_is_an_involution() {
    let data = b"0123456789ABCDEF0123456789abcdef\nVersion=0001".to_vec();
    let once = scramble_x(&data);
    let twice = scramble_x(&once);
    assert_eq!(twice, data);
    assert_eq!(once.len(), data.len());
}

#[test]
fn signature_is_sensitive_to_whitespace() {
    let body = b"X Lossless Decoder version 20230413 (127.4.2)\nUsed drive : FOO".to_vec();
    let mut padded = body.clone();
    padded.push(b' ');
    let a = xld_signature_x(&body);
    let b = xld_signature_x(&padded);
    assert_ne!(a, b, "the signature covers every byte, trailing whitespace included");
    assert_eq!(a, xld_signature_x(&body.clone()));
}
