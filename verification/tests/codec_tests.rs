//! The byte-level codecs: decimal notation, URL-safe base64, claim sets.

use conduit_auth::base64url::b64_decode;
use conduit_auth::base64url::b64_encode;
use conduit_auth::claims::claims_to_bytes;
use conduit_auth::claims::parse_claims;
use conduit_auth::digits::parse_dec_u128;
use conduit_auth::digits::parse_dec_u64;
use conduit_auth::digits::u128_to_dec;
use conduit_auth::digits::u64_to_dec;

#[test]
fn decimal_renders_canonically() {
    assert_eq!(u64_to_dec(0), b"0".to_vec());
    assert_eq!(u64_to_dec(7), b"7".to_vec());
    assert_eq!(u64_to_dec(1234567890), b"1234567890".to_vec());
    assert_eq!(u64_to_dec(u64::MAX), b"18446744073709551615".to_vec());
    assert_eq!(u128_to_dec(u128::MAX), b"340282366920938463463374607431768211455".to_vec());
}

#[test]
fn decimal_parses_exactly_what_it_renders() {
    for n in [0u64, 1, 9, 10, 99, 100, 86400, u64::MAX] {
        assert_eq!(parse_dec_u64(&u64_to_dec(n)), Some(n));
    }
    for n in [0u128, 42, u64::MAX as u128 + 1, u128::MAX] {
        assert_eq!(parse_dec_u128(&u128_to_dec(n)), Some(n));
    }
}

#[test]
fn decimal_rejects_non_canonical_spellings() {
    assert_eq!(parse_dec_u64(b""), None);
    assert_eq!(parse_dec_u64(b"01"), None);
    assert_eq!(parse_dec_u64(b"00"), None);
    assert_eq!(parse_dec_u64(b"12a"), None);
    assert_eq!(parse_dec_u64(b"-1"), None);
    assert_eq!(parse_dec_u64(b" 1"), None);
    // one past u64::MAX
    assert_eq!(parse_dec_u64(b"18446744073709551616"), None);
    assert_eq!(parse_dec_u128(b"340282366920938463463374607431768211456"), None);
}

#[test]
fn base64_matches_known_vectors() {
    assert_eq!(b64_encode(b""), b"".to_vec());
    assert_eq!(b64_encode(b"f"), b"Zg".to_vec());
    assert_eq!(b64_encode(b"fo"), b"Zm8".to_vec());
    assert_eq!(b64_encode(b"foo"), b"Zm9v".to_vec());
    assert_eq!(b64_encode(b"foob"), b"Zm9vYg".to_vec());
    assert_eq!(b64_encode(b"fooba"), b"Zm9vYmE".to_vec());
    assert_eq!(b64_encode(b"foobar"), b"Zm9vYmFy".to_vec());
    // the URL-safe alphabet uses '-' and '_', never '+' or '/'
    assert_eq!(b64_encode(&[0xfb, 0xff]), b"-_8".to_vec());
}

#[test]
fn base64_round_trips() {
    let samples: Vec<Vec<u8>> = vec![
        vec![],
        vec![0],
        vec![255],
        vec![1, 2, 3],
        vec![0xde, 0xad, 0xbe, 0xef],
        (0u8..=255).collect(),
    ];
    for s in samples {
        let enc = b64_encode(&s);
        assert_eq!(b64_decode(&enc), Some(s));
    }
}

#[test]
fn base64_rejects_what_the_encoder_cannot_produce() {
    // impossible length
    assert_eq!(b64_decode(b"A"), None);
    assert_eq!(b64_decode(b"AAAAA"), None);
    // bytes outside the alphabet
    assert_eq!(b64_decode(b"Zg=="), None);
    assert_eq!(b64_decode(b"Zm+v"), None);
    assert_eq!(b64_decode(b"Zm/v"), None);
    assert_eq!(b64_decode(b"Z|"), None);
    // nonzero unused low bits in the trailing group
    assert_eq!(b64_decode(b"Zh"), None);
    assert_eq!(b64_decode(b"Zm9"), None);
    // the canonical spellings of the same prefixes are accepted
    assert_eq!(b64_decode(b"Zg"), Some(b"f".to_vec()));
    assert_eq!(b64_decode(b"Zm8"), Some(b"fo".to_vec()));
}

#[test]
fn claims_serialize_to_fixed_json() {
    let bytes = claims_to_bytes(7, 100, 86500);
    assert_eq!(bytes, b"{\"exp\":86500,\"iat\":100,\"sub\":\"7\"}".to_vec());
}

#[test]
fn claims_parse_their_own_encoding() {
    for (sub, iat, exp) in [(0u128, 0u64, 0u64), (7, 100, 86500), (u128::MAX, u64::MAX, u64::MAX)] {
        let bytes = claims_to_bytes(sub, iat, exp);
        assert_eq!(parse_claims(&bytes), Some((sub, iat, exp)));
    }
}

#[test]
fn claims_reject_every_other_spelling() {
    // whitespace, reordered fields, extra fields, non-canonical numbers
    assert_eq!(parse_claims(b"{\"exp\": 86500,\"iat\":100,\"sub\":\"7\"}"), None);
    assert_eq!(parse_claims(b"{\"iat\":100,\"exp\":86500,\"sub\":\"7\"}"), None);
    assert_eq!(parse_claims(b"{\"exp\":86500,\"iat\":100,\"sub\":\"7\",\"x\":1}"), None);
    assert_eq!(parse_claims(b"{\"exp\":086500,\"iat\":100,\"sub\":\"7\"}"), None);
    assert_eq!(parse_claims(b"{\"exp\":86500,\"iat\":100,\"sub\":7}"), None);
    assert_eq!(parse_claims(b""), None);
    assert_eq!(parse_claims(b"{}"), None);
}
