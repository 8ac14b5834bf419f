//! The token codec: issuance, validation, expiry and tamper resistance.
//! These run against the real signing backend, so they also exercise the
//! trusted HMAC wrapper end to end.

use conduit_auth::error::TokenError;
use conduit_auth::token::generate;
use conduit_auth::token::validate;
use conduit_auth::TOKEN_TTL_SECONDS;

const SECRET: &[u8] = b"a-server-held-signing-secret";
const OTHER_SECRET: &[u8] = b"another signing key entirely";

#[test]
fn issued_token_validates_to_its_subject() {
    let token = generate(42, 1_700_000_000, SECRET);
    assert_eq!(validate(&token, 1_700_000_000, SECRET), Ok(42));
}

#[test]
fn token_has_three_base64_segments() {
    let token = generate(42, 1_700_000_000, SECRET);
    let dots = token.iter().filter(|&&b| b == b'.').count();
    assert_eq!(dots, 2);
    // header segment is the fixed JWT header
    let first = token.iter().position(|&b| b == b'.').unwrap();
    assert_eq!(&token[..first], b"eyJhbGciOiJIUzI1NiIsInR5cCI6IkpXVCJ9");
}

#[test]
fn expiry_boundary_is_exact() {
    let t = 1_700_000_000u64;
    let token = generate(7, t, SECRET);
    // valid through the expiry second itself
    assert_eq!(validate(&token, t + TOKEN_TTL_SECONDS, SECRET), Ok(7));
    // one second later it is expired
    assert_eq!(validate(&token, t + TOKEN_TTL_SECONDS + 1, SECRET), Err(TokenError::Expired));
}

#[test]
fn issue_time_in_the_past_is_normal() {
    let t = 1_700_000_000u64;
    let token = generate(7, t, SECRET);
    // validating before the issue time still succeeds: only expiry matters
    assert_eq!(validate(&token, t - 1, SECRET), Ok(7));
    assert_eq!(validate(&token, 0, SECRET), Ok(7));
}

#[test]
fn flipping_any_signature_byte_is_rejected() {
    let t = 1_700_000_000u64;
    let token = generate(9000, t, SECRET);
    let second_dot = token
        .iter()
        .enumerate()
        .filter(|(_, &b)| b == b'.')
        .map(|(i, _)| i)
        .nth(1)
        .unwrap();
    for p in (second_dot + 1)..token.len() {
        let mut tampered = token.clone();
        tampered[p] = tampered[p].wrapping_add(1);
        assert_ne!(tampered[p], token[p]);
        assert_eq!(
            validate(&tampered, t, SECRET),
            Err(TokenError::InvalidSignature),
            "byte {} of the signature accepted after a flip",
            p
        );
    }
}

#[test]
fn tampered_payload_is_rejected() {
    let t = 1_700_000_000u64;
    let token = generate(9000, t, SECRET);
    let first_dot = token.iter().position(|&b| b == b'.').unwrap();
    let second_dot = token
        .iter()
        .enumerate()
        .filter(|(_, &b)| b == b'.')
        .map(|(i, _)| i)
        .nth(1)
        .unwrap();
    for p in (first_dot + 1)..second_dot {
        let mut tampered = token.clone();
        tampered[p] = if tampered[p] == b'A' { b'B' } else { b'A' };
        if tampered[p] == token[p] {
            continue;
        }
        assert_eq!(validate(&tampered, t, SECRET), Err(TokenError::InvalidSignature));
    }
}

#[test]
fn malformed_tokens_are_rejected_not_mistaken() {
    let t = 1_700_000_000u64;
    for garbage in [
        &b""[..],
        &b"."[..],
        &b".."[..],
        &b"..."[..],
        &b"notatoken"[..],
        &b"a.b.c"[..],
        &b"\xff\xfe\x00"[..],
    ] {
        assert_eq!(validate(garbage, t, SECRET), Err(TokenError::InvalidSignature));
    }
}

#[test]
fn wrong_secret_is_rejected() {
    let t = 1_700_000_000u64;
    let token = generate(5, t, SECRET);
    assert_eq!(validate(&token, t, OTHER_SECRET), Err(TokenError::InvalidSignature));
}

#[test]
fn reissue_at_another_time_gives_a_different_token() {
    let t = 1_700_000_000u64;
    let t1 = generate(5, t, SECRET);
    let t2 = generate(5, t + 50, SECRET);
    assert_ne!(t1, t2);
    // both stay valid, each against its own expiry
    assert_eq!(validate(&t1, t + 50, SECRET), Ok(5));
    assert_eq!(validate(&t2, t + 50, SECRET), Ok(5));
    assert_eq!(validate(&t1, t + TOKEN_TTL_SECONDS + 1, SECRET), Err(TokenError::Expired));
    assert_eq!(validate(&t2, t + TOKEN_TTL_SECONDS + 1, SECRET), Ok(5));
}

#[test]
fn issuance_is_deterministic() {
    let t = 1_700_000_000u64;
    assert_eq!(generate(5, t, SECRET), generate(5, t, SECRET));
}

#[test]
fn signature_matches_independent_jwt_computation() {
    // the crate's wire format is exactly what jsonwebtoken would sign for
    // the same header and payload bytes
    let t = 1_700_000_000u64;
    let token = generate(5, t, SECRET);
    let second_dot = token
        .iter()
        .enumerate()
        .filter(|(_, &b)| b == b'.')
        .map(|(i, _)| i)
        .nth(1)
        .unwrap();
    let key = jsonwebtoken::EncodingKey::from_secret(SECRET);
    let sig =
        jsonwebtoken::crypto::sign(&token[..second_dot], &key, jsonwebtoken::Algorithm::HS256)
            .unwrap();
    assert_eq!(&token[second_dot + 1..], sig.as_bytes());
}
