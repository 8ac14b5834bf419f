//! Issuance and validation of signed, time-bound bearer tokens.
//!
//! A token is three URL-safe base64 segments joined by dots: a fixed
//! header, the claim set of [`crate::claims`], and the HMAC-SHA256 tag of
//! the first two segments under a server-held secret. Validation is
//! stateless: a byte string is accepted exactly when it is
//! [`token_bytes`] of some claim set under the given secret and its expiry
//! has not passed, which [`token_outcome`] states and [`validate`]
//! implements. No clock-skew leeway is applied, and an issue time in the
//! future is deliberately not rejected: only the expiry bound matters.

use vstd::prelude::*;

use crate::base64url::b64;
use crate::base64url::b64_decode;
use crate::base64url::b64_encode;
use crate::base64url::is_b64_char;
use crate::base64url::is_b64_seq;
use crate::base64url::lemma_b64_chars;
use crate::base64url::lemma_b64_injective;
use crate::base64url::lemma_b64_len;
use crate::bytes::bytes_eq;
use crate::bytes::bytes_eq_ct;
use crate::bytes::push_all;
use crate::claims::claims_bytes;
use crate::claims::claims_to_bytes;
use crate::claims::lemma_claims_bytes_injective;
use crate::claims::parse_claims;
use crate::error::TokenError;
use crate::signing::hmac_mac;
use crate::signing::hs256_sign;
use vstd::slice::slice_subrange;

verus! {

/// `{"alg":"HS256","typ":"JWT"}`
pub open spec fn header_bytes() -> Seq<u8> {
    seq![
        123u8, 34, 97, 108, 103, 34, 58, 34, 72, 83, 50, 53, 54, 34, 44, 34, 116, 121, 112, 34,
        58, 34, 74, 87, 84, 34, 125,
    ]
}

/// The portion of a token that is signed: encoded header, dot, encoded
/// claim set.
pub open spec fn signing_input_bytes(sub: u128, iat: u64, exp: u64) -> Seq<u8> {
    b64(header_bytes()) + seq![46u8] + b64(claims_bytes(sub, iat, exp))
}

/// The complete wire form of a token for the claim set (sub, iat, exp)
/// under `secret`.
pub open spec fn token_bytes(sub: u128, iat: u64, exp: u64, secret: Seq<u8>) -> Seq<u8> {
    signing_input_bytes(sub, iat, exp) + seq![46u8] + b64(
        hmac_mac(signing_input_bytes(sub, iat, exp), secret),
    )
}

/// Whether `t` is the wire form of some claim set under `secret`.
pub open spec fn is_token_for(t: Seq<u8>, secret: Seq<u8>) -> bool {
    exists|c: (u128, u64, u64)| t == token_bytes(c.0, c.1, c.2, secret)
}

/// The claim set a genuine token stands for. Unique by
/// [`lemma_token_bytes_injective`].
pub open spec fn token_claims(t: Seq<u8>, secret: Seq<u8>) -> (u128, u64, u64) {
    choose|c: (u128, u64, u64)| t == token_bytes(c.0, c.1, c.2, secret)
}

/// What validating `t` at time `now` under `secret` yields: the subject
/// of a genuine unexpired token, `Expired` for a genuine token past its
/// expiry, and `InvalidSignature` for every other byte string.
pub open spec fn token_outcome(t: Seq<u8>, now: u64, secret: Seq<u8>) -> Result<u128, TokenError> {
    if is_token_for(t, secret) {
        let c = token_claims(t, secret);
        if now <= c.2 {
            Ok(c.0)
        } else {
            Err(TokenError::Expired)
        }
    } else {
        Err(TokenError::InvalidSignature)
    }
}

/// First index of the signature segment inside the wire form.
pub open spec fn signature_start(sub: u128, iat: u64, exp: u64) -> int {
    signing_input_bytes(sub, iat, exp).len() as int + 1
}

/// The claim set embedded in a token before signing.
#[derive(Clone, Copy, Debug, PartialEq, Eq, Structural)]
pub struct Claims {
    /// Expiry timestamp, seconds.
    pub exp: u64,
    /// Issue timestamp, seconds.
    pub iat: u64,
    /// The account this token authenticates.
    pub user_id: u128,
}

impl Claims {
    /// Builds the claim set issued at `now`: it expires a fixed TTL later.
    pub fn new(user_id: u128, now: u64) -> (c: Claims)
        requires
            now <= u64::MAX - crate::TOKEN_TTL_SECONDS,
        ensures
            c.user_id == user_id,
            c.iat == now,
            c.exp == now + crate::TOKEN_TTL_SECONDS,
    {
        Claims { exp: now + crate::TOKEN_TTL_SECONDS, iat: now, user_id }
    }
}

/// The fixed token header as bytes.
fn header_to_bytes() -> (r: Vec<u8>)
    ensures
        r@ == header_bytes(),
{
    let mut out: Vec<u8> = Vec::new();
    out.push(123u8);
    out.push(34);
    out.push(97);
    out.push(108);
    out.push(103);
    out.push(34);
    out.push(58);
    out.push(34);
    out.push(72);
    out.push(83);
    out.push(50);
    out.push(53);
    out.push(54);
    out.push(34);
    out.push(44);
    out.push(34);
    out.push(116);
    out.push(121);
    out.push(112);
    out.push(34);
    out.push(58);
    out.push(34);
    out.push(74);
    out.push(87);
    out.push(84);
    out.push(34);
    out.push(125);
    proof {
        assert(out@ =~= header_bytes());
    }
    out
}

/// Issues the token for `user_id` at time `now` under `secret`.
///
/// The result is exactly the wire form of the claim set
/// (user_id, now, now + TTL), so by [`lemma_token_outcome_issued`] it
/// validates to `user_id` at any time up to its expiry.
pub fn generate(user_id: u128, now: u64, secret: &[u8]) -> (token: Vec<u8>)
    requires
        now <= u64::MAX - crate::TOKEN_TTL_SECONDS,
    ensures
        token@ == token_bytes(
            user_id,
            now,
            (now + crate::TOKEN_TTL_SECONDS) as u64,
            secret@,
        ),
{
    let claims = Claims::new(user_id, now);
    let header = header_to_bytes();
    let mut msg = b64_encode(header.as_slice());
    msg.push(46);
    let payload = claims_to_bytes(claims.user_id, claims.iat, claims.exp);
    let payload_b64 = b64_encode(payload.as_slice());
    push_all(&mut msg, payload_b64.as_slice());
    proof {
        assert(msg@ =~= signing_input_bytes(user_id, now, (now + crate::TOKEN_TTL_SECONDS) as u64));
    }
    let sig = hs256_sign(msg.as_slice(), secret);
    let mut token = msg;
    token.push(46);
    push_all(&mut token, sig.as_slice());
    proof {
        assert(token@ =~= token_bytes(
            user_id,
            now,
            (now + crate::TOKEN_TTL_SECONDS) as u64,
            secret@,
        ));
    }
    token
}

/// First dot at or after `start`, if any.
fn find_dot(t: &[u8], start: usize) -> (r: Option<usize>)
    requires
        start <= t@.len(),
    ensures
        r matches Some(j) ==> start <= j < t@.len() && t@[j as int] == 46 && (forall|k: int|
            start <= k < j ==> t@[k] != 46),
        r is None ==> forall|k: int| start <= k < t@.len() ==> t@[k] != 46,
{
    let mut i = start;
    while i < t.len()
        invariant
            start <= i <= t@.len(),
            forall|k: int| start <= k < i ==> t@[k] != 46,
        decreases t@.len() - i,
    {
        if t[i] == 46 {
            return Some(i);
        }
        i = i + 1;
    }
    None
}

/// The segment layout of a wire-form token: two dots, everything else in
/// the base64 alphabet, and each segment recoverable by its offsets.
proof fn lemma_token_structure(sub: u128, iat: u64, exp: u64, secret: Seq<u8>)
    ensures
        ({
            let h = b64(header_bytes());
            let c = b64(claims_bytes(sub, iat, exp));
            let g = b64(hmac_mac(signing_input_bytes(sub, iat, exp), secret));
            let t = token_bytes(sub, iat, exp, secret);
            let hl = h.len() as int;
            let cl = c.len() as int;
            t.len() == hl + 1 + cl + 1 + g.len() && t.subrange(0, hl) == h && t[hl] == 46
                && t.subrange(hl + 1, hl + 1 + cl) == c && t[hl + 1 + cl] == 46 && t.subrange(
                hl + 2 + cl,
                t.len() as int,
            ) == g && t.subrange(0, hl + 1 + cl) == signing_input_bytes(sub, iat, exp)
                && is_b64_seq(h) && is_b64_seq(c) && is_b64_seq(g) && hl >= 2 && cl >= 2
        }),
{
    let h = b64(header_bytes());
    let c = b64(claims_bytes(sub, iat, exp));
    let g = b64(hmac_mac(signing_input_bytes(sub, iat, exp), secret));
    let t = token_bytes(sub, iat, exp, secret);
    let hl = h.len() as int;
    let cl = c.len() as int;
    lemma_b64_chars(header_bytes());
    lemma_b64_chars(claims_bytes(sub, iat, exp));
    lemma_b64_chars(hmac_mac(signing_input_bytes(sub, iat, exp), secret));
    lemma_b64_len(header_bytes());
    lemma_b64_len(claims_bytes(sub, iat, exp));
    crate::digits::lemma_dec_digits_shape(exp as nat);
    crate::digits::lemma_dec_digits_shape(iat as nat);
    crate::digits::lemma_dec_digits_shape(sub as nat);
    assert(t.subrange(0, hl) =~= h);
    assert(t.subrange(hl + 1, hl + 1 + cl) =~= c);
    assert(t.subrange(hl + 2 + cl, t.len() as int) =~= g);
    assert(t.subrange(0, hl + 1 + cl) =~= signing_input_bytes(sub, iat, exp));
}

/// Two claim sets with the same wire form under one secret are equal.
pub proof fn lemma_token_bytes_injective(
    s1: u128,
    i1: u64,
    e1: u64,
    s2: u128,
    i2: u64,
    e2: u64,
    secret: Seq<u8>,
)
    requires
        token_bytes(s1, i1, e1, secret) == token_bytes(s2, i2, e2, secret),
    ensures
        s1 == s2 && i1 == i2 && e1 == e2,
{
    let t = token_bytes(s1, i1, e1, secret);
    lemma_token_structure(s1, i1, e1, secret);
    lemma_token_structure(s2, i2, e2, secret);
    let h = b64(header_bytes());
    let c1 = b64(claims_bytes(s1, i1, e1));
    let c2 = b64(claims_bytes(s2, i2, e2));
    let hl = h.len() as int;
    assert(!is_b64_char(46));
    // the second dot sits at the same offset in both layouts: inside the
    // other token's claim or signature segment it would have to be an
    // alphabet character
    if c1.len() < c2.len() {
        assert(t[hl + 1 + c1.len()] == 46);
        assert(t.subrange(hl + 1, hl + 1 + c2.len() as int)[c1.len() as int] == t[hl + 1
            + c1.len()]);
        assert(is_b64_char(c2[c1.len() as int]));
        assert(false);
    }
    if c2.len() < c1.len() {
        assert(t[hl + 1 + c2.len()] == 46);
        assert(t.subrange(hl + 1, hl + 1 + c1.len() as int)[c2.len() as int] == t[hl + 1
            + c2.len()]);
        assert(is_b64_char(c1[c2.len() as int]));
        assert(false);
    }
    assert(c1 =~= c2);
    lemma_b64_injective(claims_bytes(s1, i1, e1), claims_bytes(s2, i2, e2));
    lemma_claims_bytes_injective(s1, i1, e1, s2, i2, e2);
}

/// An issued token validates to its own subject at any time up to its
/// expiry, and to `Expired` at any later time, under the issuing secret.
pub proof fn lemma_token_outcome_issued(sub: u128, iat: u64, exp: u64, now: u64, secret: Seq<u8>)
    ensures
        token_outcome(token_bytes(sub, iat, exp, secret), now, secret) == (if now <= exp {
            Ok::<u128, TokenError>(sub)
        } else {
            Err::<u128, TokenError>(TokenError::Expired)
        }),
{
    let t = token_bytes(sub, iat, exp, secret);
    let w = (sub, iat, exp);
    assert(t == token_bytes(w.0, w.1, w.2, secret));
    assert(is_token_for(t, secret));
    let c = token_claims(t, secret);
    assert(t == token_bytes(c.0, c.1, c.2, secret));
    lemma_token_bytes_injective(sub, iat, exp, c.0, c.1, c.2, secret);
}

/// Changing any one byte of the signature segment of an issued token
/// leaves a byte string that is not a token under that secret at all, so
/// validation rejects it as `InvalidSignature` — never as `Expired`, and
/// never successfully.
pub proof fn lemma_tampered_signature_rejected(
    sub: u128,
    iat: u64,
    exp: u64,
    secret: Seq<u8>,
    p: int,
    b: u8,
    now: u64,
)
    requires
        signature_start(sub, iat, exp) <= p < token_bytes(sub, iat, exp, secret).len(),
        b != token_bytes(sub, iat, exp, secret)[p],
    ensures
        token_outcome(token_bytes(sub, iat, exp, secret).update(p, b), now, secret) == Err::<
            u128,
            TokenError,
        >(TokenError::InvalidSignature),
{
    let t = token_bytes(sub, iat, exp, secret);
    let t2 = t.update(p, b);
    lemma_token_structure(sub, iat, exp, secret);
    let h = b64(header_bytes());
    let c1 = b64(claims_bytes(sub, iat, exp));
    let hl = h.len() as int;
    let cl = c1.len() as int;
    assert(!is_b64_char(46));
    if is_token_for(t2, secret) {
        let c = token_claims(t2, secret);
        assert(t2 == token_bytes(c.0, c.1, c.2, secret));
        lemma_token_structure(c.0, c.1, c.2, secret);
        let c2 = b64(claims_bytes(c.0, c.1, c.2));
        let cl2 = c2.len() as int;
        // the second dot of the original survives the tampering, and in
        // the tampered token's own layout that position must again be the
        // second dot
        assert(t2[hl + 1 + cl] == t[hl + 1 + cl]);
        assert(t2[hl + 1 + cl] == 46);
        if cl < cl2 {
            assert(t2.subrange(hl + 1, hl + 1 + cl2)[cl] == t2[hl + 1 + cl]);
            assert(is_b64_char(c2[cl]));
            assert(false);
        }
        if cl2 < cl {
            assert(t2[hl + 1 + cl2] == 46);
            assert(t2[hl + 1 + cl2] == t[hl + 1 + cl2]);
            assert(t.subrange(hl + 1, hl + 1 + cl)[cl2] == t[hl + 1 + cl2]);
            assert(is_b64_char(c1[cl2]));
            assert(false);
        }
        assert forall|k: int| hl + 1 <= k < hl + 1 + cl implies t2[k] == t[k] by {}
        assert(t2.subrange(hl + 1, hl + 1 + cl) =~= t.subrange(hl + 1, hl + 1 + cl));
        assert(c2 == c1);
        lemma_b64_injective(claims_bytes(c.0, c.1, c.2), claims_bytes(sub, iat, exp));
        lemma_claims_bytes_injective(c.0, c.1, c.2, sub, iat, exp);
        // same claims, same secret: the tampered string would have to
        // equal the original, including the byte that was changed
        assert(t2 == token_bytes(sub, iat, exp, secret));
        assert(t2[p] == t[p]);
        assert(t2[p] == b);
        assert(false);
    }
}

/// Tokens issued to the same subject at different times differ as byte
/// strings; each is judged only against its own expiry.
pub proof fn lemma_reissued_token_differs(
    sub: u128,
    i1: u64,
    e1: u64,
    i2: u64,
    e2: u64,
    secret: Seq<u8>,
)
    requires
        i1 != i2,
    ensures
        token_bytes(sub, i1, e1, secret) != token_bytes(sub, i2, e2, secret),
{
    if token_bytes(sub, i1, e1, secret) == token_bytes(sub, i2, e2, secret) {
        lemma_token_bytes_injective(sub, i1, e1, sub, i2, e2, secret);
    }
}

/// Validates a token at time `now` under `secret`.
///
/// Returns the subject of a genuine unexpired token, `Expired` for a
/// genuine token whose expiry lies before `now`, and `InvalidSignature`
/// for everything else, exactly as [`token_outcome`] states. Malformed
/// input of any shape is rejected, never mis-parsed.
#[verifier::rlimit(100)]
pub fn validate(token: &[u8], now: u64, secret: &[u8]) -> (r: Result<u128, TokenError>)
    ensures
        r == token_outcome(token@, now, secret@),
{
    let n = token.len();
    let p1 = match find_dot(token, 0) {
        Some(j) => j,
        None => {
            proof {
                assert forall|cw: (u128, u64, u64)|
                    token@ != token_bytes(cw.0, cw.1, cw.2, secret@) by {
                    if token@ == token_bytes(cw.0, cw.1, cw.2, secret@) {
                        lemma_token_structure(cw.0, cw.1, cw.2, secret@);
                        let hl = b64(header_bytes()).len() as int;
                        assert(token@[hl] == 46);
                        assert(false);
                    }
                }
            }
            return Err(TokenError::InvalidSignature);
        },
    };
    let header = header_to_bytes();
    let expected_header = b64_encode(header.as_slice());
    if !bytes_eq(slice_subrange(token, 0, p1), expected_header.as_slice()) {
        proof {
            assert forall|cw: (u128, u64, u64)|
                token@ != token_bytes(cw.0, cw.1, cw.2, secret@) by {
                if token@ == token_bytes(cw.0, cw.1, cw.2, secret@) {
                    lemma_token_structure(cw.0, cw.1, cw.2, secret@);
                    let h = b64(header_bytes());
                    let hl = h.len() as int;
                    if p1 < hl {
                        assert(token@[p1 as int] == token@.subrange(0, hl)[p1 as int]);
                        assert(is_b64_char(h[p1 as int]));
                        assert(!is_b64_char(46));
                        assert(false);
                    }
                    if p1 > hl {
                        assert(token@[hl] == 46);
                        assert(false);
                    }
                    assert(token@.subrange(0, p1 as int) == h);
                    assert(false);
                }
            }
        }
        return Err(TokenError::InvalidSignature);
    }
    let p2 = match find_dot(token, p1 + 1) {
        Some(j) => j,
        None => {
            proof {
                assert forall|cw: (u128, u64, u64)|
                    token@ != token_bytes(cw.0, cw.1, cw.2, secret@) by {
                    if token@ == token_bytes(cw.0, cw.1, cw.2, secret@) {
                        lemma_token_structure(cw.0, cw.1, cw.2, secret@);
                        let hl = b64(header_bytes()).len() as int;
                        let cl = b64(claims_bytes(cw.0, cw.1, cw.2)).len() as int;
                        assert(p1 == hl);
                        assert(token@[hl + 1 + cl] == 46);
                        assert(false);
                    }
                }
            }
            return Err(TokenError::InvalidSignature);
        },
    };
    let payload = match b64_decode(slice_subrange(token, p1 + 1, p2)) {
        Some(d) => d,
        None => {
            proof {
                assert forall|cw: (u128, u64, u64)|
                    token@ != token_bytes(cw.0, cw.1, cw.2, secret@) by {
                    if token@ == token_bytes(cw.0, cw.1, cw.2, secret@) {
                        lemma_token_structure(cw.0, cw.1, cw.2, secret@);
                        let h = b64(header_bytes());
                        let c = b64(claims_bytes(cw.0, cw.1, cw.2));
                        let hl = h.len() as int;
                        let cl = c.len() as int;
                        assert(p1 == hl);
                        lemma_second_dot(token@, cw, secret@, p1 as int, p2 as int);
                        assert(token@.subrange(p1 + 1, p2 as int) == c);
                    }
                }
            }
            return Err(TokenError::InvalidSignature);
        },
    };
    let parsed = match parse_claims(payload.as_slice()) {
        Some(c) => c,
        None => {
            proof {
                assert forall|cw: (u128, u64, u64)|
                    token@ != token_bytes(cw.0, cw.1, cw.2, secret@) by {
                    if token@ == token_bytes(cw.0, cw.1, cw.2, secret@) {
                        lemma_token_structure(cw.0, cw.1, cw.2, secret@);
                        let h = b64(header_bytes());
                        let c = b64(claims_bytes(cw.0, cw.1, cw.2));
                        assert(p1 == h.len() as int);
                        lemma_second_dot(token@, cw, secret@, p1 as int, p2 as int);
                        assert(token@.subrange(p1 + 1, p2 as int) == c);
                        lemma_b64_injective(payload@, claims_bytes(cw.0, cw.1, cw.2));
                        assert(payload@ == claims_bytes(cw.0, cw.1, cw.2));
                    }
                }
            }
            return Err(TokenError::InvalidSignature);
        },
    };
    let expected_sig = hs256_sign(slice_subrange(token, 0, p2), secret);
    // compared without an early exit, so a forged signature's running
    // time does not reveal how much of it matched
    if !bytes_eq_ct(slice_subrange(token, p2 + 1, n), expected_sig.as_slice()) {
        proof {
            assert forall|cw: (u128, u64, u64)|
                token@ != token_bytes(cw.0, cw.1, cw.2, secret@) by {
                if token@ == token_bytes(cw.0, cw.1, cw.2, secret@) {
                    lemma_token_structure(cw.0, cw.1, cw.2, secret@);
                    let h = b64(header_bytes());
                    let c = b64(claims_bytes(cw.0, cw.1, cw.2));
                    let hl = h.len() as int;
                    let cl = c.len() as int;
                    assert(p1 == hl);
                    lemma_second_dot(token@, cw, secret@, p1 as int, p2 as int);
                    assert(token@.subrange(0, p2 as int) == signing_input_bytes(
                        cw.0,
                        cw.1,
                        cw.2,
                    ));
                    assert(token@.subrange(p2 + 1, n as int) == b64(
                        hmac_mac(signing_input_bytes(cw.0, cw.1, cw.2), secret@),
                    ));
                    assert(false);
                }
            }
        }
        return Err(TokenError::InvalidSignature);
    }
    let (sub, iat, exp) = parsed;
    proof {
        let h = b64(header_bytes());
        let hl = h.len() as int;
        let si = signing_input_bytes(sub, iat, exp);
        assert(token@.subrange(0, p1 as int) == h);
        assert(p1 == hl);
        assert(token@.subrange(p1 + 1, p2 as int) == b64(payload@));
        assert(payload@ == claims_bytes(sub, iat, exp));
        assert forall|k: int| 0 <= k < p2 implies token@[k] == si[k] by {
            if k < p1 {
                assert(token@[k] == token@.subrange(0, p1 as int)[k]);
            } else if k > p1 {
                assert(token@[k] == token@.subrange(p1 + 1, p2 as int)[k - (p1 + 1)]);
            }
        }
        assert(token@.subrange(0, p2 as int) =~= si);
        assert(expected_sig@ == b64(hmac_mac(si, secret@)));
        assert(token@.subrange(p2 + 1, n as int) == b64(hmac_mac(si, secret@)));
        let tb = token_bytes(sub, iat, exp, secret@);
        assert forall|k: int| 0 <= k < n implies token@[k] == tb[k] by {
            if k < p2 {
                assert(token@[k] == token@.subrange(0, p2 as int)[k]);
            } else if k > p2 {
                assert(token@[k] == token@.subrange(p2 + 1, n as int)[k - (p2 + 1)]);
            }
        }
        assert(tb.len() == si.len() + 1 + b64(hmac_mac(si, secret@)).len());
        assert(token@ =~= tb);
        let w = (sub, iat, exp);
        assert(token@ == token_bytes(w.0, w.1, w.2, secret@));
        assert(is_token_for(token@, secret@));
        let c0 = token_claims(token@, secret@);
        assert(token@ == token_bytes(c0.0, c0.1, c0.2, secret@));
        lemma_token_bytes_injective(sub, iat, exp, c0.0, c0.1, c0.2, secret@);
    }
    if now <= exp {
        Ok(sub)
    } else {
        Err(TokenError::Expired)
    }
}

/// If a wire-form token's first dot is at `p1`, the first dot after it is
/// the boundary between the claim and signature segments.
proof fn lemma_second_dot(t: Seq<u8>, cw: (u128, u64, u64), secret: Seq<u8>, p1: int, p2: int)
    requires
        t == token_bytes(cw.0, cw.1, cw.2, secret),
        p1 == b64(header_bytes()).len() as int,
        p1 + 1 <= p2 < t.len(),
        t[p2] == 46,
        forall|k: int| p1 + 1 <= k < p2 ==> t[k] != 46,
    ensures
        p2 == p1 + 1 + b64(claims_bytes(cw.0, cw.1, cw.2)).len(),
{
    lemma_token_structure(cw.0, cw.1, cw.2, secret);
    let h = b64(header_bytes());
    let c = b64(claims_bytes(cw.0, cw.1, cw.2));
    let hl = h.len() as int;
    let cl = c.len() as int;
    assert(!is_b64_char(46));
    if p2 < hl + 1 + cl {
        assert(t[p2] == t.subrange(hl + 1, hl + 1 + cl)[p2 - (hl + 1)]);
        assert(is_b64_char(c[p2 - (hl + 1)]));
        assert(false);
    }
    if p2 > hl + 1 + cl {
        assert(t[hl + 1 + cl] == 46);
        assert(false);
    }
}

} // verus!
