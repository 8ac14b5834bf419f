//! The symmetric signature primitive behind the token codec.
//!
//! The one thing this crate does not compute itself is the MAC: that is
//! `jsonwebtoken`'s job. Everything around it — the claim encoding, the
//! URL-safe base64, the three-segment wire format, the comparisons — is
//! verified code in the neighbouring modules.

use vstd::prelude::*;

use crate::base64url::b64;

verus! {

/// The HMAC-SHA256 tag of `msg` under key `secret`.
///
/// The tag is a pure function of the two arguments; its definition (a
/// nested pair of SHA-256 applications) is not restated here, so nothing
/// is assumed about its value beyond what [`hs256_sign`] states.
pub uninterp spec fn hmac_mac(msg: Seq<u8>, secret: Seq<u8>) -> Seq<u8>;

/// Relies on `jsonwebtoken::crypto::sign` with `Algorithm::HS256` and an
/// `EncodingKey::from_secret` key: it computes the HMAC-SHA256 tag of
/// `message` under `secret` and returns the tag's URL-safe unpadded
/// base64, which this contract states with this crate's own [`b64`]. A
/// key from `from_secret` has the HMAC family, the HS256 signer accepts
/// any key of that family at any length, and its signing step cannot
/// fail, so the error arm below is never taken.
#[verifier::external_body]
pub(crate) fn hs256_sign(message: &[u8], secret: &[u8]) -> (r: Vec<u8>)
    ensures
        r@ == b64(hmac_mac(message@, secret@)),
{
    let key = jsonwebtoken::EncodingKey::from_secret(secret);
    match jsonwebtoken::crypto::sign(message, &key, jsonwebtoken::Algorithm::HS256) {
        Ok(sig) => sig.into_bytes(),
        Err(_) => Vec::new(),
    }
}

} // verus!
