//! One-way salted password hashing and verification.
//!
//! The slow hash itself is bcrypt's; this module pins down everything a
//! caller can rely on: a fresh hash verifies its own password, and
//! verification collapses "wrong password" and "malformed stored hash"
//! into one `Unauthorized` outcome, so callers cannot tell the two apart.

use vstd::prelude::*;

use crate::error::AppError;

verus! {

/// Whether `bcrypt::verify(password, hash)` returns `Ok(true)`.
///
/// That predicate is a pure function of its two arguments — the salt and
/// cost are read back out of the hash string — but its definition is the
/// bcrypt key schedule, which is not restated here.
pub uninterp spec fn bcrypt_verifies(password: Seq<char>, hash: Seq<char>) -> bool;

/// Relies on `bcrypt::verify`: it recomputes the hash from the password
/// and the salt and cost embedded in `hashed`, and compares in constant
/// time. A mismatch reads `Ok(false)` and a malformed hash reads `Err`;
/// both arms come back as `false` here, which is exactly the negation of
/// the named predicate.
#[verifier::external_body]
fn bcrypt_check(password: &str, hashed: &str) -> (r: bool)
    ensures
        r == bcrypt_verifies(password@, hashed@),
{
    bcrypt::verify(password, hashed).unwrap_or(false)
}

/// The shape of every hash string this crate produces: exactly 60
/// characters opening with the version-and-cost prefix `$2b$12$`. The
/// remaining 53 characters encode the salt and digest, on which nothing
/// is stated. A value of this shape is never an ordinary password, so a
/// stored hash is distinguishable from the plaintext it was derived from
/// (see [`lemma_hash_shape_differs`]).
pub open spec fn is_bcrypt_hash_string(h: Seq<char>) -> bool {
    h.len() == 60 && h.subrange(0, 7) == "$2b$12$"@
}

/// A string of the hash shape cannot equal any string that is not of the
/// hash shape; in particular a stored hash differs from every plaintext
/// password that is not itself 60 characters opening with `$2b$12$`.
pub proof fn lemma_hash_shape_differs(password: Seq<char>, h: Seq<char>)
    requires
        is_bcrypt_hash_string(h),
        !is_bcrypt_hash_string(password),
    ensures
        password != h,
{
}

/// Relies on `bcrypt::hash` with `DEFAULT_COST`: it draws a fresh random
/// salt, so beyond the crate's documented round trip — `bcrypt::verify`
/// accepts the returned hash for the hashed password — only the
/// documented output format is stated: 60 characters, version `2b`, cost
/// `12`, then base64 salt and digest. It fails only if the system's
/// randomness source does.
#[verifier::external_body]
fn bcrypt_hash(password: &str) -> (r: Option<String>)
    ensures
        r matches Some(h) ==> bcrypt_verifies(password@, h@) && is_bcrypt_hash_string(h@),
{
    bcrypt::hash(password, bcrypt::DEFAULT_COST).ok()
}

/// Hashes a password with a fresh salt and a fixed work factor.
///
/// Succeeds with a hash string that verifies the same password and has
/// the fixed `$2b$12$` 60-character shape — so it is never the plaintext
/// itself, for any password that does not have that shape; fails only on
/// an internal hashing failure, never because of the password's content.
pub fn hash_password(naive_password: &str) -> (r: Result<String, AppError>)
    ensures
        r matches Ok(h) ==> bcrypt_verifies(naive_password@, h@) && is_bcrypt_hash_string(h@),
        r matches Err(e) ==> e == AppError::InternalServerError,
{
    match bcrypt_hash(naive_password) {
        Some(h) => Ok(h),
        None => Err(AppError::InternalServerError),
    }
}

/// Checks a password against a stored hash.
///
/// Accepts exactly when bcrypt accepts. A wrong password and a malformed
/// stored hash yield the same `Unauthorized` value, so the two causes are
/// indistinguishable to the caller.
pub fn verify(naive_password: &str, hashed_password: &str) -> (r: Result<(), AppError>)
    ensures
        r is Ok <==> bcrypt_verifies(naive_password@, hashed_password@),
        r is Err ==> r == Err::<(), AppError>(AppError::Unauthorized),
{
    if bcrypt_check(naive_password, hashed_password) {
        Ok(())
    } else {
        Err(AppError::Unauthorized)
    }
}

} // verus!
