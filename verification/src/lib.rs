//! Identity and access core for a social blogging backend: password
//! hashing, signed time-bound bearer tokens, credential issuance and
//! verification, request identity resolution, and viewer-relative
//! personalization of follow/favorite relationships.

use vstd::prelude::*;

pub mod base64url;
pub mod bytes;
pub mod claims;
pub mod digits;
pub mod error;
pub mod favorite;
pub mod follow;
pub mod hasher;
pub mod personalize;
pub mod presenters;
pub mod profile;
pub mod requests;
pub mod resolver;
pub mod signing;
pub mod tag;
pub mod token;
pub mod user;

verus! {

/// Number of seconds an issued token stays valid.
pub const TOKEN_TTL_SECONDS: u64 = 86400;

} // verus!
