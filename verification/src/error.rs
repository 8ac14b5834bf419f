//! Error taxonomy for the identity core.
//!
//! Outward-facing failures collapse internal causes on purpose: a failed
//! sign-in never reveals whether the email exists, and a rejected request
//! never reveals whether its token was absent, malformed, tampered with or
//! expired.

use vstd::prelude::*;

verus! {

/// A field-level conflict detected while creating or updating an account.
#[derive(Clone, Copy, Debug, PartialEq, Eq, Structural)]
pub enum ValidationIssue {
    /// The email is already bound to another account.
    EmailTaken,
    /// The username is already bound to another account.
    UsernameTaken,
    /// The follow or favorite edge already exists for this pair.
    DuplicateEdge,
}

/// The error taxonomy this core exposes to its callers.
#[derive(Clone, Copy, Debug, PartialEq, Eq, Structural)]
pub enum AppError {
    /// Missing, invalid or expired credentials. One uniform value for every
    /// cause, so callers cannot probe which check failed.
    Unauthorized,
    /// The caller is known but not allowed to perform the operation.
    Forbidden,
    /// A referenced record does not exist.
    NotFound,
    /// A unique constraint was violated; the field is named so the client
    /// can report it.
    UnprocessableEntity(ValidationIssue),
    /// A storage, configuration or crypto failure with no actionable
    /// client-facing detail.
    InternalServerError,
}

impl AppError {
    /// Human-readable message, uniform within each variant.
    pub fn message(&self) -> (r: &'static str)
        ensures
            r@ == match *self {
                AppError::Unauthorized => "unauthorized"@,
                AppError::Forbidden => "forbidden"@,
                AppError::NotFound => "requested record was not found"@,
                AppError::UnprocessableEntity(issue) => match issue {
                    ValidationIssue::EmailTaken => "email is already taken"@,
                    ValidationIssue::UsernameTaken => "username is already taken"@,
                    ValidationIssue::DuplicateEdge => "the relationship already exists"@,
                },
                AppError::InternalServerError => "internal server error"@,
            },
    {
        match self {
            AppError::Unauthorized => "unauthorized",
            AppError::Forbidden => "forbidden",
            AppError::NotFound => "requested record was not found",
            AppError::UnprocessableEntity(issue) => match issue {
                ValidationIssue::EmailTaken => "email is already taken",
                ValidationIssue::UsernameTaken => "username is already taken",
                ValidationIssue::DuplicateEdge => "the relationship already exists",
            },
            AppError::InternalServerError => "internal server error",
        }
    }
}

/// Failures of the token codec, before they are collapsed into
/// [`AppError::Unauthorized`] at the request boundary.
#[derive(Clone, Copy, Debug, PartialEq, Eq, Structural)]
pub enum TokenError {
    /// The token is malformed or its signature does not match its claims.
    InvalidSignature,
    /// The signature is genuine but the expiry timestamp lies in the past.
    Expired,
    /// The signing backend rejected the configured secret. Listed for
    /// completeness of the taxonomy; with the secret injected as a plain
    /// argument, checked once at startup, no issuance path of this crate
    /// produces it.
    Config,
}

} // verus!
