//! The request shapes of the credential endpoints, as plain data. The
//! surrounding HTTP layer deserializes into its own copies of these and
//! converts; the core only ever sees the values.

use vstd::prelude::*;

use crate::user::UpdateUser;

verus! {

/// The sign-in request envelope.
pub struct Signin {
    /// The credentials.
    pub user: SigninUser,
}

/// Sign-in credentials.
pub struct SigninUser {
    /// Account email.
    pub email: String,
    /// Plaintext password.
    pub password: String,
}

/// The sign-up request envelope.
pub struct Signup {
    /// The registration fields.
    pub user: SignupUser,
}

/// Sign-up fields; the password arrives as plaintext and is hashed by
/// the credential service before anything is stored.
pub struct SignupUser {
    /// Username to register.
    pub username: String,
    /// Email to register.
    pub email: String,
    /// Plaintext password.
    pub password: String,
}

/// The account-update request envelope.
pub struct Update {
    /// The partial changeset.
    pub user: UpdateUser,
}

} // verus!
