//! The response shapes of the credential and profile endpoints, and the
//! presenters that fill them. The surrounding HTTP layer turns these
//! plain values into JSON; the core only shapes them.

use vstd::prelude::*;

use crate::profile::Profile;
use crate::user::User;

verus! {

/// An authenticated account as the API presents it: public fields plus
/// the bearer token, never the password hash.
pub struct AuthUser {
    /// The account's email.
    pub email: String,
    /// The bearer token, in wire form.
    pub token: Vec<u8>,
    /// The account's username.
    pub username: String,
    /// The account's biography, if set.
    pub bio: Option<String>,
    /// The account's image URL, if set.
    pub image: Option<String>,
}

/// The envelope of every credential endpoint's response.
pub struct UserResponse {
    /// The authenticated account.
    pub user: AuthUser,
}

/// Shapes credential responses for the surrounding API.
pub struct UserPresenterImpl {}

impl UserPresenterImpl {
    /// A presenter; it carries no state.
    pub fn new() -> (r: Self)
        ensures
            true,
    {
        UserPresenterImpl {  }
    }

    /// Wraps an account and its token for the response; the password
    /// hash is left behind.
    pub fn to_response(&self, user: User, token: Vec<u8>) -> (r: UserResponse)
        ensures
            r.user.email == user.email,
            r.user.token == token,
            r.user.username == user.username,
            r.user.bio == user.bio,
            r.user.image == user.image,
    {
        UserResponse {
            user: AuthUser {
                email: user.email,
                token,
                username: user.username,
                bio: user.bio,
                image: user.image,
            },
        }
    }
}

/// The envelope of a profile response.
pub struct ProfileResponse {
    /// The profiled account.
    pub profile: ProfileContent,
}

/// A profile as the API presents it.
pub struct ProfileContent {
    /// The profiled account's username.
    pub username: String,
    /// The profiled account's biography, if set.
    pub bio: Option<String>,
    /// The profiled account's image URL, if set.
    pub image: Option<String>,
    /// Whether the viewer follows the profiled account.
    pub following: bool,
}

/// Shapes profile responses for the surrounding API.
pub struct ProfilePresenterImpl {}

impl ProfilePresenterImpl {
    /// A presenter; it carries no state.
    pub fn new() -> (r: Self)
        ensures
            true,
    {
        ProfilePresenterImpl {  }
    }

    /// Wraps a profile for the response, field for field.
    pub fn to_response(&self, entity: Profile) -> (r: ProfileResponse)
        ensures
            r.profile.username == entity.username,
            r.profile.bio == entity.bio,
            r.profile.image == entity.image,
            r.profile.following == entity.following,
    {
        ProfileResponse {
            profile: ProfileContent {
                username: entity.username,
                bio: entity.bio,
                image: entity.image,
                following: entity.following,
            },
        }
    }
}

/// The wiring point for favorite responses. Rendering a favorited
/// article needs the article's own presentation, which lives with the
/// article domain outside this core, so this presenter carries no logic
/// of its own.
pub struct FavoritePresenterImpl {}

impl FavoritePresenterImpl {
    /// A presenter; it carries no state.
    pub fn new() -> (r: Self)
        ensures
            true,
    {
        FavoritePresenterImpl {  }
    }
}

} // verus!
