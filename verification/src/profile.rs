//! The viewer-relative public face of an account.

use vstd::prelude::*;

verus! {

/// What one account shows another: public fields plus the
/// viewer-relative `following` flag.
#[derive(Debug)]
pub struct Profile {
    /// The profiled account's username.
    pub username: String,
    /// The profiled account's biography, if set.
    pub bio: Option<String>,
    /// The profiled account's image URL, if set.
    pub image: Option<String>,
    /// Whether the viewer follows the profiled account.
    pub following: bool,
}

impl Clone for Profile {
    fn clone(&self) -> (r: Self)
        ensures
            r == *self,
    {
        Profile {
            username: self.username.clone(),
            bio: match &self.bio {
                Some(b) => Some(b.clone()),
                None => None,
            },
            image: match &self.image {
                Some(i) => Some(i.clone()),
                None => None,
            },
            following: self.following,
        }
    }
}

} // verus!
