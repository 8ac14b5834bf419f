//! Bulk personalization of article listings.
//!
//! Every article read path decorates each (article, author) pair with
//! the viewer-relative `following` and `favorited` flags and the
//! viewer-independent favorites count. Factoring the computation here
//! keeps anonymous and authenticated views on one code path — they
//! differ only in whether a viewer id is present — so a listing can
//! never show one article personalized and another not.

use vstd::prelude::*;

use crate::favorite::fav_contains;
use crate::favorite::fav_count;
use crate::favorite::FavoriteInfo;
use crate::favorite::FavoriteStore;
use crate::follow::follow_contains;
use crate::follow::FollowStore;

verus! {

/// One row of a listing: which article, by which author.
#[derive(Clone, Copy, Debug, PartialEq, Eq, Structural)]
pub struct ArticleTarget {
    /// The article shown.
    pub article_id: u128,
    /// The account that wrote it.
    pub author_id: u128,
}

/// The viewer-relative decoration of one row.
#[derive(Clone, Copy, Debug, PartialEq, Eq, Structural)]
pub struct PersonalizedTarget {
    /// Whether the viewer follows the row's author.
    pub following: bool,
    /// The row's favorite facts for this viewer.
    pub favorite_info: FavoriteInfo,
}

/// Decorates every row of a listing for one viewer.
///
/// An anonymous viewer reads `false` for both flags on every row; an
/// authenticated viewer reads exactly their own edges. The count is the
/// same for every viewer.
pub fn personalize(
    viewer: Option<u128>,
    targets: &Vec<ArticleTarget>,
    follows: &FollowStore,
    favorites: &FavoriteStore,
) -> (r: Vec<PersonalizedTarget>)
    requires
        favorites.edges().len() <= u64::MAX,
    ensures
        r@.len() == targets@.len(),
        forall|i: int|
            0 <= i < targets@.len() ==> {
                &&& #[trigger] r@[i].following == (viewer matches Some(v) && follow_contains(
                    follows.edges(),
                    v,
                    targets@[i].author_id,
                ))
                &&& r@[i].favorite_info.is_favorited == (viewer matches Some(v) && fav_contains(
                    favorites.edges(),
                    v,
                    targets@[i].article_id,
                ))
                &&& r@[i].favorite_info.favorites_count as nat == fav_count(
                    favorites.edges(),
                    targets@[i].article_id,
                )
            },
{
    let n = targets.len();
    let mut out: Vec<PersonalizedTarget> = Vec::new();
    let mut i: usize = 0;
    while i < n
        invariant
            i <= n,
            n == targets@.len(),
            favorites.edges().len() <= u64::MAX,
            out@.len() == i,
            forall|k: int|
                0 <= k < i ==> {
                    &&& #[trigger] out@[k].following == (viewer matches Some(v) && follow_contains(
                        follows.edges(),
                        v,
                        targets@[k].author_id,
                    ))
                    &&& out@[k].favorite_info.is_favorited == (viewer matches Some(v)
                        && fav_contains(favorites.edges(), v, targets@[k].article_id))
                    &&& out@[k].favorite_info.favorites_count as nat == fav_count(
                        favorites.edges(),
                        targets@[k].article_id,
                    )
                },
        decreases n - i,
    {
        let t = targets[i];
        let following = follows.is_following(viewer, t.author_id);
        let is_favorited = favorites.is_favorited(viewer, t.article_id);
        let favorites_count = favorites.favorites_count(t.article_id);
        out.push(
            PersonalizedTarget {
                following,
                favorite_info: FavoriteInfo { is_favorited, favorites_count },
            },
        );
        i = i + 1;
    }
    out
}

} // verus!
