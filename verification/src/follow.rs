//! Directed follow edges between accounts, and the viewer-relative
//! `following` flag.
//!
//! The store keeps at most one edge per (follower, followee) pair — the
//! uniqueness constraint the relational schema would enforce — and a
//! duplicate insert is refused rather than doubled. A self-follow edge is
//! deliberately not special-cased: `is_following(Some(v), v)` reports
//! whether such an edge exists.

use vstd::prelude::*;

use crate::error::AppError;
use crate::error::ValidationIssue;

verus! {

/// A directed follow edge: `follower_id` follows `followee_id`.
#[derive(Clone, Copy, Debug, PartialEq, Eq, Structural)]
pub struct Follow {
    /// The account being followed.
    pub followee_id: u128,
    /// The account that follows.
    pub follower_id: u128,
    /// When the edge was created, seconds.
    pub created_at: u64,
    /// When the edge was last written, seconds.
    pub updated_at: u64,
}

/// The pair to insert as a follow edge.
#[derive(Clone, Copy, Debug, PartialEq, Eq, Structural)]
pub struct CreateFollow {
    /// The account that follows.
    pub follower_id: u128,
    /// The account being followed.
    pub followee_id: u128,
}

/// The pair whose follow edge is to be removed.
#[derive(Clone, Copy, Debug, PartialEq, Eq, Structural)]
pub struct DeleteFollow {
    /// The account that follows.
    pub follower_id: u128,
    /// The account being followed.
    pub followee_id: u128,
}

/// Whether an edge from `follower` to `followee` is present.
pub open spec fn follow_contains(s: Seq<Follow>, follower: u128, followee: u128) -> bool {
    exists|i: int|
        0 <= i < s.len() && s[i].follower_id == follower && s[i].followee_id == followee
}

/// The follow-edge table, with one edge per (follower, followee) pair.
pub struct FollowStore {
    edges: Vec<Follow>,
}

impl FollowStore {
    /// The edges currently stored.
    pub closed spec fn edges(self) -> Seq<Follow> {
        self.edges@
    }

    /// At most one edge per (follower, followee) pair.
    pub open spec fn wf(self) -> bool {
        forall|i: int, j: int|
            0 <= i < j < self.edges().len() ==> !(#[trigger] self.edges()[i].follower_id
                == #[trigger] self.edges()[j].follower_id && self.edges()[i].followee_id
                == self.edges()[j].followee_id)
    }

    /// An empty table.
    pub fn new() -> (r: FollowStore)
        ensures
            r.wf(),
            r.edges() == Seq::<Follow>::empty(),
    {
        FollowStore { edges: Vec::new() }
    }

    /// Whether the edge of `record` is present.
    pub fn exists_edge(&self, follower_id: u128, followee_id: u128) -> (r: bool)
        ensures
            r == follow_contains(self.edges(), follower_id, followee_id),
    {
        let n = self.edges.len();
        let mut i: usize = 0;
        while i < n
            invariant
                i <= n,
                n == self.edges().len(),
                forall|k: int|
                    0 <= k < i ==> !(#[trigger] self.edges()[k].follower_id == follower_id
                        && self.edges()[k].followee_id == followee_id),
            decreases n - i,
        {
            let e = self.edges[i];
            if e.follower_id == follower_id && e.followee_id == followee_id {
                return true;
            }
            i = i + 1;
        }
        false
    }

    /// Inserts the edge of `record`, refusing a duplicate.
    ///
    /// On success exactly one new edge exists; if the pair is already
    /// present the table is unchanged and the conflict is reported, the
    /// way the schema's uniqueness constraint would surface it.
    pub fn create(&mut self, record: &CreateFollow, now: u64) -> (r: Result<(), AppError>)
        requires
            old(self).wf(),
        ensures
            final(self).wf(),
            match r {
                Ok(()) => !follow_contains(old(self).edges(), record.follower_id, record.followee_id)
                    && final(self).edges() == old(self).edges().push(
                    Follow {
                        followee_id: record.followee_id,
                        follower_id: record.follower_id,
                        created_at: now,
                        updated_at: now,
                    },
                ),
                Err(e) => follow_contains(old(self).edges(), record.follower_id, record.followee_id)
                    && *final(self) == *old(self) && e == AppError::UnprocessableEntity(
                    ValidationIssue::DuplicateEdge,
                ),
            },
    {
        if self.exists_edge(record.follower_id, record.followee_id) {
            return Err(AppError::UnprocessableEntity(ValidationIssue::DuplicateEdge));
        }
        self.edges.push(
            Follow {
                followee_id: record.followee_id,
                follower_id: record.follower_id,
                created_at: now,
                updated_at: now,
            },
        );
        Ok(())
    }

    /// Removes the edge of `record` if present, reporting how many edges
    /// were removed (one or zero, by uniqueness).
    pub fn delete(&mut self, record: &DeleteFollow) -> (r: usize)
        requires
            old(self).wf(),
        ensures
            final(self).wf(),
            !follow_contains(final(self).edges(), record.follower_id, record.followee_id),
            follow_contains(old(self).edges(), record.follower_id, record.followee_id) ==> r == 1
                && (exists|i: int|
                0 <= i < old(self).edges().len() && old(self).edges()[i].follower_id
                    == record.follower_id && old(self).edges()[i].followee_id == record.followee_id
                    && final(self).edges() == old(self).edges().remove(i)),
            !follow_contains(old(self).edges(), record.follower_id, record.followee_id) ==> r == 0
                && final(self).edges() == old(self).edges(),
    {
        let n = self.edges.len();
        let mut i: usize = 0;
        while i < n
            invariant
                i <= n,
                n == self.edges().len(),
                self.edges() == old(self).edges(),
                old(self).wf(),
                forall|k: int|
                    0 <= k < i ==> !(#[trigger] self.edges()[k].follower_id == record.follower_id
                        && self.edges()[k].followee_id == record.followee_id),
            decreases n - i,
        {
            let e = self.edges[i];
            if e.follower_id == record.follower_id && e.followee_id == record.followee_id {
                self.edges.remove(i);
                proof {
                    assert forall|a: int, b: int|
                        0 <= a < b < self.edges().len() implies !(#[trigger] self.edges()[a].follower_id
                        == #[trigger] self.edges()[b].follower_id && self.edges()[a].followee_id
                        == self.edges()[b].followee_id) by {
                        let old_a = if a < i { a } else { a + 1 };
                        let old_b = if b < i { b } else { b + 1 };
                        assert(self.edges()[a] == old(self).edges()[old_a]);
                        assert(self.edges()[b] == old(self).edges()[old_b]);
                    }
                    assert forall|k: int|
                        0 <= k < self.edges().len() implies !(#[trigger] self.edges()[k].follower_id
                        == record.follower_id && self.edges()[k].followee_id
                        == record.followee_id) by {
                        let old_k = if k < i { k } else { k + 1 };
                        assert(self.edges()[k] == old(self).edges()[old_k]);
                        if old_k > i {
                            assert(!(old(self).edges()[i as int].follower_id
                                == old(self).edges()[old_k].follower_id
                                && old(self).edges()[i as int].followee_id
                                == old(self).edges()[old_k].followee_id));
                        }
                    }
                }
                return 1;
            }
            i = i + 1;
        }
        0
    }

    /// The viewer-relative `following` flag: false for an anonymous
    /// viewer, otherwise whether the viewer's edge to `followee_id`
    /// exists.
    pub fn is_following(&self, viewer: Option<u128>, followee_id: u128) -> (r: bool)
        ensures
            viewer is None ==> r == false,
            viewer matches Some(v) ==> r == follow_contains(self.edges(), v, followee_id),
    {
        match viewer {
            None => false,
            Some(v) => self.exists_edge(v, followee_id),
        }
    }
}

/// A freshly inserted follow edge is visible: after `create` succeeds for
/// a pair, `is_following` reports true for that pair.
pub proof fn lemma_follow_then_visible(s: Seq<Follow>, e: Follow)
    ensures
        follow_contains(s.push(e), e.follower_id, e.followee_id),
{
    assert(s.push(e)[s.len() as int] == e);
}

} // verus!
