//! Favorite edges between accounts and articles, the viewer-relative
//! `favorited` flag, and the favorites count.
//!
//! As with follows, at most one edge exists per (user, article) pair: a
//! duplicate insert is refused and leaves the table unchanged, so issuing
//! the same favorite twice never creates two edges, and removing a
//! favorite removes exactly one.

use vstd::prelude::*;

use crate::error::AppError;
use crate::error::ValidationIssue;

verus! {

/// A favorite edge: `user_id` favorited `article_id`.
#[derive(Clone, Copy, Debug, PartialEq, Eq, Structural)]
pub struct Favorite {
    /// Identifier of the edge record itself.
    pub id: u128,
    /// The favorited article.
    pub article_id: u128,
    /// The account that favorited it.
    pub user_id: u128,
    /// When the edge was created, seconds.
    pub created_at: u64,
    /// When the edge was last written, seconds.
    pub updateed_at: u64,
}

/// The viewer-relative favorite facts about one article.
#[derive(Clone, Copy, Debug, PartialEq, Eq, Structural)]
pub struct FavoriteInfo {
    /// Whether the viewer has favorited the article.
    pub is_favorited: bool,
    /// How many accounts have favorited it, viewer-independent.
    pub favorites_count: u64,
}

/// The pair to insert as a favorite edge.
#[derive(Clone, Copy, Debug, PartialEq, Eq, Structural)]
pub struct CreateFavorite {
    /// The account that favorites.
    pub user_id: u128,
    /// The article being favorited.
    pub article_id: u128,
}

/// The pair whose favorite edge is to be removed.
#[derive(Clone, Copy, Debug, PartialEq, Eq, Structural)]
pub struct DeleteFavorite {
    /// The account whose favorite is withdrawn.
    pub user_id: u128,
    /// The article being unfavorited.
    pub article_id: u128,
}

/// Whether an edge from `user` to `article` is present.
pub open spec fn fav_contains(s: Seq<Favorite>, user: u128, article: u128) -> bool {
    exists|i: int| 0 <= i < s.len() && s[i].user_id == user && s[i].article_id == article
}

/// How many edges point at `article`.
pub open spec fn fav_count(s: Seq<Favorite>, article: u128) -> nat
    decreases s.len(),
{
    if s.len() == 0 {
        0
    } else {
        (if s[0].article_id == article {
            1nat
        } else {
            0nat
        }) + fav_count(s.drop_first(), article)
    }
}

/// The article ids the edges of `user` point at, in table order.
pub open spec fn fav_ids(s: Seq<Favorite>, user: u128) -> Seq<u128>
    decreases s.len(),
{
    if s.len() == 0 {
        Seq::empty()
    } else {
        (if s[0].user_id == user {
            seq![s[0].article_id]
        } else {
            Seq::<u128>::empty()
        }) + fav_ids(s.drop_first(), user)
    }
}

/// A freshly inserted favorite edge is visible: after `create` succeeds
/// for a pair, `is_favorited` reports true for that pair.
pub proof fn lemma_favorite_then_visible(s: Seq<Favorite>, e: Favorite)
    ensures
        fav_contains(s.push(e), e.user_id, e.article_id),
{
    assert(s.push(e)[s.len() as int] == e);
}

/// Counting distributes over concatenation.
pub proof fn lemma_fav_count_append(a: Seq<Favorite>, b: Seq<Favorite>, article: u128)
    ensures
        fav_count(a + b, article) == fav_count(a, article) + fav_count(b, article),
    decreases a.len(),
{
    if a.len() == 0 {
        assert(a + b =~= b);
    } else {
        assert((a + b).drop_first() =~= a.drop_first() + b);
        assert((a + b)[0] == a[0]);
        lemma_fav_count_append(a.drop_first(), b, article);
    }
}

/// Adding one edge raises the count of its article by exactly one and
/// leaves every other article's count unchanged.
pub proof fn lemma_fav_count_push(s: Seq<Favorite>, e: Favorite, article: u128)
    ensures
        fav_count(s.push(e), article) == fav_count(s, article) + (if e.article_id == article {
            1nat
        } else {
            0nat
        }),
{
    assert(s.push(e) =~= s + seq![e]);
    lemma_fav_count_append(s, seq![e], article);
    assert(seq![e][0] == e);
    assert(seq![e].drop_first() =~= Seq::<Favorite>::empty());
    assert(fav_count(Seq::<Favorite>::empty(), article) == 0);
}

/// Removing one edge lowers the count of its article by exactly one and
/// leaves every other article's count unchanged.
pub proof fn lemma_fav_count_remove(s: Seq<Favorite>, i: int, article: u128)
    requires
        0 <= i < s.len(),
    ensures
        fav_count(s, article) == fav_count(s.remove(i), article) + (if s[i].article_id == article {
            1nat
        } else {
            0nat
        }),
{
    assert(s =~= s.subrange(0, i) + (seq![s[i]] + s.subrange(i + 1, s.len() as int)));
    lemma_fav_count_append(s.subrange(0, i), seq![s[i]] + s.subrange(i + 1, s.len() as int), article);
    lemma_fav_count_append(seq![s[i]], s.subrange(i + 1, s.len() as int), article);
    assert((seq![s[i]] + s.subrange(i + 1, s.len() as int))[0] == s[i]);
    assert(fav_count(seq![s[i]], article) == if s[i].article_id == article { 1nat } else { 0nat })
        by {
        assert(seq![s[i]][0] == s[i]);
        assert(seq![s[i]].drop_first() =~= Seq::<Favorite>::empty());
        assert(fav_count(Seq::<Favorite>::empty(), article) == 0);
    }
    assert(s.remove(i) == s.subrange(0, i) + s.subrange(i + 1, s.len() as int));
    lemma_fav_count_append(s.subrange(0, i), s.subrange(i + 1, s.len() as int), article);
}

/// The favorite-edge table, with one edge per (user, article) pair.
pub struct FavoriteStore {
    edges: Vec<Favorite>,
    next_id: u128,
}

impl FavoriteStore {
    /// The edges currently stored.
    pub closed spec fn edges(self) -> Seq<Favorite> {
        self.edges@
    }

    /// The identifier the next inserted edge would get.
    pub closed spec fn next_id(self) -> u128 {
        self.next_id
    }

    /// At most one edge per (user, article) pair.
    pub open spec fn wf(self) -> bool {
        forall|i: int, j: int|
            0 <= i < j < self.edges().len() ==> !(#[trigger] self.edges()[i].user_id
                == #[trigger] self.edges()[j].user_id && self.edges()[i].article_id
                == self.edges()[j].article_id)
    }

    /// An empty table.
    pub fn new() -> (r: FavoriteStore)
        ensures
            r.wf(),
            r.edges() == Seq::<Favorite>::empty(),
    {
        FavoriteStore { edges: Vec::new(), next_id: 0 }
    }

    /// Whether another edge identifier can still be assigned. True for
    /// the whole realistic lifetime of a store; callers outside verified
    /// code test it before inserting.
    pub fn can_assign_id(&self) -> (r: bool)
        ensures
            r == (self.next_id() < u128::MAX),
    {
        self.next_id < u128::MAX
    }

    /// Whether the edge (user, article) is present.
    pub fn exists_edge(&self, user_id: u128, article_id: u128) -> (r: bool)
        ensures
            r == fav_contains(self.edges(), user_id, article_id),
    {
        let n = self.edges.len();
        let mut i: usize = 0;
        while i < n
            invariant
                i <= n,
                n == self.edges().len(),
                forall|k: int|
                    0 <= k < i ==> !(#[trigger] self.edges()[k].user_id == user_id
                        && self.edges()[k].article_id == article_id),
            decreases n - i,
        {
            let e = self.edges[i];
            if e.user_id == user_id && e.article_id == article_id {
                return true;
            }
            i = i + 1;
        }
        false
    }

    /// Inserts the edge of `record`, refusing a duplicate.
    ///
    /// The result reports how many rows were written, as the relational
    /// layer would. A duplicate pair is refused and the table is
    /// unchanged, so two identical favorites never make two edges.
    pub fn create(&mut self, record: &CreateFavorite, now: u64) -> (r: Result<usize, AppError>)
        requires
            old(self).wf(),
            old(self).next_id() < u128::MAX,
        ensures
            final(self).wf(),
            match r {
                Ok(n) => n == 1 && !fav_contains(
                    old(self).edges(),
                    record.user_id,
                    record.article_id,
                ) && final(self).edges() == old(self).edges().push(
                    Favorite {
                        id: old(self).next_id(),
                        article_id: record.article_id,
                        user_id: record.user_id,
                        created_at: now,
                        updateed_at: now,
                    },
                ) && final(self).next_id() == old(self).next_id() + 1,
                Err(e) => fav_contains(old(self).edges(), record.user_id, record.article_id)
                    && final(self).edges() == old(self).edges() && e
                    == AppError::UnprocessableEntity(ValidationIssue::DuplicateEdge),
            },
    {
        if self.exists_edge(record.user_id, record.article_id) {
            return Err(AppError::UnprocessableEntity(ValidationIssue::DuplicateEdge));
        }
        let id = self.next_id;
        self.next_id = self.next_id + 1;
        self.edges.push(
            Favorite {
                id,
                article_id: record.article_id,
                user_id: record.user_id,
                created_at: now,
                updateed_at: now,
            },
        );
        Ok(1)
    }

    /// Removes the edge of `record` if present, reporting how many edges
    /// were removed (one or zero, by uniqueness).
    pub fn delete(&mut self, record: &DeleteFavorite) -> (r: usize)
        requires
            old(self).wf(),
        ensures
            final(self).wf(),
            !fav_contains(final(self).edges(), record.user_id, record.article_id),
            fav_contains(old(self).edges(), record.user_id, record.article_id) ==> r == 1 && (
            exists|i: int|
                0 <= i < old(self).edges().len() && old(self).edges()[i].user_id == record.user_id
                    && old(self).edges()[i].article_id == record.article_id && final(self).edges()
                    == old(self).edges().remove(i)),
            !fav_contains(old(self).edges(), record.user_id, record.article_id) ==> r == 0
                && final(self).edges() == old(self).edges(),
    {
        let n = self.edges.len();
        let mut i: usize = 0;
        while i < n
            invariant
                i <= n,
                n == self.edges().len(),
                self.edges() == old(self).edges(),
                self.next_id == old(self).next_id(),
                old(self).wf(),
                forall|k: int|
                    0 <= k < i ==> !(#[trigger] self.edges()[k].user_id == record.user_id
                        && self.edges()[k].article_id == record.article_id),
            decreases n - i,
        {
            let e = self.edges[i];
            if e.user_id == record.user_id && e.article_id == record.article_id {
                self.edges.remove(i);
                proof {
                    assert forall|a: int, b: int|
                        0 <= a < b < self.edges().len() implies !(#[trigger] self.edges()[a].user_id
                        == #[trigger] self.edges()[b].user_id && self.edges()[a].article_id
                        == self.edges()[b].article_id) by {
                        let old_a = if a < i { a } else { a + 1 };
                        let old_b = if b < i { b } else { b + 1 };
                        assert(self.edges()[a] == old(self).edges()[old_a]);
                        assert(self.edges()[b] == old(self).edges()[old_b]);
                    }
                    assert forall|k: int|
                        0 <= k < self.edges().len() implies !(#[trigger] self.edges()[k].user_id
                        == record.user_id && self.edges()[k].article_id == record.article_id) by {
                        let old_k = if k < i { k } else { k + 1 };
                        assert(self.edges()[k] == old(self).edges()[old_k]);
                        if old_k > i {
                            assert(!(old(self).edges()[i as int].user_id
                                == old(self).edges()[old_k].user_id
                                && old(self).edges()[i as int].article_id
                                == old(self).edges()[old_k].article_id));
                        }
                    }
                }
                return 1;
            }
            i = i + 1;
        }
        0
    }

    /// The viewer-relative `favorited` flag: false for an anonymous
    /// viewer, otherwise whether the viewer's edge to `article_id` exists.
    pub fn is_favorited(&self, viewer: Option<u128>, article_id: u128) -> (r: bool)
        ensures
            viewer is None ==> r == false,
            viewer matches Some(v) ==> r == fav_contains(self.edges(), v, article_id),
    {
        match viewer {
            None => false,
            Some(v) => self.exists_edge(v, article_id),
        }
    }

    /// How many accounts have favorited `article_id`, independent of any
    /// viewer.
    pub fn favorites_count(&self, article_id: u128) -> (r: u64)
        requires
            self.edges().len() <= u64::MAX,
        ensures
            r as nat == fav_count(self.edges(), article_id),
    {
        let n = self.edges.len();
        let mut i: usize = 0;
        let mut count: u64 = 0;
        while i < n
            invariant
                i <= n,
                n == self.edges().len(),
                n <= u64::MAX,
                count as nat == fav_count(self.edges().take(i as int), article_id),
                count <= i,
            decreases n - i,
        {
            let e = self.edges[i];
            proof {
                assert(self.edges().take(i + 1) =~= self.edges().take(i as int).push(
                    self.edges()[i as int],
                ));
                lemma_fav_count_push(self.edges().take(i as int), self.edges()[i as int], article_id);
            }
            if e.article_id == article_id {
                count = count + 1;
            }
            i = i + 1;
        }
        proof {
            assert(self.edges().take(n as int) =~= self.edges());
        }
        count
    }

    /// The article ids this user has favorited, in table order.
    pub fn favorited_article_ids(&self, user_id: u128) -> (r: Vec<u128>)
        ensures
            r@ == fav_ids(self.edges(), user_id),
    {
        let n = self.edges.len();
        let mut out: Vec<u128> = Vec::new();
        let mut i: usize = 0;
        while i < n
            invariant
                i <= n,
                n == self.edges().len(),
                out@ == fav_ids(self.edges().take(i as int), user_id),
            decreases n - i,
        {
            let e = self.edges[i];
            proof {
                assert(self.edges().take(i + 1) =~= self.edges().take(i as int).push(
                    self.edges()[i as int],
                ));
                lemma_fav_ids_push(self.edges().take(i as int), self.edges()[i as int], user_id);
            }
            if e.user_id == user_id {
                out.push(e.article_id);
            }
            i = i + 1;
        }
        proof {
            assert(self.edges().take(n as int) =~= self.edges());
        }
        out
    }
}

impl Favorite {
    /// The article ids favorited by the account holding `username`:
    /// the favorites table joined with the account table. An unknown
    /// username joins to nothing.
    pub fn fetch_favorited_artcile_ids_by_username(
        favorites: &FavoriteStore,
        accounts: &crate::user::AccountStore,
        username: &str,
    ) -> (r: Vec<u128>)
        requires
            accounts.wf(),
        ensures
            forall|i: int|
                0 <= i < accounts.accounts().len() && #[trigger] accounts.accounts()[i].username@
                    == username@ ==> r@ == fav_ids(favorites.edges(), accounts.accounts()[i].id),
            !crate::user::has_username(accounts.accounts(), username@) ==> r@ == Seq::<
                u128,
            >::empty(),
    {
        match accounts.find_by_username(username) {
            Some(u) => {
                let ids = favorites.favorited_article_ids(u.id);
                proof {
                    let s = accounts.accounts();
                    let j = choose|j: int| 0 <= j < s.len() && s[j] == u;
                    assert(s.contains(u));
                    assert(s[j] == u);
                    assert forall|i: int|
                        0 <= i < s.len() && #[trigger] s[i].username@ == username@ implies ids@
                        == fav_ids(favorites.edges(), s[i].id) by {
                        assert(s[j].username@ == username@);
                        assert(s[i] == s[j]);
                    }
                }
                ids
            },
            None => Vec::new(),
        }
    }
}

/// The favorite feature's storage boundary: favorite and unfavorite an
/// article for an account, over the verified edge table.
pub struct FavoriteRepositoryImpl {
    store: FavoriteStore,
}

impl FavoriteRepositoryImpl {
    /// The edges currently stored.
    pub closed spec fn edges(self) -> Seq<Favorite> {
        self.store.edges()
    }

    /// The identifier the next inserted edge would get.
    pub closed spec fn next_id(self) -> u128 {
        self.store.next_id()
    }

    /// At most one edge per (user, article) pair.
    pub closed spec fn wf(self) -> bool {
        self.store.wf()
    }

    /// A repository over the given edge table.
    pub fn new(store: FavoriteStore) -> (r: FavoriteRepositoryImpl)
        ensures
            r.edges() == store.edges(),
            r.next_id() == store.next_id(),
            r.wf() == store.wf(),
    {
        FavoriteRepositoryImpl { store }
    }

    /// Favorites an article for an account; a duplicate pair is refused
    /// and changes nothing.
    pub fn favorite_article(&mut self, user_id: u128, article_id: u128, now: u64) -> (r: Result<
        usize,
        AppError,
    >)
        requires
            old(self).wf(),
            old(self).next_id() < u128::MAX,
        ensures
            final(self).wf(),
            match r {
                Ok(n) => n == 1 && !fav_contains(old(self).edges(), user_id, article_id)
                    && final(self).edges() == old(self).edges().push(
                    Favorite {
                        id: old(self).next_id(),
                        article_id,
                        user_id,
                        created_at: now,
                        updateed_at: now,
                    },
                ),
                Err(e) => fav_contains(old(self).edges(), user_id, article_id)
                    && final(self).edges() == old(self).edges() && e == AppError::UnprocessableEntity(
                    ValidationIssue::DuplicateEdge,
                ),
            },
    {
        self.store.create(&CreateFavorite { user_id, article_id }, now)
    }

    /// Withdraws an account's favorite of an article, reporting how many
    /// edges were removed (one or zero).
    pub fn unfavorite_article(&mut self, user_id: u128, article_id: u128) -> (r: usize)
        requires
            old(self).wf(),
        ensures
            final(self).wf(),
            !fav_contains(final(self).edges(), user_id, article_id),
            fav_contains(old(self).edges(), user_id, article_id) ==> r == 1 && (exists|i: int|
                0 <= i < old(self).edges().len() && old(self).edges()[i].user_id == user_id && old(
                    self,
                ).edges()[i].article_id == article_id && final(self).edges() == old(
                    self,
                ).edges().remove(i)),
            !fav_contains(old(self).edges(), user_id, article_id) ==> r == 0 && final(self).edges()
                == old(self).edges(),
    {
        self.store.delete(&DeleteFavorite { user_id, article_id })
    }
}

/// Collecting ids distributes over adding one edge at the end.
pub proof fn lemma_fav_ids_push(s: Seq<Favorite>, e: Favorite, user: u128)
    ensures
        fav_ids(s.push(e), user) == fav_ids(s, user) + (if e.user_id == user {
            seq![e.article_id]
        } else {
            Seq::<u128>::empty()
        }),
    decreases s.len(),
{
    if s.len() == 0 {
        assert(s.push(e).drop_first() =~= Seq::<Favorite>::empty());
        assert(s.push(e)[0] == e);
        assert(fav_ids(s, user) =~= Seq::<u128>::empty());
        assert(fav_ids(Seq::<Favorite>::empty(), user) =~= Seq::<u128>::empty());
        assert(fav_ids(s.push(e), user) == (if e.user_id == user {
            seq![e.article_id]
        } else {
            Seq::<u128>::empty()
        }) + fav_ids(s.push(e).drop_first(), user));
        if e.user_id == user {
            assert(fav_ids(s.push(e), user) =~= Seq::<u128>::empty() + seq![e.article_id]);
            assert(fav_ids(s, user) + seq![e.article_id] =~= fav_ids(s.push(e), user));
        } else {
            assert(fav_ids(s.push(e), user) =~= Seq::<u128>::empty());
            assert(fav_ids(s, user) + Seq::<u128>::empty() =~= fav_ids(s.push(e), user));
        }
    } else {
        assert(s.push(e).drop_first() =~= s.drop_first().push(e));
        assert(s.push(e)[0] == s[0]);
        lemma_fav_ids_push(s.drop_first(), e, user);
        assert(fav_ids(s.push(e), user) =~= fav_ids(s, user) + (if e.user_id == user {
            seq![e.article_id]
        } else {
            Seq::<u128>::empty()
        }));
    }
}

} // verus!
