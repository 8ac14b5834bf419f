//! Article tags: the entity, its read-only repository, and its response
//! shape.

use vstd::prelude::*;

verus! {

/// A tag attached to an article.
pub struct Tag {
    /// Identifier of the tag record.
    pub id: u128,
    /// The article the tag belongs to.
    pub article_id: u128,
    /// The tag text.
    pub name: String,
    /// When the tag was created, seconds.
    pub created_at: u64,
    /// When the tag was last written, seconds.
    pub updated_at: u64,
}

impl Clone for Tag {
    fn clone(&self) -> (r: Self)
        ensures
            r == *self,
    {
        Tag {
            id: self.id,
            article_id: self.article_id,
            name: self.name.clone(),
            created_at: self.created_at,
            updated_at: self.updated_at,
        }
    }
}

/// The tag table, read in bulk by the tag listing endpoint.
pub struct TagRepositoryImpl {
    tags: Vec<Tag>,
}

impl TagRepositoryImpl {
    /// The tags currently stored.
    pub closed spec fn tags(self) -> Seq<Tag> {
        self.tags@
    }

    /// A repository over the given table.
    pub fn new(tags: Vec<Tag>) -> (r: TagRepositoryImpl)
        ensures
            r.tags() == tags@,
    {
        TagRepositoryImpl { tags }
    }

    /// Every stored tag, in table order.
    pub fn fetch_tags(&self) -> (r: Vec<Tag>)
        ensures
            r@ == self.tags(),
    {
        let n = self.tags.len();
        let mut out: Vec<Tag> = Vec::new();
        let mut i: usize = 0;
        while i < n
            invariant
                i <= n,
                n == self.tags().len(),
                out@ == self.tags().take(i as int),
            decreases n - i,
        {
            out.push(self.tags[i].clone());
            proof {
                assert(self.tags().take(i + 1) =~= self.tags().take(i as int).push(
                    self.tags()[i as int],
                ));
            }
            i = i + 1;
        }
        proof {
            assert(self.tags().take(n as int) =~= self.tags());
        }
        out
    }
}

/// The response shape of the tag listing: the tag texts alone.
pub struct TagResponse {
    /// The tag texts, in table order.
    pub tags: Vec<String>,
}

/// Shapes tag listings for the surrounding API.
pub struct TagPresenterImpl {}

impl TagPresenterImpl {
    /// A presenter; it carries no state.
    pub fn new() -> (r: Self)
        ensures
            true,
    {
        TagPresenterImpl {  }
    }

    /// Projects a tag list onto its texts.
    pub fn to_response(&self, list: Vec<Tag>) -> (r: TagResponse)
        ensures
            r.tags@.len() == list@.len(),
            forall|i: int| 0 <= i < list@.len() ==> #[trigger] r.tags@[i]@ == list@[i].name@,
    {
        let n = list.len();
        let mut tags: Vec<String> = Vec::new();
        let mut i: usize = 0;
        while i < n
            invariant
                i <= n,
                n == list@.len(),
                tags@.len() == i,
                forall|k: int| 0 <= k < i ==> #[trigger] tags@[k]@ == list@[k].name@,
            decreases n - i,
        {
            tags.push(list[i].name.clone());
            i = i + 1;
        }
        TagResponse { tags }
    }
}

} // verus!
