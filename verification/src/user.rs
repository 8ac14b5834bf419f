//! Accounts, the account store, and the credential service.
//!
//! The store enforces what the relational schema would: identifiers,
//! emails and usernames are each unique. On top of it sit the credential
//! operations — sign-up hashes then inserts then issues a token, sign-in
//! looks up and checks then issues, update applies a partial changeset
//! and re-issues. Sign-in deliberately collapses "no such email" and
//! "wrong password" into one `Unauthorized` value, so the two cases are
//! not distinguishable from outside.

use vstd::prelude::*;

use vstd::string::StringExecFns;

use crate::bytes::str_eq;
use crate::error::AppError;
use crate::error::ValidationIssue;
use crate::follow::follow_contains;
use crate::follow::FollowStore;
use crate::hasher::bcrypt_verifies;
use crate::hasher::hash_password;
use crate::profile::Profile;
use crate::token::token_bytes;

verus! {

/// A registered account. The `password` field holds the salted hash,
/// never the plaintext.
#[derive(Debug)]
pub struct User {
    /// Immutable unique identifier.
    pub id: u128,
    /// Unique email address.
    pub email: String,
    /// Unique username.
    pub username: String,
    /// The bcrypt hash of the account's password.
    pub password: String,
    /// Free-form biography, if set.
    pub bio: Option<String>,
    /// Image URL, if set.
    pub image: Option<String>,
    /// When the account was created, seconds.
    pub created_at: u64,
    /// When the account was last written, seconds.
    pub updated_at: u64,
}

impl Clone for User {
    fn clone(&self) -> (r: Self)
        ensures
            r == *self,
    {
        User {
            id: self.id,
            email: self.email.clone(),
            username: self.username.clone(),
            password: self.password.clone(),
            bio: match &self.bio {
                Some(b) => Some(b.clone()),
                None => None,
            },
            image: match &self.image {
                Some(i) => Some(i.clone()),
                None => None,
            },
            created_at: self.created_at,
            updated_at: self.updated_at,
        }
    }
}

/// The record inserted at sign-up; `password` is already hashed.
pub struct SignupUser {
    /// Email address to register.
    pub email: String,
    /// Username to register.
    pub username: String,
    /// The bcrypt hash to store.
    pub password: String,
}

/// A partial change to an account; `None` leaves a field as it is. A
/// present `password` is the plaintext and is re-hashed when applied.
pub struct UpdateUser {
    /// New email address, if changed.
    pub email: Option<String>,
    /// New username, if changed.
    pub username: Option<String>,
    /// New plaintext password, if changed.
    pub password: Option<String>,
    /// New image URL, if changed.
    pub image: Option<String>,
    /// New biography, if changed.
    pub bio: Option<String>,
}

/// Whether some account in `s` has this email.
pub open spec fn has_email(s: Seq<User>, email: Seq<char>) -> bool {
    exists|i: int| 0 <= i < s.len() && s[i].email@ == email
}

/// Whether some account in `s` has this username.
pub open spec fn has_username(s: Seq<User>, username: Seq<char>) -> bool {
    exists|i: int| 0 <= i < s.len() && s[i].username@ == username
}

/// Whether some account in `s` has this identifier.
pub open spec fn has_id(s: Seq<User>, id: u128) -> bool {
    exists|i: int| 0 <= i < s.len() && s[i].id == id
}

/// The position of the account with this identifier.
pub open spec fn id_index(s: Seq<User>, id: u128) -> int {
    choose|i: int| 0 <= i < s.len() && s[i].id == id
}

/// Whether an account other than `id` holds this email.
pub open spec fn email_taken_by_other(s: Seq<User>, email: Seq<char>, id: u128) -> bool {
    exists|i: int| 0 <= i < s.len() && s[i].email@ == email && s[i].id != id
}

/// Whether an account other than `id` holds this username.
pub open spec fn username_taken_by_other(s: Seq<User>, username: Seq<char>, id: u128) -> bool {
    exists|i: int| 0 <= i < s.len() && s[i].username@ == username && s[i].id != id
}

/// How `new_u` relates to `old_u` after applying `changeset` at `now`,
/// with the stored password replaced verbatim.
pub open spec fn updated_user(old_u: User, changeset: UpdateUser, new_u: User, now: u64) -> bool {
    &&& new_u.id == old_u.id
    &&& (match changeset.email {
        Some(e) => new_u.email@ == e@,
        None => new_u.email == old_u.email,
    })
    &&& (match changeset.username {
        Some(un) => new_u.username@ == un@,
        None => new_u.username == old_u.username,
    })
    &&& (match changeset.password {
        Some(p) => new_u.password@ == p@,
        None => new_u.password == old_u.password,
    })
    &&& (match changeset.bio {
        Some(b) => new_u.bio matches Some(nb) && nb@ == b@,
        None => new_u.bio == old_u.bio,
    })
    &&& (match changeset.image {
        Some(im) => new_u.image matches Some(ni) && ni@ == im@,
        None => new_u.image == old_u.image,
    })
    &&& new_u.created_at == old_u.created_at
    &&& new_u.updated_at == now
}

/// How `new_u` relates to `old_u` after applying `changeset` at `now`,
/// with a present password re-hashed rather than stored verbatim.
pub open spec fn updated_user_hashed(
    old_u: User,
    changeset: UpdateUser,
    new_u: User,
    now: u64,
) -> bool {
    &&& new_u.id == old_u.id
    &&& (match changeset.email {
        Some(e) => new_u.email@ == e@,
        None => new_u.email == old_u.email,
    })
    &&& (match changeset.username {
        Some(un) => new_u.username@ == un@,
        None => new_u.username == old_u.username,
    })
    &&& (match changeset.password {
        Some(p) => bcrypt_verifies(p@, new_u.password@) && crate::hasher::is_bcrypt_hash_string(
            new_u.password@,
        ),
        None => new_u.password == old_u.password,
    })
    &&& (match changeset.bio {
        Some(b) => new_u.bio matches Some(nb) && nb@ == b@,
        None => new_u.bio == old_u.bio,
    })
    &&& (match changeset.image {
        Some(im) => new_u.image matches Some(ni) && ni@ == im@,
        None => new_u.image == old_u.image,
    })
    &&& new_u.created_at == old_u.created_at
    &&& new_u.updated_at == now
}

/// The account table. Identifiers, emails and usernames are each unique,
/// and identifiers are assigned from a strictly growing counter, so an
/// identifier is never reused.
pub struct AccountStore {
    accounts: Vec<User>,
    next_id: u128,
}

impl AccountStore {
    /// The accounts currently stored.
    pub closed spec fn accounts(self) -> Seq<User> {
        self.accounts@
    }

    /// The identifier the next inserted account would get.
    pub closed spec fn next_id(self) -> u128 {
        self.next_id
    }

    /// Unique ids, emails and usernames; every id below the counter.
    pub open spec fn wf(self) -> bool {
        &&& (forall|i: int, j: int|
            #![trigger self.accounts()[i], self.accounts()[j]]
            0 <= i < j < self.accounts().len() ==> self.accounts()[i].id
                != self.accounts()[j].id && self.accounts()[i].email@
                != self.accounts()[j].email@ && self.accounts()[i].username@
                != self.accounts()[j].username@)
        &&& (forall|i: int|
            0 <= i < self.accounts().len() ==> #[trigger] self.accounts()[i].id < self.next_id())
    }

    /// An empty table.
    pub fn new() -> (r: AccountStore)
        ensures
            r.wf(),
            r.accounts() == Seq::<User>::empty(),
            r.next_id() == 0,
    {
        AccountStore { accounts: Vec::new(), next_id: 0 }
    }

    /// Whether another account identifier can still be assigned. True
    /// for the whole realistic lifetime of a store; callers outside
    /// verified code test it before inserting.
    pub fn can_assign_id(&self) -> (r: bool)
        ensures
            r == (self.next_id() < u128::MAX),
    {
        self.next_id < u128::MAX
    }

    /// The account with this email, if any.
    pub fn find_by_email(&self, email: &str) -> (r: Option<User>)
        ensures
            match r {
                Some(u) => self.accounts().contains(u) && u.email@ == email@,
                None => !has_email(self.accounts(), email@),
            },
    {
        let n = self.accounts.len();
        let mut i: usize = 0;
        while i < n
            invariant
                i <= n,
                n == self.accounts().len(),
                forall|k: int| 0 <= k < i ==> #[trigger] self.accounts()[k].email@ != email@,
            decreases n - i,
        {
            if str_eq(self.accounts[i].email.as_str(), email) {
                let u = self.accounts[i].clone();
                proof {
                    assert(self.accounts().contains(self.accounts()[i as int]));
                }
                return Some(u);
            }
            i = i + 1;
        }
        None
    }

    /// The account with this username, if any.
    pub fn find_by_username(&self, username: &str) -> (r: Option<User>)
        ensures
            match r {
                Some(u) => self.accounts().contains(u) && u.username@ == username@,
                None => !has_username(self.accounts(), username@),
            },
    {
        let n = self.accounts.len();
        let mut i: usize = 0;
        while i < n
            invariant
                i <= n,
                n == self.accounts().len(),
                forall|k: int| 0 <= k < i ==> #[trigger] self.accounts()[k].username@ != username@,
            decreases n - i,
        {
            if str_eq(self.accounts[i].username.as_str(), username) {
                let u = self.accounts[i].clone();
                proof {
                    assert(self.accounts().contains(self.accounts()[i as int]));
                }
                return Some(u);
            }
            i = i + 1;
        }
        None
    }

    /// The account with this identifier, if any.
    pub fn find_by_id(&self, id: u128) -> (r: Option<User>)
        ensures
            match r {
                Some(u) => self.accounts().contains(u) && u.id == id,
                None => !has_id(self.accounts(), id),
            },
    {
        let n = self.accounts.len();
        let mut i: usize = 0;
        while i < n
            invariant
                i <= n,
                n == self.accounts().len(),
                forall|k: int| 0 <= k < i ==> #[trigger] self.accounts()[k].id != id,
            decreases n - i,
        {
            if self.accounts[i].id == id {
                let u = self.accounts[i].clone();
                proof {
                    assert(self.accounts().contains(self.accounts()[i as int]));
                }
                return Some(u);
            }
            i = i + 1;
        }
        None
    }

    /// Inserts a new account, or reports exactly which unique constraint
    /// the record violates. Succeeds if and only if neither the email nor
    /// the username is already bound.
    pub fn insert(&mut self, record: SignupUser, now: u64) -> (r: Result<User, AppError>)
        requires
            old(self).wf(),
            old(self).next_id() < u128::MAX,
        ensures
            final(self).wf(),
            match r {
                Ok(u) => !has_email(old(self).accounts(), record.email@) && !has_username(
                    old(self).accounts(),
                    record.username@,
                ) && u.id == old(self).next_id() && u.email@ == record.email@ && u.username@
                    == record.username@ && u.password@ == record.password@ && u.bio is None
                    && u.image is None && u.created_at == now && u.updated_at == now
                    && final(self).accounts() == old(self).accounts().push(u)
                    && final(self).next_id() == old(self).next_id() + 1,
                Err(e) => final(self).accounts() == old(self).accounts() && final(self).next_id()
                    == old(self).next_id() && ((e == AppError::UnprocessableEntity(
                    ValidationIssue::EmailTaken,
                ) && has_email(old(self).accounts(), record.email@)) || (e
                    == AppError::UnprocessableEntity(ValidationIssue::UsernameTaken) && !has_email(
                    old(self).accounts(),
                    record.email@,
                ) && has_username(old(self).accounts(), record.username@))),
            },
    {
        if let Some(_) = self.find_by_email(record.email.as_str()) {
            return Err(AppError::UnprocessableEntity(ValidationIssue::EmailTaken));
        }
        if let Some(_) = self.find_by_username(record.username.as_str()) {
            return Err(AppError::UnprocessableEntity(ValidationIssue::UsernameTaken));
        }
        let u = User {
            id: self.next_id,
            email: record.email,
            username: record.username,
            password: record.password,
            bio: None,
            image: None,
            created_at: now,
            updated_at: now,
        };
        let result = u.clone();
        let ghost prev = self.accounts@;
        self.next_id = self.next_id + 1;
        self.accounts.push(u);
        proof {
            assert forall|i: int, j: int|
                0 <= i < j < self.accounts().len() implies #[trigger] self.accounts()[i].id
                != #[trigger] self.accounts()[j].id && self.accounts()[i].email@
                != self.accounts()[j].email@ && self.accounts()[i].username@
                != self.accounts()[j].username@ by {
                if j == prev.len() as int {
                    assert(self.accounts()[i] == prev[i]);
                }
            }
        }
        Ok(result)
    }

    /// Applies a partial changeset to the account with `user_id`,
    /// storing the fields exactly as given.
    ///
    /// Fails with `NotFound` when no such account exists, and with a
    /// field-level conflict when the new email or username is already
    /// bound to a different account; otherwise it succeeds.
    #[verifier::rlimit(30)]
    pub fn update(&mut self, user_id: u128, changeset: UpdateUser, now: u64) -> (r: Result<
        User,
        AppError,
    >)
        requires
            old(self).wf(),
        ensures
            final(self).wf(),
            final(self).next_id() == old(self).next_id(),
            match r {
                Ok(u) => exists|i: int|
                    0 <= i < old(self).accounts().len() && #[trigger] old(self).accounts()[i].id
                        == user_id && updated_user(old(self).accounts()[i], changeset, u, now)
                        && final(self).accounts() == old(self).accounts().update(i, u),
                Err(e) => final(self).accounts() == old(self).accounts() && ((e
                    == AppError::NotFound && !has_id(old(self).accounts(), user_id)) || (e
                    == AppError::UnprocessableEntity(ValidationIssue::EmailTaken) && has_id(
                    old(self).accounts(),
                    user_id,
                ) && (changeset.email matches Some(em) && email_taken_by_other(
                    old(self).accounts(),
                    em@,
                    user_id,
                ))) || (e == AppError::UnprocessableEntity(ValidationIssue::UsernameTaken)
                    && has_id(old(self).accounts(), user_id) && (match changeset.email {
                    Some(em) => !email_taken_by_other(old(self).accounts(), em@, user_id),
                    None => true,
                }) && (changeset.username matches Some(un) && username_taken_by_other(
                    old(self).accounts(),
                    un@,
                    user_id,
                )))),
            },
    {
        let idx = match self.index_of_id(user_id) {
            Some(i) => i,
            None => {
                return Err(AppError::NotFound);
            },
        };
        if let Some(em) = &changeset.email {
            if self.taken_by_other_email(em.as_str(), user_id) {
                return Err(AppError::UnprocessableEntity(ValidationIssue::EmailTaken));
            }
        }
        if let Some(un) = &changeset.username {
            if self.taken_by_other_username(un.as_str(), user_id) {
                return Err(AppError::UnprocessableEntity(ValidationIssue::UsernameTaken));
            }
        }
        let old_u = self.accounts[idx].clone();
        let new_u = User {
            id: old_u.id,
            email: match changeset.email {
                Some(e) => e,
                None => old_u.email,
            },
            username: match changeset.username {
                Some(un) => un,
                None => old_u.username,
            },
            password: match changeset.password {
                Some(p) => p,
                None => old_u.password,
            },
            bio: match changeset.bio {
                Some(b) => Some(b),
                None => old_u.bio,
            },
            image: match changeset.image {
                Some(im) => Some(im),
                None => old_u.image,
            },
            created_at: old_u.created_at,
            updated_at: now,
        };
        let result = new_u.clone();
        let ghost prev = self.accounts@;
        self.accounts[idx] = new_u;
        proof {
            assert(self.accounts() == prev.update(idx as int, result));
            assert forall|i: int, j: int|
                0 <= i < j < self.accounts().len() implies #[trigger] self.accounts()[i].id
                != #[trigger] self.accounts()[j].id && self.accounts()[i].email@
                != self.accounts()[j].email@ && self.accounts()[i].username@
                != self.accounts()[j].username@ by {
                if i != idx as int && j != idx as int {
                    assert(self.accounts()[i] == prev[i]);
                    assert(self.accounts()[j] == prev[j]);
                } else {
                    let other = if i == idx as int {
                        j
                    } else {
                        i
                    };
                    assert(self.accounts()[other] == prev[other]);
                    assert(prev[other].id != user_id);
                }
            }
        }
        Ok(result)
    }

    /// The position of the account with this identifier, if any.
    fn index_of_id(&self, user_id: u128) -> (r: Option<usize>)
        ensures
            match r {
                Some(i) => i < self.accounts().len() && self.accounts()[i as int].id == user_id,
                None => !has_id(self.accounts(), user_id),
            },
    {
        let n = self.accounts.len();
        let mut i: usize = 0;
        while i < n
            invariant
                i <= n,
                n == self.accounts().len(),
                forall|k: int| 0 <= k < i ==> #[trigger] self.accounts()[k].id != user_id,
            decreases n - i,
        {
            if self.accounts[i].id == user_id {
                return Some(i);
            }
            i = i + 1;
        }
        None
    }

    /// Whether an account other than `id` holds this email.
    fn taken_by_other_email(&self, email: &str, id: u128) -> (r: bool)
        ensures
            r == email_taken_by_other(self.accounts(), email@, id),
    {
        let n = self.accounts.len();
        let mut i: usize = 0;
        while i < n
            invariant
                i <= n,
                n == self.accounts().len(),
                forall|k: int|
                    0 <= k < i ==> !(#[trigger] self.accounts()[k].email@ == email@
                        && self.accounts()[k].id != id),
            decreases n - i,
        {
            if self.accounts[i].id != id && str_eq(self.accounts[i].email.as_str(), email) {
                return true;
            }
            i = i + 1;
        }
        false
    }

    /// Whether an account other than `id` holds this username.
    fn taken_by_other_username(&self, username: &str, id: u128) -> (r: bool)
        ensures
            r == username_taken_by_other(self.accounts(), username@, id),
    {
        let n = self.accounts.len();
        let mut i: usize = 0;
        while i < n
            invariant
                i <= n,
                n == self.accounts().len(),
                forall|k: int|
                    0 <= k < i ==> !(#[trigger] self.accounts()[k].username@ == username@
                        && self.accounts()[k].id != id),
            decreases n - i,
        {
            if self.accounts[i].id != id && str_eq(self.accounts[i].username.as_str(), username) {
                return true;
            }
            i = i + 1;
        }
        false
    }
}

impl User {
    /// Registers a new account and signs it in.
    ///
    /// The password is hashed, the account inserted, and a token issued
    /// for the new identifier. Fails with a field-level conflict when the
    /// email or username is taken — `AccountStore::insert` states that
    /// exactly — and with an internal error only if hashing fails.
    pub fn signup(
        store: &mut AccountStore,
        email: &str,
        username: &str,
        naive_password: &str,
        now: u64,
        secret: &[u8],
    ) -> (r: Result<(User, Vec<u8>), AppError>)
        requires
            old(store).wf(),
            old(store).next_id() < u128::MAX,
            now <= u64::MAX - crate::TOKEN_TTL_SECONDS,
        ensures
            final(store).wf(),
            match r {
                Ok(p) => !has_email(old(store).accounts(), email@) && !has_username(
                    old(store).accounts(),
                    username@,
                ) && p.0.id == old(store).next_id() && p.0.email@ == email@ && p.0.username@
                    == username@ && bcrypt_verifies(naive_password@, p.0.password@)
                    && crate::hasher::is_bcrypt_hash_string(p.0.password@)
                    && p.0.bio is None && p.0.image is None
                    && final(store).accounts() == old(store).accounts().push(p.0)
                    && final(store).next_id() == old(store).next_id() + 1
                    && p.1@ == token_bytes(
                    p.0.id,
                    now,
                    (now + crate::TOKEN_TTL_SECONDS) as u64,
                    secret@,
                ),
                Err(e) => final(store).accounts() == old(store).accounts()
                    && final(store).next_id() == old(store).next_id() && ((e
                    == AppError::InternalServerError) || (e
                    == AppError::UnprocessableEntity(ValidationIssue::EmailTaken) && has_email(
                    old(store).accounts(),
                    email@,
                )) || (e == AppError::UnprocessableEntity(ValidationIssue::UsernameTaken)
                    && !has_email(old(store).accounts(), email@) && has_username(
                    old(store).accounts(),
                    username@,
                ))),
            },
    {
        let hashed = match hash_password(naive_password) {
            Ok(h) => h,
            Err(e) => {
                return Err(e);
            },
        };
        let record = SignupUser {
            email: String::from_str(email),
            username: String::from_str(username),
            password: hashed,
        };
        let user = match store.insert(record, now) {
            Ok(u) => u,
            Err(e) => {
                return Err(e);
            },
        };
        let token = user.generate_token(now, secret);
        Ok((user, token))
    }

    /// Signs an account in by email and password.
    ///
    /// Succeeds exactly when an account with this email exists and the
    /// password verifies against its stored hash; the returned token is
    /// issued for that account. A missing email and a wrong password
    /// yield the one same `Unauthorized` value, so the two causes cannot
    /// be told apart.
    pub fn signin(
        store: &AccountStore,
        email: &str,
        naive_password: &str,
        now: u64,
        secret: &[u8],
    ) -> (r: Result<(User, Vec<u8>), AppError>)
        requires
            store.wf(),
            now <= u64::MAX - crate::TOKEN_TTL_SECONDS,
        ensures
            match r {
                Ok(p) => store.accounts().contains(p.0) && p.0.email@ == email@
                    && bcrypt_verifies(naive_password@, p.0.password@) && p.1@ == token_bytes(
                    p.0.id,
                    now,
                    (now + crate::TOKEN_TTL_SECONDS) as u64,
                    secret@,
                ),
                Err(e) => e == AppError::Unauthorized && !(exists|i: int|
                    0 <= i < store.accounts().len() && #[trigger] store.accounts()[i].email@
                        == email@ && bcrypt_verifies(
                        naive_password@,
                        store.accounts()[i].password@,
                    )),
            },
    {
        let user = match store.find_by_email(email) {
            Some(u) => u,
            None => {
                return Err(AppError::Unauthorized);
            },
        };
        match crate::hasher::verify(naive_password, user.password.as_str()) {
            Ok(()) => {},
            Err(_) => {
                proof {
                    if exists|i: int|
                        0 <= i < store.accounts().len() && #[trigger] store.accounts()[i].email@
                            == email@ && bcrypt_verifies(
                            naive_password@,
                            store.accounts()[i].password@,
                        ) {
                        let i = choose|i: int|
                            0 <= i < store.accounts().len()
                                && #[trigger] store.accounts()[i].email@ == email@
                                && bcrypt_verifies(
                                naive_password@,
                                store.accounts()[i].password@,
                            );
                        assert(store.accounts().contains(user));
                        let j = choose|j: int|
                            0 <= j < store.accounts().len() && store.accounts()[j] == user;
                        assert(store.accounts()[j] == user);
                        assert(store.accounts()[j].email@ == email@);
                        assert(i == j);
                    }
                }
                return Err(AppError::Unauthorized);
            },
        }
        let token = user.generate_token(now, secret);
        Ok((user, token))
    }

    /// Applies a partial changeset to an account, re-hashing a supplied
    /// password before it is stored.
    ///
    /// An internal failure is possible only when a password is supplied
    /// (the salt draw inside hashing can fail); with no password in the
    /// changeset the call succeeds whenever the account exists and no
    /// email or username conflict arises.
    pub fn update(store: &mut AccountStore, user_id: u128, changeset: UpdateUser, now: u64) -> (r:
        Result<User, AppError>)
        requires
            old(store).wf(),
        ensures
            final(store).wf(),
            final(store).next_id() == old(store).next_id(),
            match r {
                Ok(u) => exists|i: int|
                    0 <= i < old(store).accounts().len() && #[trigger] old(store).accounts()[i].id
                        == user_id && updated_user_hashed(
                        old(store).accounts()[i],
                        changeset,
                        u,
                        now,
                    ) && final(store).accounts() == old(store).accounts().update(i, u),
                Err(e) => final(store).accounts() == old(store).accounts() && ((e
                    == AppError::InternalServerError && changeset.password is Some) || (e
                    == AppError::NotFound && !has_id(
                    old(store).accounts(),
                    user_id,
                )) || (e == AppError::UnprocessableEntity(ValidationIssue::EmailTaken) && has_id(
                    old(store).accounts(),
                    user_id,
                ) && (changeset.email matches Some(em) && email_taken_by_other(
                    old(store).accounts(),
                    em@,
                    user_id,
                ))) || (e == AppError::UnprocessableEntity(ValidationIssue::UsernameTaken)
                    && has_id(old(store).accounts(), user_id) && (match changeset.email {
                    Some(em) => !email_taken_by_other(old(store).accounts(), em@, user_id),
                    None => true,
                }) && (changeset.username matches Some(un) && username_taken_by_other(
                    old(store).accounts(),
                    un@,
                    user_id,
                )))),
            },
    {
        let hashed_password: Option<String> = match &changeset.password {
            Some(p) => {
                match hash_password(p.as_str()) {
                    Ok(h) => Some(h),
                    Err(e) => {
                        return Err(e);
                    },
                }
            },
            None => None,
        };
        let ghost orig_changeset = changeset;
        let applied = UpdateUser {
            email: changeset.email,
            username: changeset.username,
            password: hashed_password,
            image: changeset.image,
            bio: changeset.bio,
        };
        match store.update(user_id, applied, now) {
            Ok(u) => Ok(u),
            Err(e) => Err(e),
        }
    }

    /// Applies a changeset and re-issues a token for the same subject
    /// with a fresh issue time.
    ///
    /// As with [`User::update`], an internal failure is possible only
    /// when a password is supplied; otherwise success is owed whenever
    /// the account exists and no field conflict arises.
    pub fn update_user(
        store: &mut AccountStore,
        user_id: u128,
        changeset: UpdateUser,
        now: u64,
        secret: &[u8],
    ) -> (r: Result<(User, Vec<u8>), AppError>)
        requires
            old(store).wf(),
            now <= u64::MAX - crate::TOKEN_TTL_SECONDS,
        ensures
            final(store).wf(),
            final(store).next_id() == old(store).next_id(),
            match r {
                Ok(p) => exists|i: int|
                    0 <= i < old(store).accounts().len() && #[trigger] old(store).accounts()[i].id
                        == user_id && updated_user_hashed(
                        old(store).accounts()[i],
                        changeset,
                        p.0,
                        now,
                    ) && final(store).accounts() == old(store).accounts().update(i, p.0) && p.1@
                        == token_bytes(
                        user_id,
                        now,
                        (now + crate::TOKEN_TTL_SECONDS) as u64,
                        secret@,
                    ),
                Err(e) => final(store).accounts() == old(store).accounts() && ((e
                    == AppError::InternalServerError && changeset.password is Some) || (e
                    == AppError::NotFound && !has_id(
                    old(store).accounts(),
                    user_id,
                )) || (e == AppError::UnprocessableEntity(ValidationIssue::EmailTaken) && has_id(
                    old(store).accounts(),
                    user_id,
                ) && (changeset.email matches Some(em) && email_taken_by_other(
                    old(store).accounts(),
                    em@,
                    user_id,
                ))) || (e == AppError::UnprocessableEntity(ValidationIssue::UsernameTaken)
                    && has_id(old(store).accounts(), user_id) && (match changeset.email {
                    Some(em) => !email_taken_by_other(old(store).accounts(), em@, user_id),
                    None => true,
                }) && (changeset.username matches Some(un) && username_taken_by_other(
                    old(store).accounts(),
                    un@,
                    user_id,
                )))),
            },
    {
        let user = match Self::update(store, user_id, changeset, now) {
            Ok(u) => u,
            Err(e) => {
                return Err(e);
            },
        };
        let token = user.generate_token(now, secret);
        Ok((user, token))
    }

    /// The account with this username, or `NotFound`.
    pub fn find_by_username(store: &AccountStore, username: &str) -> (r: Result<User, AppError>)
        ensures
            match r {
                Ok(u) => store.accounts().contains(u) && u.username@ == username@,
                Err(e) => e == AppError::NotFound && !has_username(store.accounts(), username@),
            },
    {
        match store.find_by_username(username) {
            Some(u) => Ok(u),
            None => Err(AppError::NotFound),
        }
    }

    /// Issues a fresh token for this account.
    pub fn generate_token(&self, now: u64, secret: &[u8]) -> (token: Vec<u8>)
        requires
            now <= u64::MAX - crate::TOKEN_TTL_SECONDS,
        ensures
            token@ == token_bytes(self.id, now, (now + crate::TOKEN_TTL_SECONDS) as u64, secret@),
    {
        crate::token::generate(self.id, now, secret)
    }

    /// The article ids this account has favorited, in table order.
    pub fn fetch_favorited_article_ids(&self, favorites: &crate::favorite::FavoriteStore) -> (r:
        Vec<u128>)
        ensures
            r@ == crate::favorite::fav_ids(favorites.edges(), self.id),
    {
        favorites.favorited_article_ids(self.id)
    }

    /// Whether this account follows `followee_id`.
    pub fn is_following(&self, follows: &FollowStore, followee_id: u128) -> (r: bool)
        ensures
            r == follow_contains(follows.edges(), self.id, followee_id),
    {
        follows.exists_edge(self.id, followee_id)
    }

    /// This account's own fields as a profile, with `following` telling
    /// whether it follows `followee_id`.
    pub fn fetch_profile(&self, follows: &FollowStore, followee_id: u128) -> (p: Profile)
        ensures
            p.username == self.username,
            p.bio == self.bio,
            p.image == self.image,
            p.following == follow_contains(follows.edges(), self.id, followee_id),
    {
        let following = self.is_following(follows, followee_id);
        Profile {
            username: self.username.clone(),
            bio: match &self.bio {
                Some(b) => Some(b.clone()),
                None => None,
            },
            image: match &self.image {
                Some(i) => Some(i.clone()),
                None => None,
            },
            following,
        }
    }

    /// Follows the account with `target_username` and echoes the
    /// follower's own fields with `following` set, as the surrounding
    /// API expects.
    pub fn follow_user(
        store: &AccountStore,
        follows: &mut FollowStore,
        current_user: &User,
        target_username: &str,
        now: u64,
    ) -> (r: Result<Profile, AppError>)
        requires
            store.wf(),
            old(follows).wf(),
        ensures
            final(follows).wf(),
            match r {
                Ok(p) => (exists|followee: User| #[trigger]
                    store.accounts().contains(followee) && followee.username@ == target_username@
                        && !follow_contains(old(follows).edges(), current_user.id, followee.id)
                        && final(follows).edges() == old(follows).edges().push(
                        crate::follow::Follow {
                            followee_id: followee.id,
                            follower_id: current_user.id,
                            created_at: now,
                            updated_at: now,
                        },
                    )) && p.username == current_user.username && p.bio == current_user.bio
                    && p.image == current_user.image && p.following == true,
                Err(e) => final(follows).edges() == old(follows).edges() && ((e
                    == AppError::NotFound && !has_username(store.accounts(), target_username@)) || (
                e == AppError::UnprocessableEntity(ValidationIssue::DuplicateEdge) && (exists|
                    followee: User,
                | #[trigger]
                    store.accounts().contains(followee) && followee.username@ == target_username@
                        && follow_contains(
                        old(follows).edges(),
                        current_user.id,
                        followee.id,
                    )))),
            },
    {
        let followee = match Self::find_by_username(store, target_username) {
            Ok(u) => u,
            Err(e) => {
                return Err(e);
            },
        };
        let record = crate::follow::CreateFollow {
            follower_id: current_user.id,
            followee_id: followee.id,
        };
        match follows.create(&record, now) {
            Ok(()) => {},
            Err(e) => {
                return Err(e);
            },
        }
        Ok(
            Profile {
                username: current_user.username.clone(),
                bio: match &current_user.bio {
                    Some(b) => Some(b.clone()),
                    None => None,
                },
                image: match &current_user.image {
                    Some(i) => Some(i.clone()),
                    None => None,
                },
                following: true,
            },
        )
    }

    /// Unfollows the account with `target_username` and echoes the
    /// follower's own fields with `following` cleared.
    pub fn unfollow_user(
        store: &AccountStore,
        follows: &mut FollowStore,
        current_user: &User,
        target_username: &str,
    ) -> (r: Result<Profile, AppError>)
        requires
            store.wf(),
            old(follows).wf(),
        ensures
            final(follows).wf(),
            match r {
                Ok(p) => (exists|followee: User| #[trigger]
                    store.accounts().contains(followee) && followee.username@ == target_username@
                        && !follow_contains(final(follows).edges(), current_user.id, followee.id)
                        && (if follow_contains(
                        old(follows).edges(),
                        current_user.id,
                        followee.id,
                    ) {
                        exists|i: int|
                            0 <= i < old(follows).edges().len()
                                && #[trigger] old(follows).edges()[i].follower_id
                                == current_user.id && old(follows).edges()[i].followee_id
                                == followee.id && final(follows).edges() == old(
                                follows,
                            ).edges().remove(i)
                    } else {
                        final(follows).edges() == old(follows).edges()
                    })) && p.username == current_user.username && p.bio == current_user.bio
                    && p.image == current_user.image && p.following == false,
                Err(e) => final(follows).edges() == old(follows).edges() && e == AppError::NotFound
                    && !has_username(store.accounts(), target_username@),
            },
    {
        let followee = match Self::find_by_username(store, target_username) {
            Ok(u) => u,
            Err(e) => {
                return Err(e);
            },
        };
        let record = crate::follow::DeleteFollow {
            follower_id: current_user.id,
            followee_id: followee.id,
        };
        let removed = follows.delete(&record);
        let _ = removed;
        Ok(
            Profile {
                username: current_user.username.clone(),
                bio: match &current_user.bio {
                    Some(b) => Some(b.clone()),
                    None => None,
                },
                image: match &current_user.image {
                    Some(i) => Some(i.clone()),
                    None => None,
                },
                following: false,
            },
        )
    }
}

/// The token handed back at sign-up — the wire form of the new account's
/// identifier at the sign-up time, by `signup`'s contract — validates to
/// exactly that identifier immediately after issuance.
pub proof fn lemma_signup_token_valid(sub: u128, now: u64, secret: Seq<u8>)
    requires
        now <= u64::MAX - crate::TOKEN_TTL_SECONDS,
    ensures
        crate::token::token_outcome(
            token_bytes(sub, now, (now + crate::TOKEN_TTL_SECONDS) as u64, secret),
            now,
            secret,
        ) == Ok::<u128, crate::error::TokenError>(sub),
{
    crate::token::lemma_token_outcome_issued(
        sub,
        now,
        (now + crate::TOKEN_TTL_SECONDS) as u64,
        now,
        secret,
    );
}

} // verus!
