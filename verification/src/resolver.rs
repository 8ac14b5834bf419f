//! Request identity resolution: from an authorization header to an
//! authenticated account, or to anonymity, or to `Unauthorized`.
//!
//! The header is expected to carry `Token ` followed by the wire form of
//! a token. [`resolved_account`] says exactly which accounts can come out
//! of which headers; required resolution fails closed with one uniform
//! `Unauthorized` for every cause — absent header, malformed header,
//! tampered or expired token, unknown subject — so a caller cannot probe
//! which check failed.

use vstd::prelude::*;

use crate::bytes::bytes_eq;
use crate::error::AppError;
use crate::token::token_outcome;
use crate::token::validate;
use crate::user::has_id;
use crate::user::id_index;
use crate::user::AccountStore;
use crate::user::User;
use vstd::slice::slice_subrange;

verus! {

/// `Token ` — the scheme prefix of the authorization header.
pub open spec fn token_prefix() -> Seq<u8> {
    seq![84u8, 111, 107, 101, 110, 32]
}

/// The account a header resolves to, if any: the header must be present,
/// carry the scheme prefix, its token must validate now, and the subject
/// must name a stored account.
pub open spec fn resolved_account(
    accounts: Seq<User>,
    header: Option<Seq<u8>>,
    now: u64,
    secret: Seq<u8>,
) -> Option<User> {
    match header {
        None => None,
        Some(h) => if h.len() >= 6 && h.subrange(0, 6) == token_prefix() {
            match token_outcome(h.skip(6), now, secret) {
                Ok(uid) => if has_id(accounts, uid) {
                    Some(accounts[id_index(accounts, uid)])
                } else {
                    None
                },
                Err(_) => None,
            }
        } else {
            None
        },
    }
}

/// Resolves a header for an endpoint that serves anonymous readers too:
/// absence and invalidity of any kind yield anonymity, never an error.
pub fn resolve_optional(
    store: &AccountStore,
    header: Option<&[u8]>,
    now: u64,
    secret: &[u8],
) -> (r: Option<User>)
    requires
        store.wf(),
    ensures
        r == resolved_account(
            store.accounts(),
            match header {
                Some(h) => Some(h@),
                None => None,
            },
            now,
            secret@,
        ),
{
    let h = match header {
        Some(h) => h,
        None => {
            return None;
        },
    };
    if h.len() < 6 {
        return None;
    }
    let mut prefix: Vec<u8> = Vec::new();
    prefix.push(84u8);
    prefix.push(111);
    prefix.push(107);
    prefix.push(101);
    prefix.push(110);
    prefix.push(32);
    proof {
        assert(prefix@ =~= token_prefix());
    }
    if !bytes_eq(slice_subrange(h, 0, 6), prefix.as_slice()) {
        return None;
    }
    let tok = slice_subrange(h, 6, h.len());
    proof {
        assert(tok@ =~= h@.skip(6));
    }
    let uid = match validate(tok, now, secret) {
        Ok(uid) => uid,
        Err(_) => {
            return None;
        },
    };
    match store.find_by_id(uid) {
        Some(u) => {
            proof {
                let s = store.accounts();
                let j = choose|j: int| 0 <= j < s.len() && s[j] == u;
                let i = id_index(s, uid);
                assert(s.contains(u));
                assert(0 <= i < s.len() && s[i].id == uid);
                assert(s[j] == u);
                assert(s[i] == s[j]);
            }
            Some(u)
        },
        None => None,
    }
}

/// Resolves a header for an endpoint that requires identity: every cause
/// of failure maps to the one same `Unauthorized` value.
pub fn resolve_required(
    store: &AccountStore,
    header: Option<&[u8]>,
    now: u64,
    secret: &[u8],
) -> (r: Result<User, AppError>)
    requires
        store.wf(),
    ensures
        ({
            let resolved = resolved_account(
                store.accounts(),
                match header {
                    Some(h) => Some(h@),
                    None => None,
                },
                now,
                secret@,
            );
            match r {
                Ok(u) => resolved == Some(u),
                Err(e) => resolved is None && e == AppError::Unauthorized,
            }
        }),
{
    match resolve_optional(store, header, now, secret) {
        Some(u) => Ok(u),
        None => Err(AppError::Unauthorized),
    }
}

/// The identity already attached to a request's context, or the uniform
/// `Unauthorized` when none was attached.
pub fn get_current_user(current: Option<User>) -> (r: Result<User, AppError>)
    ensures
        match r {
            Ok(u) => current == Some(u),
            Err(e) => current is None && e == AppError::Unauthorized,
        },
{
    match current {
        Some(u) => Ok(u),
        None => Err(AppError::Unauthorized),
    }
}

} // verus!
