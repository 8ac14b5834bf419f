//! Request identity resolution and the end-to-end session scenario.

use conduit_auth::error::AppError;
use conduit_auth::hasher;
use conduit_auth::presenters::ProfilePresenterImpl;
use conduit_auth::presenters::UserPresenterImpl;
use conduit_auth::resolver::get_current_user;
use conduit_auth::resolver::resolve_optional;
use conduit_auth::resolver::resolve_required;
use conduit_auth::user::AccountStore;
use conduit_auth::user::SignupUser;
use conduit_auth::user::User;
use conduit_auth::TOKEN_TTL_SECONDS;

const SECRET: &[u8] = b"a-server-held-signing-secret";
const NOW: u64 = 1_700_000_000;
const PASSWORD_HASH: &str = "$2a$04$UuTkLRZZ6QofpDOlMz32MuuxEHA43WOemOYHPz6.SjsVsyO1tDU96";

fn bearer(token: &[u8]) -> Vec<u8> {
    let mut h = b"Token ".to_vec();
    h.extend_from_slice(token);
    h
}

fn store_with_alice() -> (AccountStore, User) {
    let mut store = AccountStore::new();
    let alice = store
        .insert(
            SignupUser {
                email: "alice@example.com".to_string(),
                username: "alice".to_string(),
                password: PASSWORD_HASH.to_string(),
            },
            NOW,
        )
        .unwrap();
    (store, alice)
}

#[test]
fn required_resolution_accepts_a_fresh_token() {
    let (store, alice) = store_with_alice();
    let token = alice.generate_token(NOW, SECRET);
    let header = bearer(&token);
    let resolved = resolve_required(&store, Some(&header), NOW, SECRET).unwrap();
    assert_eq!(resolved.id, alice.id);
    assert_eq!(resolved.username, "alice");
}

#[test]
fn every_failure_reads_the_same_unauthorized() {
    let (store, alice) = store_with_alice();
    let token = alice.generate_token(NOW, SECRET);
    let good = bearer(&token);
    let mut tampered = good.clone();
    let last = tampered.len() - 1;
    tampered[last] = tampered[last].wrapping_add(1);
    let wrong_scheme = {
        let mut h = b"Bearer ".to_vec();
        h.extend_from_slice(&token);
        h
    };
    let failures = [
        resolve_required(&store, None, NOW, SECRET).unwrap_err(),
        resolve_required(&store, Some(&b"Token "[..]), NOW, SECRET).unwrap_err(),
        resolve_required(&store, Some(&tampered), NOW, SECRET).unwrap_err(),
        resolve_required(&store, Some(&wrong_scheme), NOW, SECRET).unwrap_err(),
        resolve_required(&store, Some(&good), NOW + TOKEN_TTL_SECONDS + 1, SECRET).unwrap_err(),
    ];
    for f in failures {
        assert_eq!(f, AppError::Unauthorized);
    }
}

#[test]
fn optional_resolution_turns_failures_into_anonymity() {
    let (store, alice) = store_with_alice();
    let token = alice.generate_token(NOW, SECRET);
    let header = bearer(&token);
    assert!(resolve_optional(&store, Some(&header), NOW, SECRET).is_some());
    assert!(resolve_optional(&store, None, NOW, SECRET).is_none());
    assert!(resolve_optional(&store, Some(&b"garbage"[..]), NOW, SECRET).is_none());
    assert!(
        resolve_optional(&store, Some(&header), NOW + TOKEN_TTL_SECONDS + 1, SECRET).is_none()
    );
}

#[test]
fn unknown_subject_is_rejected_even_with_a_genuine_token() {
    let (store, _alice) = store_with_alice();
    // a genuine token for an id the store has never issued
    let foreign = conduit_auth::token::generate(424242, NOW, SECRET);
    let header = bearer(&foreign);
    assert_eq!(
        resolve_required(&store, Some(&header), NOW, SECRET).unwrap_err(),
        AppError::Unauthorized
    );
}

#[test]
fn current_user_from_context() {
    let (_, alice) = store_with_alice();
    let resolved = get_current_user(Some(alice)).unwrap();
    assert_eq!(resolved.username, "alice");
    assert_eq!(get_current_user(None).unwrap_err(), AppError::Unauthorized);
}

#[test]
fn session_scenario_signup_me_expiry_signin() {
    // sign up alice and receive her first token
    let mut store = AccountStore::new();
    let (alice, t1) =
        User::signup(&mut store, "alice@example.com", "alice", "password", NOW, SECRET).unwrap();
    // a protected endpoint resolves T1 to alice
    let h1 = bearer(&t1);
    let me = resolve_required(&store, Some(&h1), NOW + 10, SECRET).unwrap();
    assert_eq!(me.id, alice.id);
    // past the TTL the same T1 is rejected
    let late = NOW + TOKEN_TTL_SECONDS + 1;
    assert_eq!(
        resolve_required(&store, Some(&h1), late, SECRET).unwrap_err(),
        AppError::Unauthorized
    );
    // signing in again yields a different token for the same identity
    let (alice_again, t2) =
        User::signin(&store, "alice@example.com", "password", late, SECRET).unwrap();
    assert_eq!(alice_again.id, alice.id);
    assert_ne!(t1, t2);
    // T2 is good until its own expiry while T1 stays expired
    let h2 = bearer(&t2);
    assert_eq!(resolve_required(&store, Some(&h2), late, SECRET).unwrap().id, alice.id);
    assert_eq!(
        resolve_required(&store, Some(&h1), late, SECRET).unwrap_err(),
        AppError::Unauthorized
    );
}

#[test]
fn presenters_carry_fields_without_the_hash() {
    let (store, alice) = store_with_alice();
    let token = alice.generate_token(NOW, SECRET);
    let response = UserPresenterImpl::new().to_response(alice, token.clone());
    assert_eq!(response.user.email, "alice@example.com");
    assert_eq!(response.user.username, "alice");
    assert_eq!(response.user.token, token);
    let follows = conduit_auth::follow::FollowStore::new();
    let bob = store.find_by_email("alice@example.com").unwrap();
    let profile = bob.fetch_profile(&follows, 999);
    let shaped = ProfilePresenterImpl::new().to_response(profile);
    assert_eq!(shaped.profile.username, "alice");
    assert!(!shaped.profile.following);
}

#[test]
fn hashing_and_verification_round_trip() {
    let hash = hasher::hash_password("s3cret-pw").unwrap();
    assert!(hasher::verify("s3cret-pw", &hash).is_ok());
    assert_eq!(hasher::verify("wrong", &hash).unwrap_err(), AppError::Unauthorized);
    // a malformed stored hash reads as the same Unauthorized
    assert_eq!(hasher::verify("s3cret-pw", "not-a-hash").unwrap_err(), AppError::Unauthorized);
}
