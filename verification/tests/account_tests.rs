//! Accounts and credentials: sign-up, sign-in, update, and the
//! indistinguishability of sign-in failures.

use conduit_auth::error::AppError;
use conduit_auth::error::ValidationIssue;
use conduit_auth::hasher;
use conduit_auth::requests::Signin;
use conduit_auth::requests::SigninUser;
use conduit_auth::token::validate;
use conduit_auth::user::AccountStore;
use conduit_auth::user::SignupUser;
use conduit_auth::user::UpdateUser;
use conduit_auth::user::User;

const SECRET: &[u8] = b"a-server-held-signing-secret";
const NOW: u64 = 1_700_000_000;

// A bcrypt hash of "password" at a low cost, so store fixtures need no
// slow hashing of their own.
const PASSWORD_HASH: &str = "$2a$04$UuTkLRZZ6QofpDOlMz32MuuxEHA43WOemOYHPz6.SjsVsyO1tDU96";

fn store_with_alice() -> AccountStore {
    let mut store = AccountStore::new();
    store
        .insert(
            SignupUser {
                email: "alice@example.com".to_string(),
                username: "alice".to_string(),
                password: PASSWORD_HASH.to_string(),
            },
            NOW,
        )
        .unwrap();
    store
}

#[test]
fn signup_creates_account_and_valid_token() {
    let mut store = AccountStore::new();
    let (user, token) =
        User::signup(&mut store, "alice@example.com", "alice", "password", NOW, SECRET).unwrap();
    assert_eq!(user.email, "alice@example.com");
    assert_eq!(user.username, "alice");
    assert_eq!(user.bio, None);
    assert_eq!(user.image, None);
    assert_ne!(user.password, "password");
    // the stored field has the fixed hash shape, never the plaintext
    assert_eq!(user.password.len(), 60);
    assert!(user.password.starts_with("$2b$12$"));
    // and it verifies the original password
    assert!(hasher::verify("password", &user.password).is_ok());
    // the returned token's subject is the new account's id, valid now
    assert_eq!(validate(&token, NOW, SECRET), Ok(user.id));
}

#[test]
fn signup_conflicts_are_field_level() {
    let mut store = store_with_alice();
    let email_clash =
        User::signup(&mut store, "alice@example.com", "alice2", "pw", NOW, SECRET).unwrap_err();
    assert_eq!(email_clash, AppError::UnprocessableEntity(ValidationIssue::EmailTaken));
    let username_clash =
        User::signup(&mut store, "alice2@example.com", "alice", "pw", NOW, SECRET).unwrap_err();
    assert_eq!(username_clash, AppError::UnprocessableEntity(ValidationIssue::UsernameTaken));
}

#[test]
fn signin_succeeds_with_correct_password() {
    let store = store_with_alice();
    let (user, token) =
        User::signin(&store, "alice@example.com", "password", NOW, SECRET).unwrap();
    assert_eq!(user.username, "alice");
    assert_eq!(validate(&token, NOW, SECRET), Ok(user.id));
}

#[test]
fn signin_failures_are_indistinguishable() {
    let store = store_with_alice();
    let wrong_password =
        User::signin(&store, "alice@example.com", "not-the-password", NOW, SECRET).unwrap_err();
    let unknown_email =
        User::signin(&store, "nobody@example.com", "password", NOW, SECRET).unwrap_err();
    // one identical Unauthorized value for both causes
    assert_eq!(wrong_password, AppError::Unauthorized);
    assert_eq!(unknown_email, AppError::Unauthorized);
    assert_eq!(wrong_password, unknown_email);
    assert_eq!(wrong_password.message(), unknown_email.message());
}

#[test]
fn update_changes_only_the_given_fields() {
    let mut store = store_with_alice();
    let alice = store.find_by_email("alice@example.com").unwrap();
    let updated = User::update(
        &mut store,
        alice.id,
        UpdateUser {
            email: None,
            username: None,
            password: None,
            image: None,
            bio: Some("verified systems enthusiast".to_string()),
        },
        NOW + 5,
    )
    .unwrap();
    assert_eq!(updated.id, alice.id);
    assert_eq!(updated.email, "alice@example.com");
    assert_eq!(updated.bio, Some("verified systems enthusiast".to_string()));
    assert_eq!(updated.password, alice.password);
    assert_eq!(updated.created_at, NOW);
    assert_eq!(updated.updated_at, NOW + 5);
}

#[test]
fn update_rejects_unknown_account_and_conflicts() {
    let mut store = store_with_alice();
    store
        .insert(
            SignupUser {
                email: "bob@example.com".to_string(),
                username: "bob".to_string(),
                password: PASSWORD_HASH.to_string(),
            },
            NOW,
        )
        .unwrap();
    let bob = store.find_by_email("bob@example.com").unwrap();
    let missing = User::update(
        &mut store,
        u128::MAX,
        UpdateUser { email: None, username: None, password: None, image: None, bio: None },
        NOW,
    )
    .unwrap_err();
    assert_eq!(missing, AppError::NotFound);
    let clash = User::update(
        &mut store,
        bob.id,
        UpdateUser {
            email: Some("alice@example.com".to_string()),
            username: None,
            password: None,
            image: None,
            bio: None,
        },
        NOW,
    )
    .unwrap_err();
    assert_eq!(clash, AppError::UnprocessableEntity(ValidationIssue::EmailTaken));
    // keeping one's own email is not a conflict
    let keep = User::update(
        &mut store,
        bob.id,
        UpdateUser {
            email: Some("bob@example.com".to_string()),
            username: None,
            password: None,
            image: None,
            bio: None,
        },
        NOW,
    );
    assert!(keep.is_ok());
}

#[test]
fn update_rehashes_a_new_password() {
    let mut store = store_with_alice();
    let alice = store.find_by_email("alice@example.com").unwrap();
    let updated = User::update(
        &mut store,
        alice.id,
        UpdateUser {
            email: None,
            username: None,
            password: Some("new-password".to_string()),
            image: None,
            bio: None,
        },
        NOW,
    )
    .unwrap();
    assert_ne!(updated.password, "new-password");
    assert_eq!(updated.password.len(), 60);
    assert!(updated.password.starts_with("$2b$12$"));
    assert!(hasher::verify("new-password", &updated.password).is_ok());
    // the old password no longer signs in, the new one does
    assert_eq!(
        User::signin(&store, "alice@example.com", "password", NOW, SECRET).unwrap_err(),
        AppError::Unauthorized
    );
    assert!(User::signin(&store, "alice@example.com", "new-password", NOW, SECRET).is_ok());
}

#[test]
fn find_by_username_reports_not_found() {
    let store = store_with_alice();
    assert!(User::find_by_username(&store, "alice").is_ok());
    assert_eq!(User::find_by_username(&store, "bob").unwrap_err(), AppError::NotFound);
}

#[test]
fn request_shapes_carry_credentials() {
    let store = store_with_alice();
    let form = Signin {
        user: SigninUser {
            email: "alice@example.com".to_string(),
            password: "password".to_string(),
        },
    };
    let (user, _) =
        User::signin(&store, &form.user.email, &form.user.password, NOW, SECRET).unwrap();
    assert_eq!(user.username, "alice");
}
