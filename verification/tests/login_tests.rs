use deckauth::login::status_code;
use deckauth::service::verify_token_at;
use deckauth::{
    check_credentials, hash_password, load_secret, login, prepare_registration, ApiError, User,
};

const SECRET: &str = "a-shared-secret-of-at-least-256-bits-for-hmac";
const NOW: u64 = 1_000_000_000;

fn stored_user() -> User {
    User {
        id: String::from("subject-1"),
        username: String::from("alice"),
        password: hash_password("open sesame").unwrap(),
    }
}

#[test]
fn unknown_user_and_wrong_password_are_identical() {
    let u = stored_user();
    let unknown = check_credentials(None, "whatever");
    let wrong = check_credentials(Some(&u), "not the password");
    assert_eq!(unknown, Err(ApiError::InvalidCredentials));
    assert_eq!(wrong, Err(ApiError::InvalidCredentials));
    assert_eq!(unknown, wrong);
    // And the client-visible response is the same status for both.
    assert_eq!(status_code(ApiError::InvalidCredentials), 401);
}

#[test]
fn matching_password_yields_subject() {
    let u = stored_user();
    assert_eq!(
        check_credentials(Some(&u), "open sesame"),
        Ok(String::from("subject-1"))
    );
}

#[test]
fn malformed_stored_hash_is_invalid_credentials() {
    let u = User {
        id: String::from("subject-2"),
        username: String::from("bob"),
        password: String::from("not-a-hash-at-all"),
    };
    assert_eq!(
        check_credentials(Some(&u), "anything"),
        Err(ApiError::InvalidCredentials)
    );
}

#[test]
fn login_issues_verifiable_token() {
    let u = stored_user();
    let resp = login(Some(&u), "open sesame", SECRET, NOW, 3600).unwrap();
    assert_eq!(
        verify_token_at(&resp.token, SECRET, NOW),
        Ok(String::from("subject-1"))
    );
}

#[test]
fn login_failures_reject() {
    let u = stored_user();
    assert_eq!(
        login(None, "pw", SECRET, NOW, 3600),
        Err(ApiError::InvalidCredentials)
    );
    assert_eq!(
        login(Some(&u), "wrong", SECRET, NOW, 3600),
        Err(ApiError::InvalidCredentials)
    );
}

#[test]
fn registration_rejects_blank_fields() {
    assert_eq!(
        prepare_registration("", "pw", false),
        Err(ApiError::InvalidInput)
    );
    assert_eq!(
        prepare_registration("  \t ", "pw", false),
        Err(ApiError::InvalidInput)
    );
    assert_eq!(
        prepare_registration("alice", "   ", false),
        Err(ApiError::InvalidInput)
    );
    assert_eq!(status_code(ApiError::InvalidInput), 400);
}

#[test]
fn registration_conflicts_on_taken_username() {
    assert_eq!(
        prepare_registration("alice", "pw", true),
        Err(ApiError::Conflict)
    );
    assert_eq!(status_code(ApiError::Conflict), 409);
}

#[test]
fn registration_race_one_success_one_conflict() {
    // The store serializes the two inserts for one username: the first
    // admitted attempt proceeds, the second sees the username taken.
    let first = prepare_registration("carol", "pw-one", false);
    let second = prepare_registration("carol", "pw-two", true);
    let created = first.unwrap();
    assert_eq!(created.username, "carol");
    assert_eq!(second, Err(ApiError::Conflict));
}

#[test]
fn registration_produces_usable_credential() {
    let u = prepare_registration("dave", "hunter2", false).unwrap();
    assert_eq!(u.username, "dave");
    assert_eq!(u.id.len(), 36);
    assert_eq!(u.password.len(), 60);
    assert!(deckauth::verify_password("hunter2", &u.password));
    assert!(!deckauth::verify_password("hunter3", &u.password));
    // Fresh identifiers for fresh registrations.
    let v = prepare_registration("dave2", "hunter2", false).unwrap();
    assert_ne!(u.id, v.id);
}

#[test]
fn secret_configuration_is_fatal_when_absent() {
    assert_eq!(load_secret(None), Err(ApiError::ConfigMissing));
    assert_eq!(
        load_secret(Some(String::new())),
        Err(ApiError::ConfigMissing)
    );
    assert_eq!(
        load_secret(Some(String::from("s3cret"))),
        Ok(String::from("s3cret"))
    );
    assert_eq!(status_code(ApiError::ConfigMissing), 500);
    assert_eq!(status_code(ApiError::StoreUnavailable), 500);
}
