use deckauth::service::issue_token;
use deckauth::{authorize, protected, require_auth, AuthOutcome, AuthUser};

const SECRET: &str = "a-shared-secret-of-at-least-256-bits-for-hmac";
const NOW: u64 = 1_000_000_000;

#[test]
fn no_header_is_anonymous_and_unauthorized_when_required() {
    let outcome = authorize(None, SECRET, NOW);
    assert!(matches!(outcome, AuthOutcome::Anonymous));
    assert_eq!(require_auth(outcome), Err(401));
}

#[test]
fn non_bearer_header_is_anonymous() {
    for h in ["Basic dXNlcjpwdw==", "bearer lowercase", "Bearer", "Token abc", ""] {
        let outcome = authorize(Some(h), SECRET, NOW);
        assert!(matches!(outcome, AuthOutcome::Anonymous), "header {:?}", h);
    }
}

#[test]
fn bearer_garbage_is_rejected() {
    let outcome = authorize(Some("Bearer garbage"), SECRET, NOW);
    assert!(matches!(outcome, AuthOutcome::Rejected));
    assert_eq!(require_auth(outcome), Err(401));
}

#[test]
fn bearer_expired_token_is_rejected() {
    let token = issue_token("u1", SECRET, NOW);
    let header = format!("Bearer {}", token);
    let outcome = authorize(Some(&header), SECRET, NOW);
    assert!(matches!(outcome, AuthOutcome::Rejected));
}

#[test]
fn bearer_wrong_secret_is_rejected() {
    let token = issue_token("u1", "some-other-secret-entirely-here!", 2 * NOW);
    let header = format!("Bearer {}", token);
    let outcome = authorize(Some(&header), SECRET, NOW);
    assert!(matches!(outcome, AuthOutcome::Rejected));
}

#[test]
fn valid_token_yields_identity() {
    let token = issue_token("u1", SECRET, 2 * NOW);
    let header = format!("Bearer {}", token);
    let outcome = authorize(Some(&header), SECRET, NOW);
    match &outcome {
        AuthOutcome::Authenticated(u) => assert_eq!(u.user_id, "u1"),
        other => panic!("expected an identity, got {:?}", other),
    }
    let identity = require_auth(outcome).unwrap();
    assert_eq!(identity.user_id, "u1");
}

#[test]
fn protected_route_greets_identity_and_rejects_none() {
    let greeting = protected(Some(AuthUser { user_id: String::from("u1") })).unwrap();
    assert_eq!(greeting, "Hello, user with id: u1");
    assert_eq!(protected(None), Err(401));
}

#[test]
fn preflight_body_is_empty() {
    assert_eq!(deckauth::all_options(), "");
}

#[test]
fn cors_headers_are_fixed() {
    let headers = deckauth::CORS.headers();
    assert_eq!(headers.len(), 3);
    assert_eq!(headers[0].0, "Access-Control-Allow-Origin");
    assert_eq!(headers[0].1, "*");
    assert_eq!(headers[1].0, "Access-Control-Allow-Methods");
    assert_eq!(headers[1].1, "POST, GET, PATCH, OPTIONS");
    assert_eq!(headers[2].0, "Access-Control-Allow-Headers");
    assert_eq!(headers[2].1, "*");
}
