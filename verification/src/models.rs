//! The data carried across the service boundary.
use vstd::prelude::*;

verus! {

/// A login request body.
#[derive(Clone, Debug, PartialEq, Eq)]
pub struct LoginRequest {
    pub username: String,
    pub password: String,
}

/// A registration request body.
#[derive(Clone, Debug, PartialEq, Eq)]
pub struct RegisterRequest {
    pub username: String,
    pub password: String,
}

/// The body returned on a successful login or registration.
#[derive(Clone, Debug, PartialEq, Eq)]
pub struct LoginResponse {
    pub token: String,
}

/// A request to create a deck.
#[derive(Clone, Debug, PartialEq, Eq)]
pub struct NewDeckRequest {
    pub name: String,
}

/// A stored credential: the stable subject identifier, the unique username,
/// and the salted password hash — never the plaintext.
#[derive(Clone, Debug, PartialEq, Eq)]
pub struct User {
    pub id: String,
    pub username: String,
    pub password: String,
}

/// A deck row.
#[derive(Clone, Debug, PartialEq, Eq)]
pub struct Deck {
    pub id: String,
    pub name: String,
}

/// A card row.
#[derive(Clone, Debug, PartialEq, Eq)]
pub struct Card {
    pub id: String,
    pub front: String,
    pub back: String,
}

/// The claims embedded in a signed token.
#[derive(Clone, Debug, PartialEq, Eq)]
pub struct Claims {
    pub sub: String,
    pub exp: usize,
}

impl Claims {
    /// The canonical claims object these claims serialize to: exactly the
    /// second segment of a token, before its base64url encoding.
    pub fn payload_bytes(&self) -> (r: Vec<u8>)
        ensures
            r@ == crate::claims::json_payload(
                vstd::utf8::encode_utf8(self.sub@),
                self.exp as nat,
            ),
    {
        let sub_bytes: Vec<u8> = vstd::slice::slice_to_vec(self.sub.as_str().as_bytes());
        crate::claims::build_payload(&sub_bytes, self.exp as u64)
    }
}

/// The request-scoped identity of a verified caller.
#[derive(Clone, Debug, PartialEq, Eq)]
pub struct AuthUser {
    pub user_id: String,
}

/// The response post-processing step that injects permissive cross-origin
/// headers; `headers` computes exactly what is set on every response.
pub struct CORS;

impl CORS {
    /// The three header name/value pairs set on every outgoing response.
    pub fn headers(&self) -> (r: Vec<(String, String)>)
        ensures
            r@.len() == 3,
            r@[0].0@ == "Access-Control-Allow-Origin"@,
            r@[0].1@ == "*"@,
            r@[1].0@ == "Access-Control-Allow-Methods"@,
            r@[1].1@ == "POST, GET, PATCH, OPTIONS"@,
            r@[2].0@ == "Access-Control-Allow-Headers"@,
            r@[2].1@ == "*"@,
    {
        let mut v: Vec<(String, String)> = Vec::new();
        v.push(
            (
                String::from_str("Access-Control-Allow-Origin"),
                String::from_str("*"),
            ),
        );
        v.push(
            (
                String::from_str("Access-Control-Allow-Methods"),
                String::from_str("POST, GET, PATCH, OPTIONS"),
            ),
        );
        v.push(
            (
                String::from_str("Access-Control-Allow-Headers"),
                String::from_str("*"),
            ),
        );
        v
    }
}

} // verus!
