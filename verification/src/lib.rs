//! Bearer-credential authentication for an HTTP card-deck service.
//!
//! The core is the authentication and authorization subsystem: password
//! hashing and verification, signed time-bounded token issuance and
//! verification, the per-request guard that turns an authorization header
//! into an identity or a rejection, and the login and registration flows
//! over an external credential store. Every decision these make is a pure
//! function of the values handed in — the secret, the clock reading, the
//! header, the store's answers — and is stated in the contracts here.
pub mod b64;
pub mod claims;
pub mod guard;
pub mod login;
pub mod models;
pub mod nums;
pub mod password;
pub mod service;
pub mod sign;
pub mod token;

pub use guard::{authorize, protected, require_auth, AuthOutcome};
pub use login::{check_credentials, load_secret, login, prepare_registration, ApiError};
pub use models::{
    AuthUser, Card, Claims, Deck, LoginRequest, LoginResponse, NewDeckRequest, RegisterRequest,
    User, CORS,
};
pub use password::{hash_password, verify_password};
pub use service::{generate_token, issue_token, verify_token, verify_token_at};
pub use token::VerifyError;

use vstd::prelude::*;

verus! {

/// Catch-all preflight handler body: an empty response.
pub fn all_options() -> (r: &'static str)
    ensures
        r@.len() == 0,
{
    proof {
        reveal_strlit("");
    }
    ""
}

} // verus!
