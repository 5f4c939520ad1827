//! The login and registration flows over the external credential store.
//!
//! The store itself is outside: callers look a credential up (or try an
//! insert) and hand the outcome in. Everything decided here — matching,
//! merging of failure kinds, input validation, conflict handling — is a
//! pure function of those outcomes and is stated below.
use crate::models::{LoginResponse, User};
use crate::password::{bcrypt_matches, hash_password, HashError};
use crate::token::make_token;
use vstd::prelude::*;
use vstd::utf8::encode_utf8;

verus! {

/// The failure kinds of the login and registration flows. Only the mapped
/// status code reaches a client; the kind is for logs and tests.
#[derive(Clone, Copy, Debug, PartialEq, Eq, Structural)]
pub enum ApiError {
    /// Login failed: the user is unknown or the password is wrong. The two
    /// are merged so that a caller cannot probe which usernames exist.
    InvalidCredentials,
    /// Registration failed: the username is already taken.
    Conflict,
    /// Registration failed: the username or the password is blank.
    InvalidInput,
    /// The credential store could not be reached.
    StoreUnavailable,
    /// The process-wide secret is not configured; fatal at startup.
    ConfigMissing,
    /// The password hasher's entropy source failed.
    HashingError,
}

/// The status code surfaced to a client for each failure kind.
pub open spec fn status_of(e: ApiError) -> u16 {
    match e {
        ApiError::InvalidCredentials => 401,
        ApiError::Conflict => 409,
        ApiError::InvalidInput => 400,
        ApiError::StoreUnavailable => 500,
        ApiError::ConfigMissing => 500,
        ApiError::HashingError => 500,
    }
}

pub fn status_code(e: ApiError) -> (r: u16)
    ensures
        r == status_of(e),
{
    match e {
        ApiError::InvalidCredentials => 401,
        ApiError::Conflict => 409,
        ApiError::InvalidInput => 400,
        ApiError::StoreUnavailable => 500,
        ApiError::ConfigMissing => 500,
        ApiError::HashingError => 500,
    }
}

/// A stored credential as the specifications see it.
pub struct UserView {
    pub id: Seq<char>,
    pub username: Seq<char>,
    pub password: Seq<char>,
}

impl View for User {
    type V = UserView;

    open spec fn view(&self) -> UserView {
        UserView { id: self.id@, username: self.username@, password: self.password@ }
    }
}

/// What login decides from the store's lookup outcome and the presented
/// password: the subject identifier on a match, and one merged failure
/// otherwise — an unknown username and a wrong password are not told apart.
pub open spec fn login_outcome(user: Option<UserView>, password: Seq<char>) -> Result<
    Seq<char>,
    ApiError,
> {
    match user {
        None => Err(ApiError::InvalidCredentials),
        Some(u) => if bcrypt_matches(password, u.password) {
            Ok(u.id)
        } else {
            Err(ApiError::InvalidCredentials)
        },
    }
}

/// Enumeration resistance: login with an unknown username and login with a
/// known username but a wrong password decide the identical failure, and
/// surface the identical status code.
pub proof fn lemma_enumeration_resistance(u: UserView, pw_any: Seq<char>, pw_wrong: Seq<char>)
    requires
        !bcrypt_matches(pw_wrong, u.password),
    ensures
        login_outcome(None, pw_any) == login_outcome(Some(u), pw_wrong),
        login_outcome(None, pw_any) == Err::<Seq<char>, _>(ApiError::InvalidCredentials),
        status_of(ApiError::InvalidCredentials) == 401,
{
}

/// Decides a login from the store's lookup outcome: the subject identifier
/// of the credential whose password matches.
pub fn check_credentials(user: Option<&User>, password: &str) -> (r: Result<String, ApiError>)
    ensures
        match r {
            Ok(s) => login_outcome(
                match user {
                    Some(u) => Some(u@),
                    None => None,
                },
                password@,
            ) == Ok::<Seq<char>, ApiError>(s@),
            Err(e) => login_outcome(
                match user {
                    Some(u) => Some(u@),
                    None => None,
                },
                password@,
            ) == Err::<Seq<char>, ApiError>(e),
        },
{
    match user {
        None => Err(ApiError::InvalidCredentials),
        Some(u) => {
            if crate::password::verify_password(password, u.password.as_str()) {
                Ok(u.id.clone())
            } else {
                Err(ApiError::InvalidCredentials)
            }
        },
    }
}

/// The full login flow: decide the credentials, then issue a token that
/// expires `ttl` seconds after `now`.
pub fn login(user: Option<&User>, password: &str, secret: &str, now: u64, ttl: u64) -> (r: Result<
    LoginResponse,
    ApiError,
>)
    requires
        now + ttl <= u64::MAX,
    ensures
        user is None ==> r == Err::<LoginResponse, _>(ApiError::InvalidCredentials),
        user matches Some(u) ==> if bcrypt_matches(password@, u.password@) {
            r matches Ok(resp) && encode_utf8(resp.token@) == make_token(
                encode_utf8(u.id@),
                (now + ttl) as nat,
                encode_utf8(secret@),
            )
        } else {
            r == Err::<LoginResponse, _>(ApiError::InvalidCredentials)
        },
{
    let subject = match check_credentials(user, password) {
        Ok(s) => s,
        Err(e) => {
            return Err(e);
        },
    };
    let token = crate::service::issue_token(subject.as_str(), secret, now + ttl);
    Ok(LoginResponse { token })
}

/// The characters the blank check strips: the Unicode white space set.
pub open spec fn is_space_char(c: char) -> bool {
    c == '\u{9}' || c == '\u{a}' || c == '\u{b}' || c == '\u{c}' || c == '\u{d}' || c == ' '
        || c == '\u{85}' || c == '\u{a0}' || c == '\u{1680}' || c == '\u{2000}' || c == '\u{2001}'
        || c == '\u{2002}' || c == '\u{2003}' || c == '\u{2004}' || c == '\u{2005}' || c
        == '\u{2006}' || c == '\u{2007}' || c == '\u{2008}' || c == '\u{2009}' || c == '\u{200a}'
        || c == '\u{2028}' || c == '\u{2029}' || c == '\u{202f}' || c == '\u{205f}' || c
        == '\u{3000}'
}

/// A string is blank when every character is white space — in particular
/// when it is empty. A blank field is rejected on registration.
pub open spec fn is_blank(s: Seq<char>) -> bool {
    forall|i: int| 0 <= i < s.len() ==> is_space_char(#[trigger] s[i])
}

fn space_char(c: char) -> (r: bool)
    ensures
        r == is_space_char(c),
{
    c == '\u{9}' || c == '\u{a}' || c == '\u{b}' || c == '\u{c}' || c == '\u{d}' || c == ' '
        || c == '\u{85}' || c == '\u{a0}' || c == '\u{1680}' || c == '\u{2000}' || c == '\u{2001}'
        || c == '\u{2002}' || c == '\u{2003}' || c == '\u{2004}' || c == '\u{2005}' || c
        == '\u{2006}' || c == '\u{2007}' || c == '\u{2008}' || c == '\u{2009}' || c == '\u{200a}'
        || c == '\u{2028}' || c == '\u{2029}' || c == '\u{202f}' || c == '\u{205f}' || c
        == '\u{3000}'
}

/// Whether a string trims to nothing.
pub fn is_blank_str(s: &str) -> (r: bool)
    ensures
        r == is_blank(s@),
{
    let n = s.unicode_len();
    let mut i: usize = 0;
    while i < n
        invariant
            n == s@.len(),
            i <= n,
            forall|t: int| 0 <= t < i ==> is_space_char(#[trigger] s@[t]),
        decreases n - i,
    {
        let c = s.get_char(i);
        if !space_char(c) {
            return false;
        }
        i = i + 1;
    }
    true
}

/// What registration decides from its inputs and the store's answer on
/// whether the username is taken: blank fields are rejected, a taken
/// username conflicts, anything else proceeds.
pub open spec fn register_outcome(
    username: Seq<char>,
    password: Seq<char>,
    taken: bool,
) -> Result<(), ApiError> {
    if is_blank(username) || is_blank(password) {
        Err(ApiError::InvalidInput)
    } else if taken {
        Err(ApiError::Conflict)
    } else {
        Ok(())
    }
}

/// Registration race: the store serializes the two inserts for one
/// username, so of two concurrent registrations with valid fields, the one
/// the store admits first succeeds and the other sees the username taken
/// and fails with exactly a conflict.
pub proof fn lemma_registration_race(username: Seq<char>, pw_first: Seq<char>, pw_second: Seq<char>)
    requires
        !is_blank(username),
        !is_blank(pw_first),
        !is_blank(pw_second),
    ensures
        register_outcome(username, pw_first, false) == Ok::<(), ApiError>(()),
        register_outcome(username, pw_second, true) == Err::<(), ApiError>(ApiError::Conflict),
{
}

/// Relies on uuid's version-4 generator: the hyphenated rendering of a
/// random identifier, always 36 characters. Nothing else is assumed of it.
/// The generator offers no fallible form and aborts the process if the
/// operating system's randomness is unavailable.
#[verifier::external_body]
fn fresh_subject_id() -> (r: String)
    ensures
        r@.len() == 36,
{
    uuid::Uuid::new_v4().to_string()
}

/// Prepares a registration from its inputs and the store's answer on
/// whether the username is taken: validates, hashes the password, and
/// allocates a fresh subject identifier. The caller persists the returned
/// credential and then issues its token.
pub fn prepare_registration(username: &str, password: &str, taken: bool) -> (r: Result<
    User,
    ApiError,
>)
    ensures
        register_outcome(username@, password@, taken) matches Err(e) ==> r == Err::<User, _>(e),
        register_outcome(username@, password@, taken) is Ok ==> match r {
            Ok(u) => u@.username == username@ && bcrypt_matches(password@, u@.password)
                && u@.password.len() == 60 && u@.id.len() == 36,
            Err(e) => e == ApiError::HashingError,
        },
{
    if is_blank_str(username) || is_blank_str(password) {
        return Err(ApiError::InvalidInput);
    }
    if taken {
        return Err(ApiError::Conflict);
    }
    let hashed = match hash_password(password) {
        Ok(h) => h,
        Err(HashError::HashingFailed) => {
            return Err(ApiError::HashingError);
        },
    };
    let id = fresh_subject_id();
    Ok(User { id, username: username.to_owned(), password: hashed })
}

/// Loads the process-wide secret from what the environment supplied: an
/// absent or empty value is fatal configuration, not a per-request error.
pub fn load_secret(secret: Option<String>) -> (r: Result<String, ApiError>)
    ensures
        match secret {
            None => r == Err::<String, _>(ApiError::ConfigMissing),
            Some(s) => if s@.len() == 0 {
                r == Err::<String, _>(ApiError::ConfigMissing)
            } else {
                r matches Ok(v) && v@ == s@
            },
        },
{
    match secret {
        None => Err(ApiError::ConfigMissing),
        Some(s) => {
            if s.as_str().is_empty() {
                Err(ApiError::ConfigMissing)
            } else {
                Ok(s)
            }
        },
    }
}

} // verus!
