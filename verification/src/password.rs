//! One-way salted password hashing and constant-time verification.
use vstd::prelude::*;

verus! {

/// Whether the hashing scheme accepts `password` for the stored `hashed`
/// value: a pure function of the two strings. A malformed stored value
/// matches no password.
pub uninterp spec fn bcrypt_matches(password: Seq<char>, hashed: Seq<char>) -> bool;

/// Hashing failed: the entropy source was unavailable.
#[derive(Clone, Copy, Debug, PartialEq, Eq, Structural)]
pub enum HashError {
    HashingFailed,
}

/// Relies on bcrypt::hash with the crate's default cost: a success is a
/// self-describing 60-character hash, salted from OS randomness, that
/// bcrypt::verify accepts for the same password; it fails only when the
/// entropy source does.
#[verifier::external_body]
fn bcrypt_hash(password: &str) -> (r: Option<String>)
    ensures
        r matches Some(h) ==> bcrypt_matches(password@, h@) && h@.len() == 60,
{
    match bcrypt::hash(password, bcrypt::DEFAULT_COST) {
        Ok(h) => Some(h),
        Err(_) => None,
    }
}

/// Relies on bcrypt::verify: it recomputes the hash with the cost and salt
/// embedded in the stored value and compares in constant time, a pure
/// function of the two strings; a stored value it cannot parse verifies
/// as false rather than failing.
#[verifier::external_body]
fn bcrypt_check(password: &str, hashed: &str) -> (r: bool)
    ensures
        r == bcrypt_matches(password@, hashed@),
{
    match bcrypt::verify(password, hashed) {
        Ok(b) => b,
        Err(_) => false,
    }
}

/// Hashes a plaintext password into a self-describing salted hash that
/// `verify_password` accepts for the same password.
pub fn hash_password(password: &str) -> (r: Result<String, HashError>)
    ensures
        r matches Ok(h) ==> bcrypt_matches(password@, h@) && h@.len() == 60,
        r matches Err(e) ==> e == HashError::HashingFailed,
{
    match bcrypt_hash(password) {
        Some(h) => Ok(h),
        None => Err(HashError::HashingFailed),
    }
}

/// Whether a plaintext password matches a stored hash. Never fails: an
/// unparsable stored value is a verification failure, not an error.
pub fn verify_password(password: &str, hashed: &str) -> (r: bool)
    ensures
        r == bcrypt_matches(password@, hashed@),
{
    bcrypt_check(password, hashed)
}

} // verus!
