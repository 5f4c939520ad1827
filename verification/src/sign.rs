//! Trusted boundary to the token crate's HMAC signing.
use crate::b64::b64_encode;
use vstd::prelude::*;

verus! {

/// The raw HMAC-SHA-256 digest of `msg` keyed by `key`: a pure function of
/// its two arguments, computed by the signing crate.
pub uninterp spec fn hmac_sha256(msg: Seq<u8>, key: Seq<u8>) -> Seq<u8>;

/// The signature segment for a signing input: the digest, base64url encoded
/// without padding.
pub open spec fn sig_of(msg: Seq<u8>, key: Seq<u8>) -> Seq<u8> {
    b64_encode(hmac_sha256(msg, key))
}

/// Relies on jsonwebtoken::crypto::sign with the HS256 algorithm: it returns
/// the base64url no-padding encoding of the HMAC-SHA-256 digest of the
/// message under the secret, a function of the two arguments alone. The
/// call cannot fail for this algorithm: a key made from a secret is always
/// of the HMAC family, the HMAC mac accepts a key of any length, and its
/// signing step is infallible.
#[verifier::external_body]
pub(crate) fn hs256_sign(msg: &Vec<u8>, key: &Vec<u8>) -> (r: Vec<u8>)
    ensures
        r@ == b64_encode(hmac_sha256(msg@, key@)),
{
    let ek = jsonwebtoken::EncodingKey::from_secret(key);
    jsonwebtoken::crypto::sign(msg, &ek, jsonwebtoken::Algorithm::HS256)
        .expect("HMAC signing does not fail")
        .into_bytes()
}

/// Relies on jsonwebtoken::crypto::verify with the HS256 algorithm: it
/// accepts exactly the canonical base64url no-padding encoding of the
/// HMAC-SHA-256 digest of the message under the secret, since its decoder
/// rejects padding and non-canonical trailing bits, and its comparison is
/// over the full decoded digest.
#[verifier::external_body]
pub(crate) fn hs256_sig_matches(sig: &Vec<u8>, msg: &Vec<u8>, key: &Vec<u8>) -> (r: bool)
    ensures
        r == (sig@ == b64_encode(hmac_sha256(msg@, key@))),
{
    let sig_str = match core::str::from_utf8(sig) {
        Ok(s) => s,
        Err(_) => return false,
    };
    let dk = jsonwebtoken::DecodingKey::from_secret(key);
    match jsonwebtoken::crypto::verify(sig_str, msg, &dk, jsonwebtoken::Algorithm::HS256) {
        Ok(b) => b,
        Err(_) => false,
    }
}

} // verus!
