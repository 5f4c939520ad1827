//! The per-request authorization guard: from the authorization header of an
//! inbound request to an authenticated identity or a rejection.
use crate::models::AuthUser;
use crate::token::{verify_spec, VerifyError};
use vstd::prelude::*;
use vstd::slice::slice_to_vec;
use vstd::utf8::{encode_utf8, valid_utf8};

verus! {

/// The status code a rejected request surfaces to the client.
pub const UNAUTHORIZED: u16 = 401;

/// What the guard concludes for one request.
#[derive(Clone, Debug)]
pub enum AuthOutcome {
    /// A credential was presented and verified: the caller's identity.
    Authenticated(AuthUser),
    /// No credential was presented: no header, or not a bearer header.
    Anonymous,
    /// A bearer credential was presented and failed verification.
    Rejected,
}

/// The bytes of the scheme prefix `Bearer ` (with its trailing space).
pub open spec fn bearer_prefix() -> Seq<u8> {
    seq![66u8, 101u8, 97u8, 114u8, 101u8, 114u8, 32u8]
}

/// The candidate token of a header value: what follows the scheme prefix,
/// when the value begins with it.
pub open spec fn bearer_token(header: Seq<u8>) -> Option<Seq<u8>> {
    if header.len() >= 7 && header.take(7) == bearer_prefix() {
        Some(header.skip(7))
    } else {
        None
    }
}

/// Runs the guard for one request: reads the authorization header value,
/// strips the scheme prefix, and verifies the candidate token against the
/// secret at the given clock reading.
///
/// A missing header, or one without the scheme prefix, is no credential: a
/// route allowing anonymous access may proceed without an identity, and a
/// route requiring one rejects it through `require_auth`. A presented
/// credential that fails verification is always rejected.
pub fn authorize(header: Option<&str>, secret: &str, now: u64) -> (r: AuthOutcome)
    ensures
        match header {
            None => r is Anonymous,
            Some(h) => match bearer_token(encode_utf8(h@)) {
                None => r is Anonymous,
                Some(tok) => match verify_spec(tok, encode_utf8(secret@), now) {
                    Ok(sub) => if valid_utf8(sub) {
                        r matches AuthOutcome::Authenticated(u) && encode_utf8(u.user_id@) == sub
                    } else {
                        r is Rejected
                    },
                    Err(_) => r is Rejected,
                },
            },
        },
{
    let h = match header {
        Some(h) => h,
        None => {
            return AuthOutcome::Anonymous;
        },
    };
    let hb: Vec<u8> = slice_to_vec(h.as_bytes());
    let n = hb.len();
    if n < 7 {
        return AuthOutcome::Anonymous;
    }
    let pre: Vec<u8> = vec![66u8, 101u8, 97u8, 114u8, 101u8, 114u8, 32u8];
    proof {
        assert(pre@ =~= bearer_prefix());
    }
    let mut k: usize = 0;
    while k < 7
        invariant
            header == Some(h),
            n == hb.len(),
            n >= 7,
            pre@ == bearer_prefix(),
            hb@ == encode_utf8(h@),
            k <= 7,
            forall|t: int| 0 <= t < k ==> hb@[t] == bearer_prefix()[t],
        decreases 7 - k,
    {
        if hb[k] != pre[k] {
            proof {
                assert(hb@.take(7)[k as int] != bearer_prefix()[k as int]);
                assert(hb@.take(7) != bearer_prefix());
            }
            return AuthOutcome::Anonymous;
        }
        k = k + 1;
    }
    proof {
        assert(hb@.take(7) =~= bearer_prefix());
    }
    let mut tok: Vec<u8> = Vec::new();
    let mut i: usize = 7;
    while i < n
        invariant
            n == hb.len(),
            7 <= i <= n,
            tok@ == hb@.subrange(7, i as int),
        decreases n - i,
    {
        tok.push(hb[i]);
        proof {
            assert(tok@ =~= hb@.subrange(7, i + 1));
        }
        i = i + 1;
    }
    proof {
        assert(tok@ =~= hb@.skip(7));
    }
    let key: Vec<u8> = slice_to_vec(secret.as_bytes());
    match crate::token::verify_at(&tok, &key, now) {
        Ok(sub) => match crate::service::subject_string(sub) {
            Some(s) => AuthOutcome::Authenticated(AuthUser { user_id: s }),
            None => AuthOutcome::Rejected,
        },
        Err(_) => AuthOutcome::Rejected,
    }
}

/// The stricter contract of a route that requires authentication: only a
/// verified identity passes; no credential and a failed credential are
/// rejected alike, with the same unauthorized status.
pub fn require_auth(outcome: AuthOutcome) -> (r: Result<AuthUser, u16>)
    ensures
        match outcome {
            AuthOutcome::Authenticated(u) => r == Ok::<AuthUser, u16>(u),
            AuthOutcome::Anonymous => r == Err::<AuthUser, u16>(UNAUTHORIZED),
            AuthOutcome::Rejected => r == Err::<AuthUser, u16>(UNAUTHORIZED),
        },
{
    match outcome {
        AuthOutcome::Authenticated(u) => Ok(u),
        AuthOutcome::Anonymous => Err(UNAUTHORIZED),
        AuthOutcome::Rejected => Err(UNAUTHORIZED),
    }
}

/// The protected route body: greets a verified caller by identifier and
/// rejects a request without one.
pub fn protected(user: Option<AuthUser>) -> (r: Result<String, u16>)
    ensures
        match user {
            Some(u) => r matches Ok(s) && s@ == "Hello, user with id: "@ + u.user_id@,
            None => r == Err::<String, u16>(UNAUTHORIZED),
        },
{
    match user {
        Some(u) => {
            let mut s = String::from_str("Hello, user with id: ");
            s.append(u.user_id.as_str());
            Ok(s)
        },
        None => Err(UNAUTHORIZED),
    }
}

} // verus!
