//! The string-level token service: issuing and verifying tokens for
//! subjects given as strings, against the process-wide secret and clock.
use crate::token::{make_token, verify_spec, VerifyError};
use crate::sign::{hmac_sha256, sig_of};
use vstd::prelude::*;
use vstd::slice::slice_to_vec;
use vstd::utf8::{
    decode_utf8, encode_utf8, is_leading_byte_width_1, partial_valid_utf8,
    partial_valid_utf8_extend_ascii_block, valid_utf8,
};

verus! {

/// The default time a token stays valid, in seconds.
pub const DEFAULT_TTL_SECONDS: u64 = 3600;

/// Relies on chrono's UTC clock: whole seconds since the epoch. Nothing is
/// assumed of the reading. The underlying call does not return when the
/// system clock is set before the epoch, so the reading is never negative
/// in practice; the callers clamp it all the same.
#[verifier::external_body]
pub fn now_unix() -> i64 {
    chrono::Utc::now().timestamp()
}

/// Relies on String::from_utf8: it accepts exactly the valid UTF-8 byte
/// strings and decodes them.
#[verifier::external_body]
fn bytes_to_string(v: Vec<u8>) -> (r: Option<String>)
    ensures
        match r {
            Some(s) => valid_utf8(v@) && s@ == decode_utf8(v@),
            None => !valid_utf8(v@),
        },
{
    match String::from_utf8(v) {
        Ok(s) => Some(s),
        Err(_) => None,
    }
}

/// The expiry for a clock reading and a lifetime: a reading before the
/// epoch counts as the epoch, and the sum saturates.
pub open spec fn expiry_of(now_secs: int, ttl: int) -> int {
    let base: int = if now_secs < 0 {
        0
    } else {
        now_secs
    };
    if base + ttl > u64::MAX {
        u64::MAX as int
    } else {
        base + ttl
    }
}

pub fn token_expiry(now_secs: i64, ttl: u64) -> (r: u64)
    ensures
        r == expiry_of(now_secs as int, ttl as int),
{
    let base: u64 = if now_secs < 0 {
        0
    } else {
        now_secs as u64
    };
    if base > u64::MAX - ttl {
        u64::MAX
    } else {
        base + ttl
    }
}

/// A token is ASCII throughout: its segments use the encoding alphabet and
/// its separators are dots.
pub proof fn lemma_token_ascii(sub: Seq<u8>, exp: nat, key: Seq<u8>)
    ensures
        forall|i: int|
            0 <= i < make_token(sub, exp, key).len() ==> #[trigger] make_token(sub, exp, key)[i]
                < 128,
{
    let h = crate::token::header_b64();
    let p = crate::b64::b64_encode(crate::claims::json_payload(sub, exp));
    let g = sig_of(crate::token::signing_input(sub, exp), key);
    let t = make_token(sub, exp, key);
    crate::b64::lemma_encode_alphabet(crate::token::header_json());
    crate::b64::lemma_encode_alphabet(crate::claims::json_payload(sub, exp));
    crate::b64::lemma_encode_alphabet(hmac_sha256(crate::token::signing_input(sub, exp), key));
    assert(t =~= h + seq![46u8] + p + seq![46u8] + g);
    assert forall|i: int| 0 <= i < t.len() implies #[trigger] t[i] < 128 by {
        if i < h.len() {
            assert(t[i] == h[i]);
        } else if i == h.len() {
            assert(t[i] == 46);
        } else if i < h.len() + 1 + p.len() {
            assert(t[i] == p[i - h.len() - 1]);
        } else if i == h.len() + 1 + p.len() {
            assert(t[i] == 46);
        } else {
            assert(t[i] == g[i - (h.len() + 1 + p.len() + 1)]);
        }
    }
}

/// An all-ASCII byte string is valid UTF-8 and decodes to itself, character
/// for character.
proof fn lemma_ascii_bytes_valid(v: Seq<u8>)
    requires
        forall|i: int| 0 <= i < v.len() ==> #[trigger] v[i] < 128,
    ensures
        valid_utf8(v),
{
    broadcast use vstd::utf8::utf8_byte_ranges_bitwise;

    assert forall|i: int| 0 <= i < v.len() implies #[trigger] is_leading_byte_width_1(v[i]) by {
        assert(v[i] & 0x80 == 0);
    }
    assert(v.subrange(0, 0) =~= Seq::<u8>::empty());
    assert(partial_valid_utf8(v, 0));
    partial_valid_utf8_extend_ascii_block(v, 0, v.len() as int);
    assert(v.subrange(0, v.len() as int) =~= v);
}

/// Two strings with one UTF-8 encoding are one string: with the round trip
/// over `make_token` and `verify_spec`, a verified token's subject string
/// is exactly the string it was issued for.
pub proof fn lemma_subject_recovered(s1: Seq<char>, s2: Seq<char>)
    requires
        encode_utf8(s1) == encode_utf8(s2),
    ensures
        s1 == s2,
{
    vstd::utf8::encode_utf8_decode_utf8(s1);
    vstd::utf8::encode_utf8_decode_utf8(s2);
}

/// Issues a token for a subject with the given expiry, signed with the
/// secret: the three-segment wire form of `make_token`, always.
pub fn issue_token(subject: &str, secret: &str, exp: u64) -> (r: String)
    ensures
        encode_utf8(r@) == make_token(encode_utf8(subject@), exp as nat, encode_utf8(secret@)),
{
    let sub_bytes: Vec<u8> = slice_to_vec(subject.as_bytes());
    let key: Vec<u8> = slice_to_vec(secret.as_bytes());
    let tok = crate::token::issue_at(&sub_bytes, &key, exp);
    proof {
        lemma_token_ascii(encode_utf8(subject@), exp as nat, encode_utf8(secret@));
        lemma_ascii_bytes_valid(tok@);
    }
    match bytes_to_string(tok) {
        Some(s) => {
            proof {
                broadcast use vstd::utf8::decode_utf8_encode_utf8;

            }
            s
        },
        None => {
            // Unreachable: the token is ASCII, so it is valid UTF-8.
            proof {
                assert(false);
            }
            String::new()
        },
    }
}

/// The subject bytes of a verified token as a string, when they are UTF-8.
pub fn subject_string(sub: Vec<u8>) -> (r: Option<String>)
    ensures
        match r {
            Some(s) => valid_utf8(sub@) && encode_utf8(s@) == sub@,
            None => !valid_utf8(sub@),
        },
{
    match bytes_to_string(sub) {
        Some(s) => {
            proof {
                broadcast use vstd::utf8::decode_utf8_encode_utf8;

            }
            Some(s)
        },
        None => None,
    }
}

/// Verifies a token against the secret at a clock reading; yields the
/// subject of a valid token, or the failure kind. A valid token whose
/// subject bytes are not a UTF-8 string is reported malformed.
pub fn verify_token_at(token: &str, secret: &str, now: u64) -> (r: Result<String, VerifyError>)
    ensures
        match r {
            Ok(s) => verify_spec(encode_utf8(token@), encode_utf8(secret@), now) == Ok::<
                _,
                VerifyError,
            >(encode_utf8(s@)),
            Err(e) => match verify_spec(encode_utf8(token@), encode_utf8(secret@), now) {
                Ok(sub) => e == VerifyError::Malformed && !valid_utf8(sub),
                Err(e2) => e == e2,
            },
        },
{
    let tok_bytes: Vec<u8> = slice_to_vec(token.as_bytes());
    let key: Vec<u8> = slice_to_vec(secret.as_bytes());
    match crate::token::verify_at(&tok_bytes, &key, now) {
        Ok(sub) => {
            match bytes_to_string(sub) {
                Some(s) => {
                    proof {
                        broadcast use vstd::utf8::decode_utf8_encode_utf8;

                    }
                    Ok(s)
                },
                None => Err(VerifyError::Malformed),
            }
        },
        Err(e) => Err(e),
    }
}

/// Issues a token for a subject with the default one-hour lifetime from
/// some reading of the clock, signed with the secret.
pub fn generate_token(user_id: &str, secret: &str) -> (r: String)
    ensures
        exists|now: i64|
            encode_utf8(r@) == make_token(
                encode_utf8(user_id@),
                expiry_of(now as int, DEFAULT_TTL_SECONDS as int) as nat,
                encode_utf8(secret@),
            ),
{
    let now = now_unix();
    let exp = token_expiry(now, DEFAULT_TTL_SECONDS);
    let r = issue_token(user_id, secret, exp);
    proof {
        let w: i64 = now;
        assert(encode_utf8(r@) == make_token(
            encode_utf8(user_id@),
            expiry_of(w as int, DEFAULT_TTL_SECONDS as int) as nat,
            encode_utf8(secret@),
        ));
    }
    r
}

/// Verifies a token against the secret at the current clock reading; the
/// subject of a valid token, or nothing. The failure kinds are collapsed,
/// as the route layer treats them alike.
pub fn verify_token(token: &str, secret: &str) -> (r: Option<String>)
    ensures
        r matches Some(s) ==> exists|now: u64|
            verify_spec(encode_utf8(token@), encode_utf8(secret@), now) == Ok::<_, VerifyError>(
                encode_utf8(s@),
            ),
{
    let now = now_unix();
    let now_u: u64 = if now < 0 {
        0
    } else {
        now as u64
    };
    match verify_token_at(token, secret, now_u) {
        Ok(s) => {
            proof {
                let ghost w: u64 = now_u;
                assert(verify_spec(encode_utf8(token@), encode_utf8(secret@), w) == Ok::<
                    _,
                    VerifyError,
                >(encode_utf8(s@)));
            }
            Some(s)
        },
        Err(_) => None,
    }
}

} // verus!
