//! Issuing and verifying signed bearer tokens.
//!
//! A token is three dot-separated segments: a base64url header, a base64url
//! claims object, and a base64url HMAC-SHA-256 signature of the first two
//! segments keyed by the shared secret. A token is valid exactly when its
//! signature matches the secret and its expiry is strictly in the future.
use crate::b64::{b64_decode, b64_encode, b64_decode_bytes, b64_encode_bytes, lemma_b64_roundtrip,
    lemma_encode_alphabet};
use crate::claims::{build_payload, json_payload, lemma_parse_payload_roundtrip, parse_payload,
    parse_payload_vec};
use crate::sign::{hmac_sha256, hs256_sig_matches, hs256_sign, sig_of};
use vstd::prelude::*;

verus! {

/// Why a token failed verification. The three kinds are indistinguishable
/// to an HTTP client, which only sees an unauthorized outcome, but they are
/// kept apart here for logging and for tests.
#[derive(Clone, Copy, Debug, PartialEq, Eq, Structural)]
pub enum VerifyError {
    /// The token could not be parsed into its segments and claims.
    Malformed,
    /// The signature does not match the secret.
    BadSignature,
    /// The expiry is not strictly in the future.
    Expired,
}

/// The bytes of the canonical header object this module emits.
pub open spec fn header_json() -> Seq<u8> {
    seq![
        123u8, 34u8, 97u8, 108u8, 103u8, 34u8, 58u8, 34u8, 72u8, 83u8, 50u8, 53u8, 54u8, 34u8,
        44u8, 34u8, 116u8, 121u8, 112u8, 34u8, 58u8, 34u8, 74u8, 87u8, 84u8, 34u8, 125u8,
    ]
}

/// The same header with its two members in the other order, as stock
/// encoders emit it; accepted on verification.
pub open spec fn header_json_alt() -> Seq<u8> {
    seq![
        123u8, 34u8, 116u8, 121u8, 112u8, 34u8, 58u8, 34u8, 74u8, 87u8, 84u8, 34u8, 44u8, 34u8,
        97u8, 108u8, 103u8, 34u8, 58u8, 34u8, 72u8, 83u8, 50u8, 53u8, 54u8, 34u8, 125u8,
    ]
}

pub open spec fn header_b64() -> Seq<u8> {
    b64_encode(header_json())
}

pub open spec fn header_b64_alt() -> Seq<u8> {
    b64_encode(header_json_alt())
}

/// The two segments a signature signs: header dot claims.
pub open spec fn signing_input(sub: Seq<u8>, exp: nat) -> Seq<u8> {
    header_b64() + seq![46u8] + b64_encode(json_payload(sub, exp))
}

/// The token issued for a subject, an expiry and a secret.
pub open spec fn make_token(sub: Seq<u8>, exp: nat, key: Seq<u8>) -> Seq<u8> {
    signing_input(sub, exp) + seq![46u8] + sig_of(signing_input(sub, exp), key)
}

pub open spec fn dot_free(s: Seq<u8>) -> bool {
    forall|i: int| 0 <= i < s.len() ==> s[i] != 46
}

/// Index of the first `.`, or -1.
pub open spec fn first_dot(s: Seq<u8>) -> int
    decreases s.len(),
{
    if s.len() == 0 {
        -1
    } else if s[0] == 46 {
        0
    } else {
        let r = first_dot(s.skip(1));
        if r < 0 {
            -1
        } else {
            1 + r
        }
    }
}

/// Splits a token into its three segments, when it has exactly two dots.
pub open spec fn split3(t: Seq<u8>) -> Option<(Seq<u8>, Seq<u8>, Seq<u8>)> {
    let i = first_dot(t);
    if i < 0 {
        None
    } else {
        let rest = t.skip(i + 1);
        let j = first_dot(rest);
        if j < 0 {
            None
        } else {
            let g = rest.skip(j + 1);
            if dot_free(g) {
                Some((t.take(i), rest.take(j), g))
            } else {
                None
            }
        }
    }
}

/// What verification returns for any token, secret and clock reading: the
/// subject bytes of a valid token, or the failure kind.
pub open spec fn verify_spec(token: Seq<u8>, key: Seq<u8>, now: u64) -> Result<
    Seq<u8>,
    VerifyError,
> {
    match split3(token) {
        None => Err(VerifyError::Malformed),
        Some((h, p, g)) => {
            if h != header_b64() && h != header_b64_alt() {
                Err(VerifyError::Malformed)
            } else {
                match b64_decode(p) {
                    None => Err(VerifyError::Malformed),
                    Some(j) => match parse_payload(j) {
                        None => Err(VerifyError::Malformed),
                        Some((sub, e)) => {
                            if e > u64::MAX as nat {
                                Err(VerifyError::Malformed)
                            } else if g != sig_of(h + seq![46u8] + p, key) {
                                Err(VerifyError::BadSignature)
                            } else if now as nat >= e {
                                Err(VerifyError::Expired)
                            } else {
                                Ok(sub)
                            }
                        },
                    },
                }
            }
        },
    }
}

pub proof fn lemma_first_dot_at(s: Seq<u8>, i: int)
    requires
        0 <= i < s.len(),
        s[i] == 46,
        forall|k: int| 0 <= k < i ==> s[k] != 46,
    ensures
        first_dot(s) == i,
    decreases i,
{
    if i > 0 {
        assert(s.skip(1)[i - 1] == s[i]);
        assert(forall|k: int| 0 <= k < i - 1 ==> s.skip(1)[k] == s[k + 1] && s[k + 1] != 46);
        lemma_first_dot_at(s.skip(1), i - 1);
    }
}

pub proof fn lemma_first_dot_none(s: Seq<u8>)
    requires
        dot_free(s),
    ensures
        first_dot(s) == -1,
    decreases s.len(),
{
    if s.len() > 0 {
        assert(forall|k: int| 0 <= k < s.skip(1).len() ==> s.skip(1)[k] == s[k + 1] && s[k + 1]
            != 46);
        lemma_first_dot_none(s.skip(1));
    }
}

/// Three dot-free segments joined by dots split back into themselves.
pub proof fn lemma_split3_token(h: Seq<u8>, p: Seq<u8>, g: Seq<u8>)
    requires
        dot_free(h),
        dot_free(p),
        dot_free(g),
    ensures
        split3(h + seq![46u8] + p + seq![46u8] + g) == Some((h, p, g)),
{
    let t = h + seq![46u8] + p + seq![46u8] + g;
    assert(t.len() == h.len() + 1 + p.len() + 1 + g.len());
    assert(t[h.len() as int] == 46);
    assert(forall|k: int| 0 <= k < h.len() ==> t[k] == h[k] && t[k] != 46);
    lemma_first_dot_at(t, h.len() as int);
    let rest = t.skip(h.len() as int + 1);
    assert(rest =~= p + seq![46u8] + g);
    assert(rest[p.len() as int] == 46);
    assert(forall|k: int| 0 <= k < p.len() ==> rest[k] == p[k] && rest[k] != 46);
    lemma_first_dot_at(rest, p.len() as int);
    assert(rest.skip(p.len() as int + 1) =~= g);
    assert(t.take(h.len() as int) =~= h);
    assert(rest.take(p.len() as int) =~= p);
}

/// A token's parts are dot-free, so the token splits into exactly them.
pub proof fn lemma_split3_of_make_token(sub: Seq<u8>, exp: nat, key: Seq<u8>)
    ensures
        split3(make_token(sub, exp, key)) == Some(
            (header_b64(), b64_encode(json_payload(sub, exp)), sig_of(signing_input(sub, exp), key)),
        ),
{
    let h = header_b64();
    let p = b64_encode(json_payload(sub, exp));
    let g = sig_of(signing_input(sub, exp), key);
    lemma_encode_alphabet(header_json());
    lemma_encode_alphabet(json_payload(sub, exp));
    lemma_encode_alphabet(hmac_sha256(signing_input(sub, exp), key));
    lemma_split3_token(h, p, g);
    assert(make_token(sub, exp, key) =~= h + seq![46u8] + p + seq![46u8] + g);
}

/// Round trip: a token made for a subject, an expiry and a secret verifies
/// under that secret, before the expiry, to exactly that subject.
pub proof fn lemma_token_roundtrip(sub: Seq<u8>, exp: u64, key: Seq<u8>, now: u64)
    requires
        now < exp,
    ensures
        verify_spec(make_token(sub, exp as nat, key), key, now) == Ok::<_, VerifyError>(sub),
{
    let t = make_token(sub, exp as nat, key);
    let h = header_b64();
    let p = b64_encode(json_payload(sub, exp as nat));
    lemma_split3_of_make_token(sub, exp as nat, key);
    lemma_b64_roundtrip(json_payload(sub, exp as nat));
    lemma_parse_payload_roundtrip(sub, exp as nat);
    assert(h + seq![46u8] + p =~= signing_input(sub, exp as nat));
}

/// A token made with an expiry not in the future verifies as expired, under
/// the right secret, whatever else it holds.
pub proof fn lemma_token_expired(sub: Seq<u8>, exp: u64, key: Seq<u8>, now: u64)
    requires
        now >= exp,
    ensures
        verify_spec(make_token(sub, exp as nat, key), key, now) == Err::<Seq<u8>, _>(
            VerifyError::Expired,
        ),
{
    let h = header_b64();
    let p = b64_encode(json_payload(sub, exp as nat));
    lemma_split3_of_make_token(sub, exp as nat, key);
    lemma_b64_roundtrip(json_payload(sub, exp as nat));
    lemma_parse_payload_roundtrip(sub, exp as nat);
    assert(h + seq![46u8] + p =~= signing_input(sub, exp as nat));
}

/// Tamper sensitivity: replacing the signature segment of a token with any
/// other dot-free segment makes verification fail with a signature error.
/// (A replacement holding a dot changes the segment structure instead and
/// is rejected as malformed.)
pub proof fn lemma_tampered_signature(
    sub: Seq<u8>,
    exp: u64,
    key: Seq<u8>,
    now: u64,
    sig2: Seq<u8>,
)
    requires
        sig2 != sig_of(signing_input(sub, exp as nat), key),
        dot_free(sig2),
    ensures
        verify_spec(signing_input(sub, exp as nat) + seq![46u8] + sig2, key, now) == Err::<
            Seq<u8>,
            _,
        >(VerifyError::BadSignature),
{
    let h = header_b64();
    let p = b64_encode(json_payload(sub, exp as nat));
    lemma_encode_alphabet(header_json());
    lemma_encode_alphabet(json_payload(sub, exp as nat));
    lemma_split3_token(h, p, sig2);
    assert(signing_input(sub, exp as nat) + seq![46u8] + sig2 =~= h + seq![46u8] + p + seq![46u8]
        + sig2);
    lemma_b64_roundtrip(json_payload(sub, exp as nat));
    lemma_parse_payload_roundtrip(sub, exp as nat);
    assert(h + seq![46u8] + p =~= signing_input(sub, exp as nat));
}

/// Secret sensitivity: a token made under one secret verifies under another
/// only if the two secrets' signatures of its signing input coincide; when
/// the signatures differ, verification fails with a signature error.
pub proof fn lemma_verify_foreign_key(sub: Seq<u8>, exp: u64, key: Seq<u8>, key2: Seq<u8>, now: u64)
    requires
        sig_of(signing_input(sub, exp as nat), key) != sig_of(signing_input(sub, exp as nat), key2),
    ensures
        verify_spec(make_token(sub, exp as nat, key), key2, now) == Err::<Seq<u8>, _>(
            VerifyError::BadSignature,
        ),
{
    let h = header_b64();
    let p = b64_encode(json_payload(sub, exp as nat));
    lemma_split3_of_make_token(sub, exp as nat, key);
    lemma_b64_roundtrip(json_payload(sub, exp as nat));
    lemma_parse_payload_roundtrip(sub, exp as nat);
    assert(h + seq![46u8] + p =~= signing_input(sub, exp as nat));
}

/// The canonical header object.
fn header_vec() -> (r: Vec<u8>)
    ensures
        r@ == header_json(),
{
    let v: Vec<u8> = vec![
        123u8, 34u8, 97u8, 108u8, 103u8, 34u8, 58u8, 34u8, 72u8, 83u8, 50u8, 53u8, 54u8, 34u8,
        44u8, 34u8, 116u8, 121u8, 112u8, 34u8, 58u8, 34u8, 74u8, 87u8, 84u8, 34u8, 125u8,
    ];
    proof {
        assert(v@ =~= header_json());
    }
    v
}

/// The accepted alternative header object.
fn header_vec_alt() -> (r: Vec<u8>)
    ensures
        r@ == header_json_alt(),
{
    let v: Vec<u8> = vec![
        123u8, 34u8, 116u8, 121u8, 112u8, 34u8, 58u8, 34u8, 74u8, 87u8, 84u8, 34u8, 44u8, 34u8,
        97u8, 108u8, 103u8, 34u8, 58u8, 34u8, 72u8, 83u8, 50u8, 53u8, 54u8, 34u8, 125u8,
    ];
    proof {
        assert(v@ =~= header_json_alt());
    }
    v
}

/// A copy of the bytes of `v` from `a` (inclusive) to `b` (exclusive).
fn subvec(v: &Vec<u8>, a: usize, b: usize) -> (r: Vec<u8>)
    requires
        a <= b <= v.len(),
    ensures
        r@ == v@.subrange(a as int, b as int),
{
    let mut out: Vec<u8> = Vec::new();
    let mut k: usize = a;
    while k < b
        invariant
            a <= k <= b <= v.len(),
            out@ == v@.subrange(a as int, k as int),
        decreases b - k,
    {
        out.push(v[k]);
        proof {
            assert(out@ =~= v@.subrange(a as int, k + 1));
        }
        k = k + 1;
    }
    proof {
        if a == b {
            assert(out@ =~= v@.subrange(a as int, b as int));
        }
    }
    out
}

fn vec_eq(a: &Vec<u8>, b: &Vec<u8>) -> (r: bool)
    ensures
        r == (a@ == b@),
{
    if a.len() != b.len() {
        return false;
    }
    let n = a.len();
    let mut k: usize = 0;
    while k < n
        invariant
            n == a.len() == b.len(),
            k <= n,
            forall|t: int| 0 <= t < k ==> a@[t] == b@[t],
        decreases n - k,
    {
        if a[k] != b[k] {
            return false;
        }
        k = k + 1;
    }
    proof {
        assert(a@ =~= b@);
    }
    true
}

/// Index of the first `.` at or after `from`, if any.
fn find_dot(v: &Vec<u8>, from: usize) -> (r: Option<usize>)
    requires
        from <= v.len(),
    ensures
        match r {
            Some(ix) => from <= ix < v.len() && v@[ix as int] == 46 && forall|t: int|
                from <= t < ix ==> v@[t] != 46,
            None => forall|t: int| from <= t < v.len() ==> v@[t] != 46,
        },
{
    let n = v.len();
    let mut k: usize = from;
    while k < n
        invariant
            from <= k <= n,
            n == v.len(),
            forall|t: int| from <= t < k ==> v@[t] != 46,
        decreases n - k,
    {
        if v[k] == 46 {
            return Some(k);
        }
        k = k + 1;
    }
    None
}

/// Issues the token for a subject, an expiry and a secret.
pub fn issue_at(sub: &Vec<u8>, key: &Vec<u8>, exp: u64) -> (r: Vec<u8>)
    ensures
        r@ == make_token(sub@, exp as nat, key@),
{
    let payload = build_payload(sub, exp);
    let p64 = b64_encode_bytes(&payload);
    let hj = header_vec();
    let h64 = b64_encode_bytes(&hj);
    let mut si = h64;
    si.push(46);
    let mut p64m = p64;
    si.append(&mut p64m);
    proof {
        assert(si@ =~= signing_input(sub@, exp as nat));
    }
    let mut sig = hs256_sign(&si, key);
    let mut token = si;
    token.push(46);
    token.append(&mut sig);
    proof {
        assert(token@ =~= make_token(sub@, exp as nat, key@));
    }
    token
}

/// Verifies a token against a secret at a clock reading; yields the subject
/// bytes of a valid token, or the failure kind, exactly as `verify_spec`
/// says.
pub fn verify_at(token: &Vec<u8>, key: &Vec<u8>, now: u64) -> (r: Result<Vec<u8>, VerifyError>)
    ensures
        match r {
            Ok(v) => verify_spec(token@, key@, now) == Ok::<Seq<u8>, VerifyError>(v@),
            Err(e) => verify_spec(token@, key@, now) == Err::<Seq<u8>, VerifyError>(e),
        },
{
    let n = token.len();
    let i1 = match find_dot(token, 0) {
        Some(ix) => ix,
        None => {
            proof {
                lemma_first_dot_none(token@);
            }
            return Err(VerifyError::Malformed);
        },
    };
    proof {
        lemma_first_dot_at(token@, i1 as int);
    }
    let ghost rest = token@.skip(i1 + 1);
    let i2 = match find_dot(token, i1 + 1) {
        Some(ix) => ix,
        None => {
            proof {
                assert(forall|t: int| 0 <= t < rest.len() ==> rest[t] == token@[i1 + 1 + t]
                    && token@[i1 + 1 + t] != 46);
                lemma_first_dot_none(rest);
            }
            return Err(VerifyError::Malformed);
        },
    };
    proof {
        assert(rest[i2 - i1 - 1] == token@[i2 as int]);
        assert(forall|t: int| 0 <= t < i2 - i1 - 1 ==> rest[t] == token@[i1 + 1 + t]
            && token@[i1 + 1 + t] != 46);
        lemma_first_dot_at(rest, i2 - i1 - 1);
    }
    let ghost gseg = rest.skip(i2 - i1);
    match find_dot(token, i2 + 1) {
        Some(ix3) => {
            proof {
                assert(gseg[ix3 - i2 - 1] == token@[ix3 as int]);
                assert(!dot_free(gseg));
            }
            return Err(VerifyError::Malformed);
        },
        None => {
            proof {
                assert(forall|t: int| 0 <= t < gseg.len() ==> gseg[t] == token@[i2 + 1 + t]
                    && token@[i2 + 1 + t] != 46);
                assert(dot_free(gseg));
            }
        },
    }
    proof {
        assert(split3(token@) == Some(
            (token@.take(i1 as int), rest.take(i2 - i1 - 1), gseg),
        ));
    }
    let h = subvec(token, 0, i1);
    let p = subvec(token, i1 + 1, i2);
    let g = subvec(token, i2 + 1, n);
    proof {
        assert(h@ =~= token@.take(i1 as int));
        assert(p@ =~= rest.take(i2 - i1 - 1));
        assert(g@ =~= gseg);
    }
    let hdr = b64_encode_bytes(&header_vec());
    let hdr_alt = b64_encode_bytes(&header_vec_alt());
    if !vec_eq(&h, &hdr) && !vec_eq(&h, &hdr_alt) {
        return Err(VerifyError::Malformed);
    }
    let j = match b64_decode_bytes(&p) {
        Some(j) => j,
        None => {
            return Err(VerifyError::Malformed);
        },
    };
    let (sub, e) = match parse_payload_vec(&j) {
        Some(pair) => pair,
        None => {
            return Err(VerifyError::Malformed);
        },
    };
    let si = subvec(token, 0, i2);
    proof {
        assert(si@ =~= h@ + seq![46u8] + p@);
    }
    if !hs256_sig_matches(&g, &si, key) {
        return Err(VerifyError::BadSignature);
    }
    if now >= e {
        return Err(VerifyError::Expired);
    }
    Ok(sub)
}

} // verus!

