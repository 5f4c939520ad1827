use deckauth::service::{issue_token, token_expiry, verify_token_at, DEFAULT_TTL_SECONDS};
use deckauth::{generate_token, verify_token, VerifyError};

const SECRET: &str = "a-shared-secret-of-at-least-256-bits-for-hmac";

#[test]
fn round_trip_returns_subject() {
    let token = issue_token("u1", SECRET, 2_000_000_000);
    let got = verify_token_at(&token, SECRET, 1_000_000_000);
    assert_eq!(got, Ok(String::from("u1")));
}

#[test]
fn round_trip_keeps_unusual_subjects() {
    for sub in [
        "",
        "user with spaces",
        "quote\"back\\slash",
        "tab\tnewline\ncontrol\u{1}",
        "unicode-émoji-🂡",
    ] {
        let token = issue_token(sub, SECRET, 2_000_000_000);
        let got = verify_token_at(&token, SECRET, 1_000_000_000);
        assert_eq!(got, Ok(String::from(sub)), "subject {:?}", sub);
    }
}

#[test]
fn zero_ttl_token_is_expired() {
    let now: u64 = 1_700_000_000;
    let exp = token_expiry(now as i64, 0);
    assert_eq!(exp, now);
    let token = issue_token("u1", SECRET, exp);
    assert_eq!(verify_token_at(&token, SECRET, now), Err(VerifyError::Expired));
}

#[test]
fn past_expiry_token_is_expired() {
    let token = issue_token("u1", SECRET, 1_000);
    assert_eq!(verify_token_at(&token, SECRET, 1_000_000), Err(VerifyError::Expired));
    // The boundary: a token is valid only strictly before its expiry.
    assert_eq!(verify_token_at(&token, SECRET, 1_000), Err(VerifyError::Expired));
    assert_eq!(verify_token_at(&token, SECRET, 999), Ok(String::from("u1")));
}

#[test]
fn tampered_signature_is_bad_signature() {
    let token = issue_token("u1", SECRET, 2_000_000_000);
    let dot = token.rfind('.').unwrap();
    let (head, sig) = token.split_at(dot + 1);
    // Replace every signature character in turn by a different alphabet
    // character: each change must flip the verdict to a signature failure.
    for k in 0..sig.len() {
        let mut bytes: Vec<u8> = sig.bytes().collect();
        bytes[k] = if bytes[k] == b'A' { b'B' } else { b'A' };
        let tampered = format!("{}{}", head, String::from_utf8(bytes).unwrap());
        assert_eq!(
            verify_token_at(&tampered, SECRET, 1_000_000_000),
            Err(VerifyError::BadSignature),
            "position {}",
            k
        );
    }
}

#[test]
fn truncated_signature_is_bad_signature() {
    let token = issue_token("u1", SECRET, 2_000_000_000);
    let dot = token.rfind('.').unwrap();
    let truncated = &token[..dot + 1];
    assert_eq!(
        verify_token_at(truncated, SECRET, 1_000_000_000),
        Err(VerifyError::BadSignature)
    );
}

#[test]
fn wrong_secret_fails() {
    let token = issue_token("u1", SECRET, 2_000_000_000);
    let got = verify_token_at(&token, "some-entirely-different-secret-value!", 1_000_000_000);
    assert_eq!(got, Err(VerifyError::BadSignature));
}

#[test]
fn malformed_tokens_are_rejected() {
    for bad in [
        "",
        "garbage",
        "a.b",
        "a.b.c.d",
        "..",
        "eyJhbGciOiJIUzI1NiIsInR5cCI6IkpXVCJ9.not-base64!.sig",
    ] {
        assert_eq!(
            verify_token_at(bad, SECRET, 1_000_000_000),
            Err(VerifyError::Malformed),
            "token {:?}",
            bad
        );
    }
}

#[test]
fn valid_signature_with_non_utf8_subject_is_malformed() {
    // Subject bytes that are not a UTF-8 string: the token signs and
    // verifies at the byte level, but cannot yield a subject string.
    let sub = vec![0xffu8, 0xfe];
    let key = SECRET.as_bytes().to_vec();
    let token_bytes = deckauth::token::issue_at(&sub, &key, 2_000_000_000);
    assert_eq!(
        deckauth::token::verify_at(&token_bytes, &key, 1_000_000_000),
        Ok(sub)
    );
    let token = String::from_utf8(token_bytes).unwrap();
    assert_eq!(
        verify_token_at(&token, SECRET, 1_000_000_000),
        Err(VerifyError::Malformed)
    );
}

#[test]
fn generate_and_verify_with_real_clock() {
    let token = generate_token("u42", SECRET);
    assert_eq!(verify_token(&token, SECRET), Some(String::from("u42")));
    assert_eq!(verify_token(&token, "another-secret"), None);
}

#[test]
fn generated_token_expires_one_hour_from_now() {
    let before = chrono::Utc::now().timestamp() as u64;
    let token = generate_token("u1", SECRET);
    let after = chrono::Utc::now().timestamp() as u64;
    let key = jsonwebtoken::DecodingKey::from_secret(SECRET.as_bytes());
    let data = jsonwebtoken::decode::<serde_json::Value>(
        &token,
        &key,
        &jsonwebtoken::Validation::default(),
    )
    .unwrap();
    let exp = data.claims.get("exp").and_then(|v| v.as_u64()).unwrap();
    assert!(before + 3600 <= exp && exp <= after + 3600);
}

#[test]
fn token_expiry_clamps() {
    assert_eq!(token_expiry(-5, 100), 100);
    assert_eq!(token_expiry(50, 100), 150);
    assert_eq!(token_expiry(i64::MAX, u64::MAX), u64::MAX);
    assert_eq!(DEFAULT_TTL_SECONDS, 3600);
}

#[test]
fn issued_token_decodes_with_stock_decoder() {
    let exp: u64 = 4_000_000_000; // far enough for the decoder's own clock
    let token = issue_token("u1", SECRET, exp);
    let key = jsonwebtoken::DecodingKey::from_secret(SECRET.as_bytes());
    let data = jsonwebtoken::decode::<serde_json::Value>(
        &token,
        &key,
        &jsonwebtoken::Validation::default(),
    )
    .expect("stock decoder must accept the issued token");
    assert_eq!(data.claims.get("sub").and_then(|v| v.as_str()), Some("u1"));
    assert_eq!(data.claims.get("exp").and_then(|v| v.as_u64()), Some(exp));
}

#[test]
fn stock_header_order_is_accepted() {
    // A token whose header object lists `typ` before `alg`, as stock
    // encoders emit it, assembled segment by segment.
    let header = b"{\"typ\":\"JWT\",\"alg\":\"HS256\"}".to_vec();
    let payload = b"{\"sub\":\"u7\",\"exp\":4000000000}".to_vec();
    let h64 = deckauth::b64::b64_encode_bytes(&header);
    let p64 = deckauth::b64::b64_encode_bytes(&payload);
    let mut signing_input = h64.clone();
    signing_input.push(b'.');
    signing_input.extend_from_slice(&p64);
    let ek = jsonwebtoken::EncodingKey::from_secret(SECRET.as_bytes());
    let sig = jsonwebtoken::crypto::sign(&signing_input, &ek, jsonwebtoken::Algorithm::HS256)
        .unwrap();
    let token = format!("{}.{}", String::from_utf8(signing_input).unwrap(), sig);
    assert_eq!(
        verify_token_at(&token, SECRET, 1_000_000_000),
        Ok(String::from("u7"))
    );
}
