use deckauth::b64::{b64_decode_bytes, b64_encode_bytes};
use deckauth::claims::{build_payload, parse_payload_vec};
use deckauth::nums::format_u64;

fn enc(bytes: &[u8]) -> String {
    String::from_utf8(b64_encode_bytes(&bytes.to_vec())).unwrap()
}

#[test]
fn base64url_known_vectors() {
    assert_eq!(enc(b""), "");
    assert_eq!(enc(b"f"), "Zg");
    assert_eq!(enc(b"fo"), "Zm8");
    assert_eq!(enc(b"foo"), "Zm9v");
    assert_eq!(enc(b"foob"), "Zm9vYg");
    assert_eq!(enc(b"fooba"), "Zm9vYmE");
    assert_eq!(enc(b"foobar"), "Zm9vYmFy");
    // The URL-safe alphabet: `-` and `_`, never `+` or `/`.
    assert_eq!(enc(&[0xfb, 0xff]), "-_8");
}

#[test]
fn base64url_round_trip() {
    for input in [
        b"".to_vec(),
        b"a".to_vec(),
        b"ab".to_vec(),
        b"abc".to_vec(),
        (0u8..=255).collect::<Vec<u8>>(),
    ] {
        let encoded = b64_encode_bytes(&input);
        assert_eq!(b64_decode_bytes(&encoded), Some(input));
    }
}

#[test]
fn base64url_decoder_is_strict() {
    for bad in ["Zg==", "Zg=", "Z", "Zh", "Zm9", "Zm+v", "Zm/v", "Zm 9"] {
        let bytes = bad.as_bytes().to_vec();
        assert_eq!(b64_decode_bytes(&bytes), None, "input {:?}", bad);
    }
}

#[test]
fn decimal_rendering() {
    assert_eq!(format_u64(0), b"0".to_vec());
    assert_eq!(format_u64(7), b"7".to_vec());
    assert_eq!(format_u64(1700000000), b"1700000000".to_vec());
    assert_eq!(format_u64(u64::MAX), u64::MAX.to_string().into_bytes());
}

#[test]
fn payload_round_trip() {
    for sub in [
        b"".to_vec(),
        b"u1".to_vec(),
        b"with \"quotes\" and \\slashes\\".to_vec(),
        vec![0u8, 1, 31, 32, 34, 92, 200, 255],
    ] {
        let j = build_payload(&sub, 1234567890);
        let parsed = parse_payload_vec(&j).expect("canonical payload must parse");
        assert_eq!(parsed.0, sub);
        assert_eq!(parsed.1, 1234567890);
    }
}

#[test]
fn payload_is_canonical_json() {
    let j = build_payload(&b"u1".to_vec(), 42);
    assert_eq!(String::from_utf8(j).unwrap(), "{\"sub\":\"u1\",\"exp\":42}");
    let esc = build_payload(&vec![34, 92, 10], 0);
    assert_eq!(
        String::from_utf8(esc).unwrap(),
        "{\"sub\":\"\\\"\\\\\\u000a\",\"exp\":0}"
    );
}

#[test]
fn claims_serialize_to_canonical_payload() {
    let claims = deckauth::Claims {
        sub: String::from("u1"),
        exp: 42,
    };
    assert_eq!(
        String::from_utf8(claims.payload_bytes()).unwrap(),
        "{\"sub\":\"u1\",\"exp\":42}"
    );
}

#[test]
fn payload_parser_is_strict() {
    for bad in [
        "",
        "{}",
        "{\"sub\":\"u1\"}",
        "{\"exp\":1,\"sub\":\"u1\"}",
        "{\"sub\":\"u1\",\"exp\":}",
        "{\"sub\":\"u1\",\"exp\":01}",
        "{\"sub\":\"u1\",\"exp\":1} ",
        "{\"sub\":\"u1\",\"exp\":1",
        "{\"sub\":\"u\u{1}1\",\"exp\":1}",
    ] {
        let bytes = bad.as_bytes().to_vec();
        assert_eq!(parse_payload_vec(&bytes), None, "input {:?}", bad);
    }
    // An expiry too large for the timestamp type is rejected.
    let big = b"{\"sub\":\"u1\",\"exp\":18446744073709551616}".to_vec();
    assert_eq!(parse_payload_vec(&big), None);
    let max = b"{\"sub\":\"u1\",\"exp\":18446744073709551615}".to_vec();
    assert_eq!(parse_payload_vec(&max), Some((b"u1".to_vec(), u64::MAX)));
}
