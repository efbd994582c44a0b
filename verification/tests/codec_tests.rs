use base64::Engine;
use now_playing::codec::{decode_token, encode_token, parse_token, serialize_token};
use now_playing::{CoreError, TokenRecord};

fn sample_record() -> TokenRecord {
    TokenRecord {
        access_token: b"BQDe-access-token-bytes".to_vec(),
        refresh_token: Some(b"AQCr-refresh-token".to_vec()),
        expires_in_seconds: 3600,
        scopes: vec![
            b"user-read-currently-playing".to_vec(),
            b"playlist-modify-private".to_vec(),
            b"user-top-read".to_vec(),
        ],
    }
}

#[test]
fn round_trip_full_record() {
    let record = sample_record();
    let encoded = encode_token(&record).expect("a small record encodes");
    let decoded = decode_token(&encoded).expect("own encoding decodes");
    assert_eq!(decoded, record);
}

#[test]
fn round_trip_minimal_record() {
    let record = TokenRecord {
        access_token: Vec::new(),
        refresh_token: None,
        expires_in_seconds: 0,
        scopes: Vec::new(),
    };
    let encoded = encode_token(&record).expect("a small record encodes");
    let decoded = decode_token(&encoded).expect("own encoding decodes");
    assert_eq!(decoded, record);
}

#[test]
fn encoded_form_is_url_safe() {
    let encoded = encode_token(&sample_record()).expect("a small record encodes");
    assert!(encoded
        .chars()
        .all(|c| c.is_ascii_alphanumeric() || c == '-' || c == '_' || c == '='));
}

#[test]
fn malformed_token_rejected() {
    let err = decode_token("not-valid-base64!!!").unwrap_err();
    assert_eq!(err, CoreError::TokenDecodeFailed);
    assert_eq!(err.http_status(), 400);
    assert!(err.is_client_error());
}

#[test]
fn valid_base64_of_garbage_rejected() {
    let text = base64::engine::general_purpose::URL_SAFE.encode(b"junk bytes");
    let err = decode_token(&text).unwrap_err();
    assert_eq!(err, CoreError::TokenDecodeFailed);
}

#[test]
fn empty_string_rejected() {
    let err = decode_token("").unwrap_err();
    assert_eq!(err, CoreError::TokenDecodeFailed);
}

#[test]
fn serialize_parse_inverse() {
    let record = sample_record();
    let bytes = serialize_token(&record);
    let back = parse_token(&bytes).expect("canonical bytes parse");
    assert_eq!(back, record);
}

#[test]
fn trailing_bytes_rejected() {
    let record = sample_record();
    let mut bytes = serialize_token(&record);
    bytes.push(0);
    assert!(parse_token(&bytes).is_none());
}

#[test]
fn truncated_bytes_rejected() {
    let record = sample_record();
    let mut bytes = serialize_token(&record);
    bytes.pop();
    assert!(parse_token(&bytes).is_none());
}

#[test]
fn bad_option_tag_rejected() {
    // access token of length 0, then an option tag that is neither 0 nor 1
    let mut bytes = vec![0u8; 8];
    bytes.push(2);
    assert!(parse_token(&bytes).is_none());
}
