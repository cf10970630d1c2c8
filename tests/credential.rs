use acauth::credential::{starts_with_scheme, AcAuth};

fn token_of(value: &[u8]) -> Option<String> {
    AcAuth::decode(value).map(|c| c.token().to_string())
}

#[test]
fn scheme_is_acauth() {
    assert_eq!(AcAuth::scheme(), "AcAuth");
}

#[test]
fn prefix_is_case_sensitive() {
    assert!(starts_with_scheme(b"AcAuth abc"));
    assert!(starts_with_scheme(b"AcAuth "));
    assert!(!starts_with_scheme(b"acauth abc"));
    assert!(!starts_with_scheme(b"AcAuth"));
    assert!(!starts_with_scheme(b"AcAuthabc"));
    assert!(!starts_with_scheme(b"Bearer abc"));
    assert!(!starts_with_scheme(b""));
}

#[test]
fn decode_plain_token() {
    assert_eq!(token_of(b"AcAuth abc123"), Some("abc123".to_string()));
}

#[test]
fn decode_single_character_token() {
    assert_eq!(token_of(b"AcAuth x"), Some("x".to_string()));
}

#[test]
fn decode_skips_extra_spaces() {
    assert_eq!(token_of(b"AcAuth  abc123"), Some("abc123".to_string()));
    assert_eq!(token_of(b"AcAuth      abc123"), Some("abc123".to_string()));
}

#[test]
fn decode_keeps_inner_and_trailing_spaces() {
    assert_eq!(token_of(b"AcAuth a b  "), Some("a b  ".to_string()));
}

#[test]
fn decode_multibyte_text() {
    assert_eq!(
        token_of("AcAuth h\u{e9}llo \u{1f600}".as_bytes()),
        Some("h\u{e9}llo \u{1f600}".to_string())
    );
}

#[test]
fn decode_no_token_is_absent() {
    assert!(AcAuth::decode(b"AcAuth ").is_none());
    assert!(AcAuth::decode(b"AcAuth     ").is_none());
}

#[test]
fn decode_invalid_text_is_absent() {
    assert!(AcAuth::decode(b"AcAuth \xff\xfe").is_none());
    assert!(AcAuth::decode(b"AcAuth abc\xc3").is_none());
    assert!(AcAuth::decode(b"AcAuth   \xed\xa0\x80").is_none());
}

#[test]
fn decode_twice_gives_the_same_token() {
    let value = b"AcAuth   same-token";
    let first = token_of(value);
    let second = token_of(value);
    assert_eq!(first, Some("same-token".to_string()));
    assert_eq!(first, second);
}

#[test]
fn encode_writes_scheme_and_token() {
    let c = AcAuth::decode(b"AcAuth abc123").unwrap();
    assert_eq!(c.encode(), Some(b"AcAuth abc123".to_vec()));
}

#[test]
fn encode_drops_extra_spaces() {
    let c = AcAuth::decode(b"AcAuth    abc").unwrap();
    assert_eq!(c.encode(), Some(b"AcAuth abc".to_vec()));
}

#[test]
fn encode_then_decode_round_trip() {
    let c = AcAuth::decode("AcAuth t\u{f6}ken\tx".as_bytes()).unwrap();
    let bytes = c.encode().unwrap();
    assert_eq!(bytes, "AcAuth t\u{f6}ken\tx".as_bytes().to_vec());
    assert_eq!(token_of(&bytes), Some("t\u{f6}ken\tx".to_string()));
}

#[test]
fn encode_refuses_control_characters() {
    let c = AcAuth::decode(b"AcAuth a\x01b").unwrap();
    assert_eq!(c.token(), "a\u{1}b");
    assert_eq!(c.encode(), None);
    let d = AcAuth::decode(b"AcAuth ab\x7f").unwrap();
    assert_eq!(d.encode(), None);
    let e = AcAuth::decode(b"AcAuth ab\n").unwrap();
    assert_eq!(e.encode(), None);
}
