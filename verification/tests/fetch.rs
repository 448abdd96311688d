use dioxus_extism::config::{checksum_outcome, verify_fetched};
use dioxus_extism::errors::PluginRuntimeError;
use dioxus_extism::json::api_body_json;
use sha2::Digest;

#[test]
fn fetched_bytes_with_matching_checksum_are_accepted() {
    let bytes = b"\0asm\x01\0\0\0".to_vec();
    let digest: [u8; 32] = sha2::Sha256::digest(&bytes).into();
    let r = verify_fetched("http://example.test/p.wasm", &digest, bytes.clone());
    assert_eq!(r.unwrap(), bytes);
}

#[test]
fn fetched_bytes_with_wrong_checksum_name_the_url() {
    let bytes = b"\0asm\x01\0\0\0".to_vec();
    let mut digest: [u8; 32] = sha2::Sha256::digest(&bytes).into();
    digest[0] ^= 0xff;
    let url = "http://127.0.0.1:9/plugin.wasm";
    match verify_fetched(url, &digest, bytes) {
        Err(PluginRuntimeError::ChecksumMismatch { url: u }) => assert_eq!(u, url),
        other => panic!("expected ChecksumMismatch, got {other:?}"),
    }
}

#[test]
fn sha256_of_known_input() {
    // SHA-256("abc") from FIPS 180-2, appendix B.1.
    let expected: [u8; 32] = [
        0xba, 0x78, 0x16, 0xbf, 0x8f, 0x01, 0xcf, 0xea, 0x41, 0x41, 0x40, 0xde, 0x5d, 0xae, 0x22, 0x23, 0xb0, 0x03,
        0x61, 0xa3, 0x96, 0x17, 0x7a, 0x9c, 0xb4, 0x10, 0xff, 0x61, 0xf2, 0x00, 0x15, 0xad,
    ];
    assert!(verify_fetched("u", &expected, b"abc".to_vec()).is_ok());
}

#[test]
fn checksum_outcome_compares_digests() {
    let a = [7u8; 32];
    let mut b = [7u8; 32];
    assert_eq!(checksum_outcome("u", &a, &b, vec![1, 2]).unwrap(), vec![1, 2]);
    b[31] = 8;
    assert!(matches!(checksum_outcome("u", &a, &b, vec![1]), Err(PluginRuntimeError::ChecksumMismatch { .. })));
}

#[test]
fn api_body_parses_json_or_gives_none() {
    assert_eq!(api_body_json(b""), None);
    let mut m = serde_json::Map::new();
    m.insert("a".to_string(), serde_json::Value::from(1));
    assert_eq!(api_body_json(b"{\"a\":1}"), Some(serde_json::Value::Object(m)));
    assert_eq!(api_body_json(b"{not json"), None);
}
