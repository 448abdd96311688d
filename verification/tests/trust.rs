use dioxus_extism::trust::{compute_trust_tag, TrustKey};
use ring::signature::{Ed25519KeyPair, KeyPair};

fn key(id: &str, bytes: Vec<u8>) -> TrustKey {
    TrustKey { key_id: id.to_string(), public_key_bytes: bytes }
}

#[test]
fn no_signature_is_unverified() {
    let t = compute_trust_tag(b"wasm", None, None, &[key("k", vec![0; 32])]);
    assert!(!t.verified);
    assert!(t.signer_key_id.is_none());
}

#[test]
fn bad_signature_is_unverified() {
    let sig = vec![0u8; 64];
    let t = compute_trust_tag(b"wasm", Some(&sig), None, &[key("k", vec![1; 32]), key("short", vec![1; 3])]);
    assert!(!t.verified);
    assert!(t.signer_key_id.is_none());
    let t = compute_trust_tag(b"wasm", Some(&sig[..10]), Some("k"), &[key("k", vec![1; 32])]);
    assert!(!t.verified);
}

#[test]
fn valid_signature_names_the_first_matching_key() {
    let rng = ring::rand::SystemRandom::new();
    let pkcs8 = Ed25519KeyPair::generate_pkcs8(&rng).unwrap();
    let kp = Ed25519KeyPair::from_pkcs8(pkcs8.as_ref()).unwrap();
    let sig = kp.sign(b"wasm bytes");
    let pk = kp.public_key().as_ref().to_vec();
    let keys = [key("other", vec![7; 32]), key("main", pk.clone()), key("dup", pk)];
    let t = compute_trust_tag(b"wasm bytes", Some(sig.as_ref()), None, &keys);
    assert!(t.verified);
    assert_eq!(t.signer_key_id.as_deref(), Some("main"));
    let t = compute_trust_tag(b"wasm bytes", Some(sig.as_ref()), Some("dup"), &keys);
    assert_eq!(t.signer_key_id.as_deref(), Some("dup"));
    let t = compute_trust_tag(b"wasm bytes", Some(sig.as_ref()), Some("other"), &keys);
    assert!(!t.verified);
    let t = compute_trust_tag(b"other bytes", Some(sig.as_ref()), None, &keys);
    assert!(!t.verified);
}
