use edge_proxy::signature::SignatureUtil;

#[test]
fn test_signature_generation() {
    let util = SignatureUtil::new("test_secret".to_string());
    let sig1 = util.generate_signature("client123", 1234567890, "https://example.com");
    let sig2 = util.generate_signature("client123", 1234567890, "https://example.com");

    assert_eq!(sig1, sig2);
}

#[test]
fn test_signature_verification() {
    let util = SignatureUtil::new("test_secret".to_string());
    let future_expiry = SignatureUtil::generate_expiry(12);
    let url = "https://example.com";
    let client_id = "client123";

    let signature = util.generate_signature(client_id, future_expiry, url);

    // valid signature should verify
    assert!(util.verify_signature(client_id, future_expiry, url, &signature));

    // invalid signature should fail
    assert!(!util.verify_signature(client_id, future_expiry, url, "invalid"));

    // different client should fail
    assert!(!util.verify_signature("different_client", future_expiry, url, &signature));
}

#[test]
fn test_expired_signature() {
    let util = SignatureUtil::new("test_secret".to_string());
    let past_expiry = 1234567890; // a while ago
    let url = "https://example.com";
    let client_id = "client123";

    let signature = util.generate_signature(client_id, past_expiry, url);

    // expired signature should fail even if signature is correct
    assert!(!util.verify_signature(client_id, past_expiry, url, &signature));
}

#[test]
fn signature_is_64_lowercase_hex() {
    let util = SignatureUtil::new("test_secret".to_string());
    let sig = util.generate_signature("client123", 1234567890, "https://example.com");
    assert_eq!(sig.len(), 64);
    assert!(sig.chars().all(|c| c.is_ascii_hexdigit() && !c.is_ascii_uppercase()));
}

#[test]
fn verify_signature_at_depends_on_time() {
    let util = SignatureUtil::new("test_secret".to_string());
    let expiry = 1_000_000;
    let sig = util.generate_signature("c", expiry, "token");
    assert!(util.verify_signature_at("c", expiry, "token", &sig, 999_999));
    assert!(util.verify_signature_at("c", expiry, "token", &sig, 1_000_000));
    assert!(!util.verify_signature_at("c", expiry, "token", &sig, 1_000_001));
}

#[test]
fn flipped_signature_byte_is_rejected() {
    let util = SignatureUtil::new("test_secret".to_string());
    let expiry = 1_000_000;
    let sig = util.generate_signature("c", expiry, "token");
    let mut bytes = sig.clone().into_bytes();
    // flip one bit of the first hex digit, staying within ASCII
    bytes[0] ^= 0x01;
    let tampered = String::from_utf8(bytes).unwrap();
    assert!(tampered == sig || !util.verify_signature_at("c", expiry, "token", &tampered, 999_999));
    assert_ne!(tampered, sig);
}

#[test]
fn signature_depends_on_every_input() {
    let util = SignatureUtil::new("test_secret".to_string());
    let other_secret = SignatureUtil::new("test_secret2".to_string());
    let base = util.generate_signature("client123", 1234567890, "https://example.com");
    assert_ne!(base, util.generate_signature("client124", 1234567890, "https://example.com"));
    assert_ne!(base, util.generate_signature("client123", 1234567891, "https://example.com"));
    assert_ne!(base, util.generate_signature("client123", 1234567890, "https://example.con"));
    assert_ne!(base, other_secret.generate_signature("client123", 1234567890, "https://example.com"));
}
