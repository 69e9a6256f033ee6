use edge_proxy::auth::{authenticate_at, extract_client_ip, generate_client_id, raw_url_param};
use edge_proxy::errors::AppError;
use edge_proxy::signature::SignatureUtil;

#[test]
fn client_id_is_stable_and_total() {
    let a = generate_client_id(Some("1.2.3.4"), Some("agent"));
    let b = generate_client_id(Some("1.2.3.4"), Some("agent"));
    assert_eq!(a, b);
    assert_ne!(a, generate_client_id(Some("1.2.3.5"), Some("agent")));
    assert_ne!(a, generate_client_id(Some("1.2.3.4"), Some("agent2")));
    // missing values read as the literal "unknown"
    assert_eq!(
        generate_client_id(None, None),
        generate_client_id(Some("unknown"), Some("unknown"))
    );
}

#[test]
fn client_ip_prefers_forwarded_for_first_entry() {
    let xff = "203.0.113.9 , 10.0.0.1".to_string();
    let real = "198.51.100.2".to_string();
    let peer = "192.0.2.1".to_string();
    assert_eq!(
        extract_client_ip(Some(&xff), Some(&real), Some(&peer)),
        Some("203.0.113.9".to_string())
    );
    assert_eq!(
        extract_client_ip(None, Some(&real), Some(&peer)),
        Some("198.51.100.2".to_string())
    );
    assert_eq!(extract_client_ip(None, None, Some(&peer)), Some("192.0.2.1".to_string()));
    assert_eq!(extract_client_ip(None, None, None), None);
}

#[test]
fn url_param_is_taken_raw_from_the_query() {
    assert_eq!(
        raw_url_param("schema=sports&url=aHR0cHM&sig=ff"),
        Some("aHR0cHM".to_string())
    );
    // the first url= wins and the value is not decoded
    assert_eq!(raw_url_param("url=a%3Db&url=second"), Some("a%3Db".to_string()));
    assert_eq!(raw_url_param("schema=sports"), None);
    // a parameter merely ending in url= does not match
    assert_eq!(raw_url_param("xurl=nope"), None);
}

#[test]
fn requests_without_signature_pass_through() {
    let signer = SignatureUtil::new("test_secret".to_string());
    assert!(authenticate_at(&signer, None, None, None, "url=abc", "derived", 100).is_ok());
    let sig = Some("ff".to_string());
    // sig without exp still passes (the pair is required to trigger checking)
    assert!(authenticate_at(&signer, sig.as_ref(), None, None, "url=abc", "derived", 100).is_ok());
}

#[test]
fn signed_requests_verify_against_the_raw_token() {
    let signer = SignatureUtil::new("test_secret".to_string());
    let token = "aHR0cHM6Ly91L3MudHM";
    let expiry = 2_000_000_000i64;
    let sig = signer.generate_signature("client-a", expiry, token);
    let query = format!("url={}&schema=sports&sig={}&exp={}", token, sig, expiry);
    let exp_text = expiry.to_string();

    // the query's client identity signs
    assert!(authenticate_at(
        &signer,
        Some(&sig),
        Some(&exp_text),
        Some(&"client-a".to_string()),
        &query,
        "derived",
        1_900_000_000,
    )
    .is_ok());

    // without a query client the derived identity must match
    assert!(matches!(
        authenticate_at(
            &signer,
            Some(&sig),
            Some(&exp_text),
            None,
            &query,
            "derived",
            1_900_000_000,
        ),
        Err(AppError::Unauthorized)
    ));

    // expired
    assert!(matches!(
        authenticate_at(
            &signer,
            Some(&sig),
            Some(&exp_text),
            Some(&"client-a".to_string()),
            &query,
            "derived",
            2_000_000_001,
        ),
        Err(AppError::Unauthorized)
    ));

    // unparsable expiry
    assert!(matches!(
        authenticate_at(
            &signer,
            Some(&sig),
            Some(&"soon".to_string()),
            Some(&"client-a".to_string()),
            &query,
            "derived",
            1_900_000_000,
        ),
        Err(AppError::Unauthorized)
    ));

    // missing url token in the query
    assert!(matches!(
        authenticate_at(
            &signer,
            Some(&sig),
            Some(&exp_text),
            Some(&"client-a".to_string()),
            "schema=sports",
            "derived",
            1_900_000_000,
        ),
        Err(AppError::Unauthorized)
    ));
}
