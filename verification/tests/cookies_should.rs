use edge_proxy::cookies::{cookie_key, extract_domain, merge_cookies, split_once_eq};

#[test]
fn cookie_key_is_namespaced() {
    assert_eq!(cookie_key("example.com"), "proxy_cookies:example.com");
}

#[test]
fn extract_domain_returns_the_host() {
    assert_eq!(
        extract_domain("https://strm.poocloud.in/a/b.ts"),
        Some("strm.poocloud.in".to_string())
    );
    assert_eq!(extract_domain("http://example.com:8080/x"), Some("example.com".to_string()));
    assert!(extract_domain("not a url").is_none());
}

#[test]
fn split_once_eq_takes_the_first_equals() {
    assert_eq!(split_once_eq("a=b=c"), Some(("a".to_string(), "b=c".to_string())));
    assert!(split_once_eq("no-equals").is_none());
}

#[test]
fn merge_into_empty_jar() {
    let incoming = vec!["session=abc; Path=/; HttpOnly".to_string()];
    assert_eq!(merge_cookies(None, &incoming), "session=abc");
}

#[test]
fn merge_keeps_existing_and_overrides_by_name() {
    let existing = "a=1; b=2".to_string();
    let incoming = vec![
        "b=20; Path=/".to_string(),
        "c=3; Secure".to_string(),
    ];
    assert_eq!(merge_cookies(Some(&existing), &incoming), "a=1; b=20; c=3");
}

#[test]
fn merge_trims_incoming_pairs_and_skips_junk() {
    let incoming = vec![
        " name = v ; Path=/".to_string(),
        "no-equals-at-all".to_string(),
    ];
    // the name=value part is trimmed as a whole; the malformed value is dropped
    assert_eq!(merge_cookies(None, &incoming), "name = v");
}

#[test]
fn merge_last_write_wins_within_one_batch() {
    let incoming = vec!["k=1".to_string(), "k=2".to_string()];
    assert_eq!(merge_cookies(None, &incoming), "k=2");
}
