use edge_proxy::proxy_cache::{filter_uncached, hash_url, m3u8_key, segment_key, InflightSet};

#[test]
fn hash_url_is_sha256_hex() {
    // SHA-256 of the empty string, a published test vector
    assert_eq!(
        hash_url(""),
        "e3b0c44298fc1c149afbf4c8996fb92427ae41e4649b934ca495991b7852b855"
    );
    // SHA-256 of "abc"
    assert_eq!(
        hash_url("abc"),
        "ba7816bf8f01cfea414140de5dae2223b00361a396177a9cb410ff61f20015ad"
    );
}

#[test]
fn keys_are_prefixed_and_deterministic() {
    let url = "https://u/s.ts";
    assert_eq!(m3u8_key(url), format!("pcache:m3u8:{}", hash_url(url)));
    assert_eq!(segment_key(url), format!("pcache:seg:{}", hash_url(url)));
    assert_eq!(m3u8_key(url), m3u8_key(url));
    assert_eq!(segment_key(url), segment_key(url));
    assert_ne!(m3u8_key(url), segment_key(url));
}

#[test]
fn different_urls_get_different_keys() {
    assert_ne!(segment_key("https://u/a.ts"), segment_key("https://u/b.ts"));
}

#[test]
fn filter_uncached_keeps_only_missing() {
    let urls = vec![
        "https://u/1.ts".to_string(),
        "https://u/2.ts".to_string(),
        "https://u/3.ts".to_string(),
    ];
    let cached = vec![true, false, true];
    let out = filter_uncached(&urls, &cached);
    assert_eq!(out, vec!["https://u/2.ts".to_string()]);

    let none_cached = vec![false, false, false];
    assert_eq!(filter_uncached(&urls, &none_cached), urls);

    let all_cached = vec![true, true, true];
    assert!(filter_uncached(&urls, &all_cached).is_empty());
}

#[test]
fn inflight_registration_is_single_flight() {
    let mut inflight = InflightSet::new();
    // the first registration wins the fetch
    assert!(inflight.register("https://u/s.ts"));
    // concurrent requests for the same URL do not fetch again
    assert!(!inflight.register("https://u/s.ts"));
    assert!(inflight.contains("https://u/s.ts"));
    // a different URL is independent
    assert!(inflight.register("https://u/t.ts"));
    // after completion the URL can be fetched anew
    inflight.remove("https://u/s.ts");
    assert!(!inflight.contains("https://u/s.ts"));
    assert!(inflight.register("https://u/s.ts"));
    assert!(inflight.contains("https://u/t.ts"));
}
