use edge_proxy::playlist::{collect_segment_urls, process_m3u8_at, process_m3u8_by_schema};
use edge_proxy::proxy::ProxyController;
use edge_proxy::signature::SignatureUtil;

/// Pull a query parameter's raw value out of a rewritten line.
fn param<'a>(line: &'a str, name: &str) -> &'a str {
    let query = line.split('?').nth(1).unwrap();
    for part in query.split('&') {
        if let Some(value) = part.strip_prefix(name) {
            return value;
        }
    }
    panic!("parameter {} not found in {}", name, line);
}

#[test]
fn rewrite_signs_relative_and_absolute_lines() {
    let signer = SignatureUtil::new("test_secret".to_string());
    let text = "#EXTM3U\n## junk line discarded\n#EXTINF:4,\nseg1.ts\nhttps://other.example/seg2.ts";
    let now = 1_700_000_000;
    let out =
        process_m3u8_at(text, "https://host.example/path/playlist.m3u8", "abc", &signer, now)
            .unwrap();
    let lines: Vec<&str> = out.split('\n').collect();
    assert_eq!(lines.len(), 4);
    assert_eq!(lines[0], "#EXTM3U");
    assert_eq!(lines[1], "#EXTINF:4,");
    assert!(lines[2].starts_with("/api/v1/proxy?url="));
    assert!(lines[3].starts_with("/api/v1/proxy?url="));

    // the url token of the relative line decodes back to the resolved URL
    let token = param(lines[2], "url=");
    let decoded = ProxyController::decode_url(token).unwrap();
    assert_eq!(decoded, "https://host.example/path/seg1.ts");

    // the absolute line keeps its own URL
    let token2 = param(lines[3], "url=");
    assert_eq!(
        ProxyController::decode_url(token2).unwrap(),
        "https://other.example/seg2.ts"
    );

    // schema and client ride along
    assert_eq!(param(lines[2], "schema="), "sports");
    assert_eq!(param(lines[2], "client="), "abc");

    // the signature verifies for the same secret, client and token
    let expiry: i64 = param(lines[2], "exp=").parse().unwrap();
    assert_eq!(expiry, now + 12 * 3600);
    let sig = param(lines[2], "sig=");
    assert!(signer.verify_signature_at("abc", expiry, token, sig, now));
    // and not for another client
    assert!(!signer.verify_signature_at("abd", expiry, token, sig, now));
}

#[test]
fn rewrite_percent_encodes_the_client() {
    let signer = SignatureUtil::new("s".to_string());
    let out = process_m3u8_at("seg.ts", "https://h/p/x.m3u8", "a b/c", &signer, 0).unwrap();
    assert_eq!(param(&out, "client="), "a%20b%2Fc");
}

#[test]
fn rewrite_drops_double_hash_comments_only() {
    let signer = SignatureUtil::new("s".to_string());
    let text = "#one\n  ## padded junk\n\n#two";
    let out = process_m3u8_at(text, "https://h/p/x.m3u8", "c", &signer, 0).unwrap();
    assert_eq!(out, "#one\n\n#two");
}

#[test]
fn rewrite_fails_only_on_unparsable_upstream_url() {
    let signer = SignatureUtil::new("s".to_string());
    assert!(process_m3u8_at("seg.ts", "not a url", "c", &signer, 0).is_err());
    assert!(process_m3u8_by_schema("seg.ts", "https://h/p/x.m3u8", "c", &signer, "sports").is_ok());
}

#[test]
fn segment_urls_resolve_and_skip_playlists() {
    let text = "#EXTM3U\n#EXTINF:4,\nseg1.ts\nlow/variant.m3u8\nhttps://other.example/seg2.ts\n## junk";
    let urls = collect_segment_urls(text, "https://host.example/path/playlist.m3u8");
    assert_eq!(
        urls,
        vec![
            "https://host.example/path/seg1.ts".to_string(),
            "https://other.example/seg2.ts".to_string(),
        ]
    );
    assert!(collect_segment_urls(text, "not a url").is_empty());
}
