use edge_proxy::byterange::{apply_range, content_range_value, parse_range};
use edge_proxy::conneg::{
    decompress_body, gzip_compress, gzip_decompress, zstd_compress, zstd_decompress,
    ContentEncoding,
};
use edge_proxy::proxy::{ProxyController, UpstreamDisposition};

use base64::Engine;

#[test]
fn decode_url_handles_percent_encoded_absolute_urls() {
    assert_eq!(
        ProxyController::decode_url("https://u/a%20b.ts").unwrap(),
        "https://u/a b.ts"
    );
}

#[test]
fn decode_url_handles_unpadded_base64_tokens() {
    let url = "https://u/s.ts";
    let token = base64::engine::general_purpose::URL_SAFE
        .encode(url.as_bytes())
        .trim_end_matches('=')
        .to_string();
    assert_eq!(ProxyController::decode_url(&token).unwrap(), url);
}

#[test]
fn decode_url_rejects_garbage() {
    assert!(ProxyController::decode_url("!!!not-base64!!!").is_err());
}

#[test]
fn encoding_choice_respects_identity_and_prefers_zstd() {
    assert_eq!(ContentEncoding::from_accept_encoding(None), ContentEncoding::Identity);
    assert_eq!(
        ContentEncoding::from_accept_encoding(Some("identity")),
        ContentEncoding::Identity
    );
    assert_eq!(
        ContentEncoding::from_accept_encoding(Some("identity,gzip")),
        ContentEncoding::Identity
    );
    assert_eq!(
        ContentEncoding::from_accept_encoding(Some("gzip, deflate, br, zstd")),
        ContentEncoding::Zstd
    );
    assert_eq!(
        ContentEncoding::from_accept_encoding(Some("gzip, deflate")),
        ContentEncoding::Gzip
    );
    assert_eq!(ContentEncoding::from_accept_encoding(Some("br")), ContentEncoding::Identity);
    assert_eq!(ContentEncoding::Zstd.as_header_value(), Some("zstd"));
    assert_eq!(ContentEncoding::Gzip.as_header_value(), Some("gzip"));
    assert_eq!(ContentEncoding::Identity.as_header_value(), None);
}

#[test]
fn compression_round_trips() {
    let data = b"some segment bytes some segment bytes some segment bytes".to_vec();
    let gz = gzip_compress(&data).unwrap();
    assert_eq!(gzip_decompress(&gz).unwrap(), data);
    let zs = zstd_compress(&data, 3).unwrap();
    assert_eq!(zstd_decompress(&zs).unwrap(), data);

    let via_enum = ContentEncoding::Gzip.compress(&data).unwrap();
    assert_eq!(gzip_decompress(&via_enum).unwrap(), data);
    assert_eq!(ContentEncoding::Identity.compress(&data).unwrap(), data);
}

#[test]
fn decompress_body_honours_declared_encoding() {
    let data = b"payload".to_vec();
    let gz = gzip_compress(&data).unwrap();
    assert_eq!(decompress_body(Some(&"gzip".to_string()), &gz).unwrap(), data);
    let zs = zstd_compress(&data, 3).unwrap();
    assert_eq!(decompress_body(Some(&"zstd".to_string()), &zs).unwrap(), data);
    assert_eq!(decompress_body(None, &data).unwrap(), data);
    assert_eq!(decompress_body(Some(&"br".to_string()), &data).unwrap(), data);
    assert!(decompress_body(Some(&"gzip".to_string()), &data).is_err());
}

#[test]
fn zstd_rejects_non_zstd_input() {
    assert!(zstd_decompress(b"definitely not a zstd frame").is_none());
    assert!(decompress_body(Some(&"zstd".to_string()), b"junk").is_err());
}

#[test]
fn range_parsing_follows_the_policy() {
    // plain range
    assert_eq!(parse_range(Some(&"bytes=2-5".to_string()), 10), Some((2, 5)));
    // missing end reads to the last byte
    assert_eq!(parse_range(Some(&"bytes=3-".to_string()), 10), Some((3, 9)));
    // missing start reads from zero
    assert_eq!(parse_range(Some(&"bytes=-5".to_string()), 10), Some((0, 5)));
    // end clamps to the last byte
    assert_eq!(parse_range(Some(&"bytes=2-99".to_string()), 10), Some((2, 9)));
    // start past the end serves the full body
    assert_eq!(parse_range(Some(&"bytes=10-12".to_string()), 10), None);
    // malformed shapes serve the full body
    assert_eq!(parse_range(Some(&"bytes=1-2-3".to_string()), 10), None);
    assert_eq!(parse_range(Some(&"items=1-2".to_string()), 10), None);
    assert_eq!(parse_range(None, 10), None);
}

#[test]
fn range_slicing_returns_exact_bytes() {
    let body: Vec<u8> = (0u8..10).collect();
    let ranged = apply_range(body.clone(), Some(&"bytes=2-5".to_string()));
    assert_eq!(ranged.status, 206);
    assert_eq!(ranged.body, vec![2u8, 3, 4, 5]);
    assert_eq!(ranged.body.len(), 5 - 2 + 1);
    assert_eq!(ranged.content_range.as_deref(), Some("bytes 2-5/10"));

    let full = apply_range(body.clone(), Some(&"bytes=11-".to_string()));
    assert_eq!(full.status, 200);
    assert_eq!(full.body, body);
    assert!(full.content_range.is_none());

    assert_eq!(content_range_value(0, 1023, 4096), "bytes 0-1023/4096");
}

#[test]
fn m3u8_detection_follows_the_rules() {
    assert!(ProxyController::is_m3u8_content("", b"#EXTM3U\n"));
    assert!(ProxyController::is_m3u8_content("application/vnd.apple.mpegurl", b"junk"));
    assert!(ProxyController::is_m3u8_content("audio/m3u8", b"junk"));
    assert!(!ProxyController::is_m3u8_content("video/mp4", b"#EXTM3U\n"));
    assert!(!ProxyController::is_m3u8_content("video/mp2t", b"binary"));
    assert!(ProxyController::is_mp4_content("video/mp4; codecs=avc1"));
}

#[test]
fn status_classification_counts_only_client_errors() {
    assert_eq!(ProxyController::classify_status(200), UpstreamDisposition::Proceed);
    assert_eq!(ProxyController::classify_status(206), UpstreamDisposition::Proceed);
    assert_eq!(ProxyController::classify_status(404), UpstreamDisposition::FailAndRecord);
    assert_eq!(ProxyController::classify_status(403), UpstreamDisposition::FailAndRecord);
    assert_eq!(ProxyController::classify_status(500), UpstreamDisposition::FailSilently);
    assert_eq!(ProxyController::classify_status(302), UpstreamDisposition::FailSilently);
}

#[test]
fn schema_headers_pick_the_right_set() {
    let poocloud =
        ProxyController::apply_schema_headers("sports", "https://strm.poocloud.in/x.ts");
    assert_eq!(poocloud[0], ("Origin".to_string(), "https://ppvs.su".to_string()));
    assert!(poocloud.iter().any(|(n, v)| n == "Referer" && v == "https://modistreams.org/"));
    assert!(poocloud.iter().any(|(n, v)| n == "Sec-GPC" && v == "1"));
    assert!(poocloud.iter().any(|(n, v)| n == "Pragma" && v == "no-cache"));

    let default_set = ProxyController::apply_schema_headers("sports", "https://elsewhere/x.ts");
    assert_eq!(default_set.len(), 5);
    assert!(default_set
        .iter()
        .any(|(n, v)| n == "Origin" && v == "https://api.ppvs.su/api/streams"));

    let captions = ProxyController::apply_schema_headers("captions", "https://elsewhere/x.vtt");
    assert_eq!(captions.len(), 2);
    assert!(captions.iter().any(|(n, v)| n == "User-Agent" && v.contains("Firefox")));

    // an unknown schema falls back to the default sports set
    let fallback = ProxyController::apply_schema_headers("movies", "https://elsewhere/x.ts");
    assert_eq!(fallback, default_set);
}

#[test]
fn m3u8_response_sets_playlist_headers() {
    let resp =
        ProxyController::build_m3u8_response("#EXTM3U\n", Some(&"identity".to_string())).unwrap();
    assert_eq!(resp.status, 200);
    assert_eq!(resp.body, b"#EXTM3U\n");
    assert!(resp
        .headers
        .iter()
        .any(|(n, v)| n == "Content-Type" && v == "application/vnd.apple.mpegurl"));
    assert!(resp.headers.iter().any(|(n, v)| n == "Cache-Control" && v == "no-cache"));
    assert!(resp.headers.iter().any(|(n, v)| n == "Content-Length" && v == "8"));
    assert!(!resp.headers.iter().any(|(n, _)| n == "Content-Encoding"));

    let zipped =
        ProxyController::build_m3u8_response("#EXTM3U\n", Some(&"zstd".to_string())).unwrap();
    assert!(zipped.headers.iter().any(|(n, v)| n == "Content-Encoding" && v == "zstd"));
    assert_eq!(zstd_decompress(&zipped.body).unwrap(), b"#EXTM3U\n");
}

#[test]
fn binary_response_serves_ranges_uncompressed() {
    let body: Vec<u8> = (0u8..100).collect();
    let resp = ProxyController::build_binary_response(
        body.clone(),
        "video/mp2t",
        Some(&"bytes=10-19".to_string()),
        Some(&"zstd".to_string()),
    )
    .unwrap();
    assert_eq!(resp.status, 206);
    assert_eq!(resp.body, (10u8..20).collect::<Vec<u8>>());
    assert!(resp.headers.iter().any(|(n, v)| n == "Content-Range" && v == "bytes 10-19/100"));
    assert!(resp.headers.iter().any(|(n, v)| n == "Accept-Ranges" && v == "bytes"));
    // ranges are never compressed
    assert!(!resp.headers.iter().any(|(n, _)| n == "Content-Encoding"));
    assert!(resp
        .headers
        .iter()
        .any(|(n, v)| n == "Cache-Control" && v == "public, max-age=31536000"));
}

#[test]
fn binary_response_compresses_full_bodies_and_shortens_mp4_cache() {
    let body: Vec<u8> = (0u8..100).collect();
    let resp = ProxyController::build_binary_response(
        body.clone(),
        "video/mp4",
        None,
        Some(&"gzip".to_string()),
    )
    .unwrap();
    assert_eq!(resp.status, 200);
    assert!(resp.headers.iter().any(|(n, v)| n == "Content-Encoding" && v == "gzip"));
    assert!(resp.headers.iter().any(|(n, v)| n == "Cache-Control" && v == "public, max-age=3600"));
    assert_eq!(gzip_decompress(&resp.body).unwrap(), body);
}
