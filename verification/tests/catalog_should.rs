use edge_proxy::catalog::{
    cached_game_is_fresh, decode_catalog_body, embed_request_parts, game_from_detail,
    games_from_catalog, is_cache_stale, looks_gzipped, needs_full_refresh, PpvsuCategory,
    PpvsuSource, PpvsuStream, PpvsuStreamDetail,
};
use edge_proxy::conneg::gzip_compress;

fn stream(id: i64, iframe: Option<&str>) -> PpvsuStream {
    PpvsuStream {
        id,
        name: format!("game {}", id),
        poster: format!("poster {}", id),
        starts_at: 100 + id,
        ends_at: 200 + id,
        iframe: iframe.map(|s| s.to_string()),
    }
}

#[test]
fn staleness_is_one_hour() {
    assert!(!is_cache_stale(1000, 4600));
    assert!(is_cache_stale(1000, 4601));
    assert!(cached_game_is_fresh(1000, 4600));
    assert!(!cached_game_is_fresh(1000, 4601));
    assert!(needs_full_refresh(None, 0));
    assert!(!needs_full_refresh(Some(1000), 4600));
    assert!(needs_full_refresh(Some(1000), 4601));
}

#[test]
fn gzip_magic_is_sniffed() {
    assert!(looks_gzipped(&[0x1f, 0x8b, 0x08]));
    assert!(!looks_gzipped(&[0x1f, 0x8b]));
    assert!(!looks_gzipped(b"{}"));
}

#[test]
fn catalog_body_decodes_plain_and_gzipped() {
    let text = "{\"success\":true}";
    assert_eq!(decode_catalog_body(text.as_bytes()).unwrap(), text);
    let gz = gzip_compress(text.as_bytes()).unwrap();
    assert_eq!(decode_catalog_body(&gz).unwrap(), text);
    assert!(decode_catalog_body(&[0xff, 0xfe, 0xfd]).is_err());
}

#[test]
fn games_keep_only_streams_with_iframes() {
    let cats = vec![
        PpvsuCategory {
            category: "Football".to_string(),
            streams: vec![
                stream(1, Some("https://e/embed/a")),
                stream(2, None),
            ],
        },
        PpvsuCategory {
            category: "Hockey".to_string(),
            streams: vec![stream(3, Some("https://e/embed/b"))],
        },
    ];
    let games = games_from_catalog(&cats, 777);
    assert_eq!(games.len(), 2);
    assert_eq!(games[0].id, 1);
    assert_eq!(games[0].name, "game 1");
    assert_eq!(games[0].category, "Football");
    assert_eq!(games[0].video_link, "https://e/embed/a");
    assert_eq!(games[0].cache_time, 777);
    assert_eq!(games[0].start_time, 101);
    assert_eq!(games[0].end_time, 201);
    assert_eq!(games[1].id, 3);
    assert_eq!(games[1].category, "Hockey");
}

#[test]
fn detail_builds_a_game_or_reports_not_found() {
    let detail = PpvsuStreamDetail {
        id: 9,
        name: "n".to_string(),
        poster: "p".to_string(),
        start_timestamp: 1,
        end_timestamp: 2,
        sources: vec![PpvsuSource { data: "https://e/embed/x".to_string() }],
        category_name: None,
    };
    let game = game_from_detail(&detail, 5).unwrap();
    assert_eq!(game.video_link, "https://e/embed/x");
    assert_eq!(game.category, "Unknown");
    assert_eq!(game.cache_time, 5);

    let empty = PpvsuStreamDetail { sources: vec![], ..detail };
    assert!(game_from_detail(&empty, 5).is_err());
}

#[test]
fn embed_parts_split_origin_and_path() {
    let (base, path) = embed_request_parts("https://host.tld/embed/nfl/2026-01-17/buf-den").unwrap();
    assert_eq!(base, "https://host.tld");
    assert_eq!(path, "nfl/2026-01-17/buf-den");

    assert!(embed_request_parts("https://host.tld/watch/x").is_err());
    assert!(embed_request_parts("not a url").is_err());
}
