//! The stream catalog: the `Game` record and its upstream JSON shapes, the
//! freshness policy, and the pure steps of catalog fetching. The JSON and
//! HTTP round trips happen outside and hand these functions plain values.

use vstd::prelude::*;
use vstd::string::*;
use vstd::utf8::{decode_utf8, valid_utf8};

use crate::conneg::{gunzip_of, gzip_decompress};
use crate::errors::{AppError, AppResult};
use crate::textutil::string_from_utf8;

verus! {

/// A catalog cache entry is refreshed after this many seconds.
pub const CATALOG_STALE_SECONDS: i64 = 3600;

/// Decrypted video links are cached this many seconds.
pub const VIDEO_LINK_CACHE_TTL_SECS: u64 = 300;

/// A raw provider blob, as the store keeps it.
#[derive(Debug, Clone)]
pub struct Stream {
    pub provider: String,
    pub data: String,
}

/// A catalog entry: one watchable stream. `video_link` holds the raw
/// upstream iframe URL; `cache_time` is when the record was written.
#[derive(Debug, Clone)]
pub struct Game {
    pub id: i64,
    pub name: String,
    pub poster: String,
    pub start_time: i64,
    pub end_time: i64,
    pub cache_time: i64,
    pub video_link: String,
    pub category: String,
}

/// The upstream catalog response: categories of streams.
#[derive(Debug, Clone)]
pub struct PpvsuApiResponse {
    pub success: bool,
    pub streams: Vec<PpvsuCategory>,
}

/// One category of the upstream catalog.
#[derive(Debug, Clone)]
pub struct PpvsuCategory {
    pub category: String,
    pub streams: Vec<PpvsuStream>,
}

/// One stream of the upstream catalog; `iframe` may be missing, in which
/// case the stream is dropped.
#[derive(Debug, Clone)]
pub struct PpvsuStream {
    pub id: i64,
    pub name: String,
    pub poster: String,
    pub starts_at: i64,
    pub ends_at: i64,
    pub iframe: Option<String>,
}

/// The upstream single-stream response.
#[derive(Debug, Clone)]
pub struct PpvsuStreamDetailResponse {
    pub success: bool,
    pub data: PpvsuStreamDetail,
}

/// The payload of the single-stream response.
#[derive(Debug, Clone)]
pub struct PpvsuStreamDetail {
    pub id: i64,
    pub name: String,
    pub poster: String,
    pub start_timestamp: i64,
    pub end_timestamp: i64,
    pub sources: Vec<PpvsuSource>,
    pub category_name: Option<String>,
}

/// One source of a stream: its iframe URL.
#[derive(Debug, Clone)]
pub struct PpvsuSource {
    pub data: String,
}

/// The store of catalog records, keyed by provider.
pub trait StreamsRepository {
    fn get_stream(&self, provider: &str) -> AppResult<Option<Stream>>;

    fn get_all_streams(&self) -> AppResult<Vec<Stream>>;

    fn store_game(&self, provider: &str, game: &Game) -> AppResult<()>;

    fn get_game(&self, provider: &str, game_id: i64) -> AppResult<Option<Game>>;

    fn get_games(&self, provider: &str) -> AppResult<Vec<Game>>;

    fn delete_game(&self, provider: &str, game_id: i64) -> AppResult<()>;

    fn clear_cache(&self, provider: &str) -> AppResult<()>;

    fn set_last_fetch_time(&self, provider: &str, timestamp: i64) -> AppResult<()>;

    fn get_last_fetch_time(&self, provider: &str) -> AppResult<Option<i64>>;

    fn get_video_link(&self, stream_path: &str) -> AppResult<Option<String>>;

    fn set_video_link(&self, stream_path: &str, video_link: &str, ttl_secs: u64) -> AppResult<()>;
}

/// The catalog service's operations; the I/O side implements them around
/// this module's verified steps.
pub trait PpvsuServiceTrait {
    fn fetch_and_cache_games(&self) -> AppResult<Vec<Game>>;

    fn fetch_video_link(&self, iframe_url: &str) -> AppResult<String>;

    fn get_games_with_refresh(&self) -> AppResult<Vec<Game>>;

    fn get_game_by_id(&self, game_id: i64) -> AppResult<Game>;

    fn clear_cache(&self) -> AppResult<()>;

    fn get_current_timestamp(&self) -> AppResult<i64>;

    fn is_cache_stale(&self, cache_time: i64, current_time: i64) -> bool;
}

/// A record older than an hour is stale.
pub fn is_cache_stale(cache_time: i64, current_time: i64) -> (r: bool)
    requires
        i64::MIN <= current_time - cache_time <= i64::MAX,
    ensures
        r == (current_time - cache_time > 3600),
{
    current_time - cache_time > CATALOG_STALE_SECONDS
}

/// Whether the whole provider cache is to be refetched: no recorded fetch
/// time, or one more than an hour old.
pub fn needs_full_refresh(last_fetch: Option<i64>, current_time: i64) -> (r: bool)
    requires
        last_fetch matches Some(t) ==> i64::MIN <= current_time - t <= i64::MAX,
    ensures
        r == match last_fetch {
            Some(t) => current_time - t > 3600,
            None => true,
        },
{
    match last_fetch {
        Some(t) => is_cache_stale(t, current_time),
        None => true,
    }
}

/// Whether a cached game may be served without a refetch.
pub fn cached_game_is_fresh(cache_time: i64, current_time: i64) -> (r: bool)
    requires
        i64::MIN <= current_time - cache_time <= i64::MAX,
    ensures
        r == (current_time - cache_time <= 3600),
{
    !is_cache_stale(cache_time, current_time)
}

/// Does the body carry the gzip magic, as the catalog fetch sniffs it?
pub fn looks_gzipped(bytes: &[u8]) -> (r: bool)
    ensures
        r == (bytes@.len() > 2 && bytes@[0] == 0x1f && bytes@[1] == 0x8b),
{
    if bytes.len() > 2 {
        let b0 = *vstd::slice::slice_index_get(bytes, 0);
        let b1 = *vstd::slice::slice_index_get(bytes, 1);
        b0 == 0x1f && b1 == 0x8b
    } else {
        false
    }
}

/// The text a catalog response body decodes to: gunzipped when it carries
/// the gzip magic, then read as UTF-8.
pub open spec fn spec_catalog_text(bytes: Seq<u8>) -> Option<Seq<char>> {
    let raw: Option<Seq<u8>> = if bytes.len() > 2 && bytes[0] == 0x1f && bytes[1] == 0x8b {
        gunzip_of(bytes)
    } else {
        Some(bytes)
    };
    match raw {
        Some(b) => {
            if valid_utf8(b) {
                Some(decode_utf8(b))
            } else {
                None
            }
        },
        None => None,
    }
}

/// Decode a catalog response body: opportunistic gzip, then UTF-8.
pub fn decode_catalog_body(bytes: &[u8]) -> (r: Result<String, AppError>)
    ensures
        match r {
            Ok(text) => spec_catalog_text(bytes@) == Some(text@),
            Err(e) => spec_catalog_text(bytes@) is None && (e
                matches AppError::InternalServerErrorWithContext(_)),
        },
{
    let raw: Option<Vec<u8>> = if looks_gzipped(bytes) {
        gzip_decompress(bytes)
    } else {
        Some(vstd::slice::slice_to_vec(bytes))
    };
    match raw {
        Some(b) => {
            match string_from_utf8(b) {
                Some(text) => Ok(text),
                None => Err(
                    AppError::InternalServerErrorWithContext(
                        String::from_str("failed to convert response to UTF-8"),
                    ),
                ),
            }
        },
        None => Err(
            AppError::InternalServerErrorWithContext(
                String::from_str("failed to decompress gzip response"),
            ),
        ),
    }
}

/// The game record built for a catalog stream matches its source fields.
pub open spec fn spec_game_matches(
    g: Game,
    category: Seq<char>,
    s: PpvsuStream,
    cache_time: i64,
) -> bool {
    &&& g.id == s.id
    &&& g.name@ == s.name@
    &&& g.poster@ == s.poster@
    &&& g.start_time == s.starts_at
    &&& g.end_time == s.ends_at
    &&& g.cache_time == cache_time
    &&& (s.iframe matches Some(f) && g.video_link@ == f@)
    &&& g.category@ == category
}

/// The category-stream pairs of one category that carry an iframe, in
/// order.
pub open spec fn spec_kept_pairs(
    category: Seq<char>,
    ss: Seq<PpvsuStream>,
) -> Seq<(Seq<char>, PpvsuStream)>
    decreases ss.len(),
{
    if ss.len() == 0 {
        Seq::empty()
    } else {
        let rest = spec_kept_pairs(category, ss.drop_last());
        if ss.last().iframe is Some {
            rest.push((category, ss.last()))
        } else {
            rest
        }
    }
}

/// All kept category-stream pairs of the catalog, categories in order.
pub open spec fn spec_catalog_pairs(cats: Seq<PpvsuCategory>) -> Seq<(Seq<char>, PpvsuStream)>
    decreases cats.len(),
{
    if cats.len() == 0 {
        Seq::empty()
    } else {
        spec_catalog_pairs(cats.drop_last()) + spec_kept_pairs(
            cats.last().category@,
            cats.last().streams@,
        )
    }
}

/// Build the game records of a catalog response: one per stream that
/// carries an iframe, categories and streams in their given order, all
/// stamped with the same cache time.
pub fn games_from_catalog(cats: &Vec<PpvsuCategory>, cache_time: i64) -> (r: Vec<Game>)
    ensures
        ({
            let pairs = spec_catalog_pairs(cats@);
            r@.len() == pairs.len() && (forall|k: int|
                0 <= k < pairs.len() ==> spec_game_matches(
                    #[trigger] r@[k],
                    pairs[k].0,
                    pairs[k].1,
                    cache_time,
                ))
        }),
{
    let mut out: Vec<Game> = Vec::new();
    let ncats = cats.len();
    let mut i: usize = 0;
    proof {
        assert(cats@.take(0) =~= Seq::<PpvsuCategory>::empty());
    }
    while i < ncats
        invariant
            ncats == cats@.len(),
            0 <= i <= ncats,
            out@.len() == spec_catalog_pairs(cats@.take(i as int)).len(),
            forall|k: int|
                0 <= k < out@.len() ==> spec_game_matches(
                    #[trigger] out@[k],
                    spec_catalog_pairs(cats@.take(i as int))[k].0,
                    spec_catalog_pairs(cats@.take(i as int))[k].1,
                    cache_time,
                ),
        decreases ncats - i,
    {
        let category = &cats[i];
        let nss = category.streams.len();
        let mut j: usize = 0;
        proof {
            assert(cats@.take(i + 1).drop_last() =~= cats@.take(i as int));
            assert(cats@.take(i + 1).last() == cats@[i as int]);
            assert(category.streams@.take(0) =~= Seq::<PpvsuStream>::empty());
        }
        while j < nss
            invariant
                ncats == cats@.len(),
                0 <= i < ncats,
                nss == cats@[i as int].streams@.len(),
                0 <= j <= nss,
                category == &cats@[i as int],
                out@.len() == spec_catalog_pairs(cats@.take(i as int)).len() + spec_kept_pairs(
                    cats@[i as int].category@,
                    cats@[i as int].streams@.take(j as int),
                ).len(),
                forall|k: int|
                    0 <= k < out@.len() ==> spec_game_matches(
                        #[trigger] out@[k],
                        (spec_catalog_pairs(cats@.take(i as int)) + spec_kept_pairs(
                            cats@[i as int].category@,
                            cats@[i as int].streams@.take(j as int),
                        ))[k].0,
                        (spec_catalog_pairs(cats@.take(i as int)) + spec_kept_pairs(
                            cats@[i as int].category@,
                            cats@[i as int].streams@.take(j as int),
                        ))[k].1,
                        cache_time,
                    ),
            decreases nss - j,
        {
            let stream = &category.streams[j];
            proof {
                assert(cats@[i as int].streams@.take(j + 1).drop_last() =~= cats@[
                    i as int].streams@.take(j as int));
                assert(cats@[i as int].streams@.take(j + 1).last() == cats@[i as int].streams@[
                    j as int]);
            }
            match &stream.iframe {
                Some(iframe) => {
                    let game = Game {
                        id: stream.id,
                        name: stream.name.clone(),
                        poster: stream.poster.clone(),
                        start_time: stream.starts_at,
                        end_time: stream.ends_at,
                        cache_time,
                        video_link: iframe.clone(),
                        category: category.category.clone(),
                    };
                    out.push(game);
                },
                None => {},
            }
            j += 1;
        }
        proof {
            assert(cats@[i as int].streams@.take(nss as int) =~= cats@[i as int].streams@);
            assert(spec_catalog_pairs(cats@.take(i + 1)) == spec_catalog_pairs(cats@.take(i as int))
                + spec_kept_pairs(cats@[i as int].category@, cats@[i as int].streams@));
        }
        i += 1;
    }
    proof {
        assert(cats@.take(ncats as int) =~= cats@);
    }
    out
}

/// Build the game record of a single-stream response: the first source's
/// iframe; a stream without sources is not found; a missing category reads
/// as `Unknown`.
pub fn game_from_detail(detail: &PpvsuStreamDetail, cache_time: i64) -> (r: Result<Game, AppError>)
    ensures
        match r {
            Ok(g) => detail.sources@.len() > 0 && g.id == detail.id && g.name@ == detail.name@
                && g.poster@ == detail.poster@ && g.start_time == detail.start_timestamp
                && g.end_time == detail.end_timestamp && g.cache_time == cache_time && g.video_link@
                == detail.sources@[0].data@ && (match detail.category_name {
                Some(ref c) => g.category@ == c@,
                None => g.category@ == "Unknown"@,
            }),
            Err(e) => detail.sources@.len() == 0 && (e matches AppError::NotFound(m) && m@
                == "no sources found for stream"@),
        },
{
    if detail.sources.len() == 0 {
        return Err(AppError::NotFound(String::from_str("no sources found for stream")));
    }
    let iframe = detail.sources[0].data.clone();
    let category = match &detail.category_name {
        Some(c) => c.clone(),
        None => String::from_str("Unknown"),
    };
    Ok(
        Game {
            id: detail.id,
            name: detail.name.clone(),
            poster: detail.poster.clone(),
            start_time: detail.start_timestamp,
            end_time: detail.end_timestamp,
            cache_time,
            video_link: iframe,
            category,
        },
    )
}

/// The parts of a `fetch` request derived from an iframe URL: the origin
/// (scheme and host) posted to, and the stream path after `/embed/`.
pub open spec fn spec_embed_parts(iframe: Seq<char>) -> Option<(Seq<char>, Seq<char>)> {
    if !crate::urlinfo::url_is_valid(iframe) {
        None
    } else {
        let base = crate::urlinfo::url_scheme_of(iframe) + "://"@ + (
        match crate::urlinfo::url_host_of(iframe) {
            Some(h) => h,
            None => Seq::empty(),
        });
        let path = crate::urlinfo::url_path_of(iframe);
        if 7 <= path.len() && path.subrange(0, 7) == "/embed/"@ {
            Some((base, path.subrange(7, path.len() as int)))
        } else {
            None
        }
    }
}

/// Split an iframe URL into the `fetch` origin and the embed stream path;
/// a URL that does not parse or lacks the `/embed/` prefix is rejected.
pub fn embed_request_parts(iframe_url: &str) -> (r: Result<(String, String), AppError>)
    ensures
        match r {
            Ok((base, path)) => spec_embed_parts(iframe_url@) == Some((base@, path@)),
            Err(e) => spec_embed_parts(iframe_url@) is None && (e matches AppError::BadRequest(_)),
        },
{
    let (scheme, host, path) = match crate::urlinfo::url_parts(iframe_url) {
        Some(parts) => parts,
        None => {
            return Err(AppError::BadRequest(String::from_str("failed to parse iframe URL")));
        },
    };
    let mut base = scheme;
    base.append("://");
    match host {
        Some(h) => { base.append(h.as_str()) },
        None => {},
    }
    proof {
        reveal_strlit("/embed/");
    }
    if !crate::textutil::starts_with_str(path.as_str(), "/embed/") {
        return Err(
            AppError::BadRequest(String::from_str("iframe URL doesn't contain /embed/ path")),
        );
    }
    let pn = path.as_str().unicode_len();
    let stream_path = crate::textutil::substr_copy(path.as_str(), 7, pn);
    Ok((base, stream_path))
}

} // verus!
