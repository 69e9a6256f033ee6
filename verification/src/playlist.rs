//! Playlist rewriting: every URI line of an M3U8 playlist is resolved
//! against the upstream URL's directory and replaced by a signed proxy URL,
//! so every descendant fetch routes back through the proxy; upstream's
//! injected `##` comment lines are dropped, other comments and blank lines
//! pass through.

use vstd::prelude::*;
use vstd::string::*;
use vstd::utf8::encode_utf8;

use crate::b64::{b64url_encode, spec_b64_encode, spec_strip_pad, strip_pad};
use crate::clock::now_unix;
use crate::errors::AppError;
use crate::signature::{spec_signature, SignatureUtil};
use crate::textutil::{
    lines_of, join_str, rfind_char, spec_dec_int, spec_join, spec_lines, spec_rfind_char,
    spec_trim, starts_with_str, i64_to_string, trim_str, substr_copy,
};
use crate::urlinfo::{
    percent_encode, spec_percent_encode, url_host_of, url_is_valid, url_parts, url_path_of,
    url_resolve, url_resolve_of, url_scheme_of,
};

verus! {

/// Playlist rewriting signs each URI for this many hours.
pub const REWRITE_EXPIRY_HOURS: i64 = 12;

/// True when the string already names an absolute `http` or `https` URL.
pub open spec fn spec_is_http_abs(s: Seq<char>) -> bool {
    ("http://"@.len() <= s.len() && s.subrange(0, "http://"@.len() as int) == "http://"@) || (
    "https://"@.len() <= s.len() && s.subrange(0, "https://"@.len() as int) == "https://"@)
}

/// Does the string start with `http://` or `https://`?
pub fn is_http_abs(s: &str) -> (r: bool)
    ensures
        r == spec_is_http_abs(s@),
{
    starts_with_str(s, "http://") || starts_with_str(s, "https://")
}

/// A last occurrence sits inside the sequence.
proof fn lemma_rfind_bounds(s: Seq<char>, c: char)
    ensures
        spec_rfind_char(s, c) matches Some(i) ==> 0 <= i < s.len(),
    decreases s.len(),
{
    if s.len() > 0 && s.last() != c {
        lemma_rfind_bounds(s.drop_last(), c);
    }
}

/// The directory part of the upstream URL: scheme, host, and the path up
/// to (and including) its last slash.
pub open spec fn spec_base_dir(target: Seq<char>) -> Seq<char> {
    let scheme = url_scheme_of(target);
    let host = match url_host_of(target) {
        Some(h) => h,
        None => Seq::empty(),
    };
    let path = url_path_of(target);
    let cut: int = match spec_rfind_char(path, '/') {
        Some(i) => i + 1,
        None => {
            if path.len() >= 1 {
                1
            } else {
                0
            }
        },
    };
    scheme + "://"@ + host + path.subrange(0, cut)
}

/// Compute the directory part of the upstream URL; an unparsable URL is
/// reported, since nothing can be resolved against it.
pub fn base_dir(target: &str) -> (r: Option<String>)
    ensures
        r matches Some(b) ==> url_is_valid(target@) && b@ == spec_base_dir(target@),
        r is None ==> !url_is_valid(target@),
{
    match url_parts(target) {
        Some((scheme, host, path)) => {
            let mut out = scheme;
            out.append("://");
            match host {
                Some(h) => { out.append(h.as_str()) },
                None => {},
            }
            proof {
                lemma_rfind_bounds(path@, '/');
            }
            let pn = path.as_str().unicode_len();
            let cut: usize = match rfind_char(path.as_str(), '/') {
                Some(i) => i + 1,
                None => {
                    if pn >= 1 {
                        1
                    } else {
                        0
                    }
                },
            };
            let dir = substr_copy(path.as_str(), 0, cut);
            out.append(dir.as_str());
            Some(out)
        },
        None => None,
    }
}

/// The signed proxy line that replaces a resolved URI: the URL-safe base64
/// token of the URL (padding stripped), the schema, the signature over the
/// token, the expiry, and the percent-encoded client.
pub open spec fn spec_signed_line(
    encoded: Seq<char>,
    secret: Seq<char>,
    client: Seq<char>,
    expiry: int,
) -> Seq<char> {
    "/api/v1/proxy?url="@ + encoded + "&schema=sports&sig="@ + spec_signature(
        secret,
        client,
        expiry,
        encoded,
    ) + "&exp="@ + spec_dec_int(expiry) + "&client="@ + spec_percent_encode(
        vstd::utf8::encode_utf8(client),
    )
}

/// The token a URL is carried by: its UTF-8 bytes in URL-safe base64,
/// padding stripped.
pub open spec fn spec_url_token(u: Seq<char>) -> Seq<char> {
    spec_strip_pad(spec_b64_encode(encode_utf8(u), true))
}

/// One line's rewrite: blank lines and comments pass through; a URI line
/// becomes a signed proxy line for its resolved URL; a line that fails to
/// resolve passes through.
pub open spec fn spec_line_rewrite(
    line: Seq<char>,
    base: Seq<char>,
    secret: Seq<char>,
    client: Seq<char>,
    expiry: int,
) -> Seq<char> {
    let trimmed = spec_trim(line);
    if trimmed.len() == 0 || trimmed[0] == '#' {
        line
    } else {
        let full: Option<Seq<char>> = if spec_is_http_abs(trimmed) {
            Some(trimmed)
        } else {
            url_resolve_of(base, trimmed)
        };
        match full {
            None => line,
            Some(u) => spec_signed_line(spec_url_token(u), secret, client, expiry),
        }
    }
}

/// A line is kept unless its trimmed form starts with `##`.
pub open spec fn spec_keep_line(line: Seq<char>) -> bool {
    !(2 <= spec_trim(line).len() && spec_trim(line).subrange(0, 2) == "##"@)
}

/// The rewritten playlist's lines, in order.
pub open spec fn spec_rewrite_lines(
    lines: Seq<Seq<char>>,
    base: Seq<char>,
    secret: Seq<char>,
    client: Seq<char>,
    expiry: int,
) -> Seq<Seq<char>>
    decreases lines.len(),
{
    if lines.len() == 0 {
        Seq::empty()
    } else {
        let rest = spec_rewrite_lines(lines.drop_last(), base, secret, client, expiry);
        if spec_keep_line(lines.last()) {
            rest.push(spec_line_rewrite(lines.last(), base, secret, client, expiry))
        } else {
            rest
        }
    }
}

/// The rewritten playlist: its kept lines, each rewritten, joined by
/// newlines.
pub open spec fn spec_process_m3u8(
    text: Seq<char>,
    target: Seq<char>,
    secret: Seq<char>,
    client: Seq<char>,
    expiry: int,
) -> Seq<char> {
    spec_join(
        spec_rewrite_lines(spec_lines(text), spec_base_dir(target), secret, client, expiry),
        seq!['\n'],
    )
}

/// Rewrite one playlist against a known time: each URI line is signed with
/// expiry `now` plus twelve hours. Only an unparsable upstream URL fails.
pub fn process_m3u8_at(
    text: &str,
    target_url: &str,
    client_id: &str,
    signer: &SignatureUtil,
    now: i64,
) -> (r: Result<String, AppError>)
    requires
        0 <= now,
        now + 43200 <= i64::MAX,
    ensures
        match r {
            Ok(body) => url_is_valid(target_url@) && body@ == spec_process_m3u8(
                text@,
                target_url@,
                signer.spec_secret(),
                client_id@,
                now + 43200,
            ),
            Err(e) => !url_is_valid(target_url@) && (e
                matches AppError::InternalServerErrorWithContext(_)),
        },
{
    let base = match base_dir(target_url) {
        Some(b) => b,
        None => {
            return Err(
                AppError::InternalServerErrorWithContext(String::from_str("Invalid base URL")),
            );
        },
    };
    let expiry = SignatureUtil::generate_expiry_at(REWRITE_EXPIRY_HOURS, now);
    let lines = lines_of(text);
    let ghost all = lines.deep_view();
    let n = lines.len();
    let mut out: Vec<String> = Vec::new();
    let mut i: usize = 0;
    proof {
        assert(all.take(0) =~= Seq::<Seq<char>>::empty());
        assert(out.deep_view() =~= spec_rewrite_lines(
            all.take(0),
            base@,
            signer.spec_secret(),
            client_id@,
            expiry as int,
        ));
    }
    while i < n
        invariant
            n == lines@.len(),
            0 <= i <= n,
            all == lines.deep_view(),
            out.deep_view() == spec_rewrite_lines(
                all.take(i as int),
                base@,
                signer.spec_secret(),
                client_id@,
                expiry as int,
            ),
        decreases n - i,
    {
        let line = &lines[i];
        proof {
            assert(line@ == all[i as int]);
            assert(all.take(i + 1).drop_last() =~= all.take(i as int));
            assert(all.take(i + 1).last() == all[i as int]);
        }
        let trimmed = trim_str(line.as_str());
        if !starts_with_str(trimmed.as_str(), "##") {
            proof {
                reveal_strlit("##");
            }
            assert(spec_keep_line(line@));
            let rewritten = rewrite_uri_line(line, &trimmed, &base, client_id, signer, expiry);
            let ghost pre = out.deep_view();
            out.push(rewritten);
            proof {
                let post = out.deep_view();
                let ghost pushed = pre.push(
                    spec_line_rewrite(
                        line@,
                        base@,
                        signer.spec_secret(),
                        client_id@,
                        expiry as int,
                    ),
                );
                assert forall|j: int| 0 <= j < post.len() implies post[j] == pushed[j] by {}
                assert(post =~= pushed);
            }
        } else {
            proof {
                reveal_strlit("##");
                assert(!spec_keep_line(line@));
            }
        }
        i += 1;
    }
    proof {
        assert(all.take(n as int) =~= all);
        reveal_strlit("\n");
        assert("\n"@ =~= seq!['\n']);
    }
    Ok(join_str(&out, "\n"))
}

/// Rewrite one kept line, as `spec_line_rewrite` describes.
fn rewrite_uri_line(
    line: &String,
    trimmed: &String,
    base: &String,
    client_id: &str,
    signer: &SignatureUtil,
    expiry: i64,
) -> (r: String)
    requires
        trimmed@ == spec_trim(line@),
    ensures
        r@ == spec_line_rewrite(line@, base@, signer.spec_secret(), client_id@, expiry as int),
{
    let tn = trimmed.as_str().unicode_len();
    if tn == 0 || trimmed.as_str().get_char(0) == '#' {
        return line.clone();
    }
    let full_url: String = if is_http_abs(trimmed.as_str()) {
        trimmed.clone()
    } else {
        match url_resolve(base.as_str(), trimmed.as_str()) {
            Some(u) => u,
            None => {
                return line.clone();
            },
        }
    };
    let padded = b64url_encode(full_url.as_str().as_bytes());
    let encoded = strip_pad(padded.as_str());
    let signature = signer.generate_signature(client_id, expiry, encoded.as_str());
    let mut r = String::from_str("/api/v1/proxy?url=");
    r.append(encoded.as_str());
    r.append("&schema=sports&sig=");
    r.append(signature.as_str());
    r.append("&exp=");
    let expiry_text = i64_to_string(expiry);
    r.append(expiry_text.as_str());
    r.append("&client=");
    let client_text = percent_encode(client_id);
    r.append(client_text.as_str());
    r
}

/// Rewrite one playlist against the wall clock. The clock is read from the
/// environment; whatever it said, a produced body is the rewrite of the
/// playlist at some expiry instant, and only an unparsable upstream URL
/// fails.
pub fn process_m3u8(
    text: &str,
    target_url: &str,
    client_id: &str,
    signer: &SignatureUtil,
) -> (r: Result<String, AppError>)
    ensures
        match r {
            Ok(body) => url_is_valid(target_url@) && (exists|expiry: int|
                body@ == spec_process_m3u8(
                    text@,
                    target_url@,
                    signer.spec_secret(),
                    client_id@,
                    expiry,
                )),
            Err(e) => !url_is_valid(target_url@) && (e
                matches AppError::InternalServerErrorWithContext(_)),
        },
{
    let now = now_unix();
    let clamped: i64 = if now <= i64::MAX - 43200 {
        now
    } else {
        i64::MAX - 43200
    };
    process_m3u8_at(text, target_url, client_id, signer, clamped)
}

/// Rewrite one playlist under a schema. Every schema rewrites the same way.
pub fn process_m3u8_by_schema(
    text: &str,
    target_url: &str,
    client_id: &str,
    signer: &SignatureUtil,
    _schema: &str,
) -> (r: Result<String, AppError>)
    ensures
        match r {
            Ok(body) => url_is_valid(target_url@) && (exists|expiry: int|
                body@ == spec_process_m3u8(
                    text@,
                    target_url@,
                    signer.spec_secret(),
                    client_id@,
                    expiry,
                )),
            Err(e) => !url_is_valid(target_url@) && (e
                matches AppError::InternalServerErrorWithContext(_)),
        },
{
    process_m3u8(text, target_url, client_id, signer)
}

/// True when the URL points at another playlist.
pub open spec fn spec_is_playlist_url(u: Seq<char>) -> bool {
    5 <= u.len() && u.subrange(u.len() - 5, u.len() as int) == ".m3u8"@
}

/// The resolved absolute URLs of the playlist's media-segment lines: URI
/// lines that resolve and do not point at another playlist.
pub open spec fn spec_segment_urls(lines: Seq<Seq<char>>, base: Seq<char>) -> Seq<Seq<char>>
    decreases lines.len(),
{
    if lines.len() == 0 {
        Seq::empty()
    } else {
        let rest = spec_segment_urls(lines.drop_last(), base);
        let line = lines.last();
        let trimmed = spec_trim(line);
        if !spec_keep_line(line) || trimmed.len() == 0 || trimmed[0] == '#' {
            rest
        } else {
            let full: Option<Seq<char>> = if spec_is_http_abs(trimmed) {
                Some(trimmed)
            } else {
                url_resolve_of(base, trimmed)
            };
            match full {
                None => rest,
                Some(u) => {
                    if spec_is_playlist_url(u) {
                        rest
                    } else {
                        rest.push(u)
                    }
                },
            }
        }
    }
}

/// Collect the segment URLs a playlist enumerates, resolved against the
/// upstream URL, for prefetching; an unparsable upstream URL yields none.
pub fn collect_segment_urls(text: &str, target_url: &str) -> (r: Vec<String>)
    ensures
        url_is_valid(target_url@) ==> r.deep_view() == spec_segment_urls(
            spec_lines(text@),
            spec_base_dir(target_url@),
        ),
        !url_is_valid(target_url@) ==> r@.len() == 0,
{
    let base = match base_dir(target_url) {
        Some(b) => b,
        None => {
            return Vec::new();
        },
    };
    let lines = lines_of(text);
    let ghost all = lines.deep_view();
    let n = lines.len();
    let mut out: Vec<String> = Vec::new();
    let mut i: usize = 0;
    proof {
        assert(all.take(0) =~= Seq::<Seq<char>>::empty());
        assert(out.deep_view() =~= spec_segment_urls(all.take(0), base@));
    }
    while i < n
        invariant
            n == lines@.len(),
            0 <= i <= n,
            all == lines.deep_view(),
            out.deep_view() == spec_segment_urls(all.take(i as int), base@),
        decreases n - i,
    {
        let line = &lines[i];
        proof {
            assert(line@ == all[i as int]);
            assert(all.take(i + 1).drop_last() =~= all.take(i as int));
            assert(all.take(i + 1).last() == all[i as int]);
            reveal_strlit("##");
        }
        let trimmed = trim_str(line.as_str());
        let tn = trimmed.as_str().unicode_len();
        if !starts_with_str(trimmed.as_str(), "##") && tn > 0 && trimmed.as_str().get_char(0)
            != '#' {
            let full_url: Option<String> = if is_http_abs(trimmed.as_str()) {
                Some(trimmed.clone())
            } else {
                url_resolve(base.as_str(), trimmed.as_str())
            };
            match full_url {
                Some(u) => {
                    let un = u.as_str().unicode_len();
                    let mut is_playlist = false;
                    if un >= 5 {
                        let tail = u.as_str().substring_char(un - 5, un);
                        is_playlist = crate::textutil::str_eq(tail, ".m3u8");
                    }
                    assert(is_playlist == spec_is_playlist_url(u@));
                    if !is_playlist {
                        let ghost pre = out.deep_view();
                        let ghost uv = u@;
                        out.push(u);
                        proof {
                            let post = out.deep_view();
                            let pushed = pre.push(uv);
                            assert forall|j: int| 0 <= j < post.len() implies post[j] == pushed[
                                j
                            ] by {}
                            assert(post =~= pushed);
                        }
                    }
                },
                None => {},
            }
        }
        i += 1;
    }
    proof {
        assert(all.take(n as int) =~= all);
    }
    out
}

} // verus!
