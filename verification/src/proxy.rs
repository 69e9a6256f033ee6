//! The proxy controller's compute: URL token decoding, upstream header
//! shaping per schema, M3U8 detection, upstream status classification, and
//! response assembly with range slicing and response compression. The HTTP
//! round trips themselves happen outside.

use vstd::prelude::*;
use vstd::slice::slice_index_get;
use vstd::string::*;
use vstd::utf8::{decode_utf8, encode_utf8, valid_utf8};

use crate::b64::{
    b64url_decode, lemma_b64_encode_injective, lemma_pad_strip_encode, pad_base64, spec_b64_char,
    spec_b64_encode, spec_pad4, spec_strip_pad,
};
use crate::byterange::{apply_range, spec_content_range, spec_range_decision};
use crate::conneg::{spec_encoding_choice, ContentEncoding, gunzip_of, zstd_unzip_of};
use crate::errors::AppError;
use crate::playlist::{
    is_http_abs, spec_is_http_abs, spec_line_rewrite, spec_signed_line, spec_url_token,
};
use crate::textutil::{
    contains_str, spec_contains, spec_dec_nat, spec_trim, string_from_utf8, usize_to_string,
};
use crate::urlinfo::{percent_decode, percent_decode_of};

verus! {

/// The proxy's route handlers hang off this type; its associated functions
/// are the request pipeline's compute steps.
pub struct ProxyController;

/// A `url` token names this URL when padding it back to a multiple of four
/// gives the canonical URL-safe base64 of the URL's UTF-8 bytes.
pub open spec fn spec_token_decodes_to(token: Seq<char>, url: Seq<char>) -> bool {
    exists|v: Seq<u8>|
        spec_b64_encode(v, true) == spec_pad4(token) && valid_utf8(v) && decode_utf8(v) == url
}

impl ProxyController {
    /// Decode the `url` query parameter: a value already naming an absolute
    /// `http(s)` URL is percent-decoded; anything else is `=`-padded and
    /// URL-safe base64-decoded, and must be valid UTF-8.
    pub fn decode_url(url_param: &str) -> (r: Result<String, AppError>)
        ensures
            spec_is_http_abs(url_param@) ==> match r {
                Ok(u) => percent_decode_of(url_param@) == Some(u@),
                Err(e) => percent_decode_of(url_param@) is None && (e
                    matches AppError::BadRequest(m) && m@ == "Invalid URL encoding"@),
            },
            !spec_is_http_abs(url_param@) ==> match r {
                Ok(u) => spec_token_decodes_to(url_param@, u@),
                Err(e) => (forall|v: Seq<u8>|
                    spec_b64_encode(v, true) == spec_pad4(url_param@) ==> !valid_utf8(v)) && (e
                    matches AppError::BadRequest(m) && m@ == "Invalid URL encoding"@),
            },
    {
        if is_http_abs(url_param) {
            match percent_decode(url_param) {
                Some(u) => Ok(u),
                None => Err(AppError::BadRequest(String::from_str("Invalid URL encoding"))),
            }
        } else {
            let padded = pad_base64(url_param);
            match b64url_decode(padded.as_str()) {
                Some(bytes) => {
                    let ghost bv = bytes@;
                    match string_from_utf8(bytes) {
                        Some(u) => {
                            proof {
                                assert(spec_b64_encode(bv, true) == spec_pad4(url_param@)
                                    && valid_utf8(bv) && decode_utf8(bv) == u@);
                            }
                            Ok(u)
                        },
                        None => {
                            proof {
                                assert forall|v: Seq<u8>|
                                    spec_b64_encode(v, true) == spec_pad4(
                                        url_param@,
                                    ) implies !valid_utf8(v) by {
                                    lemma_b64_encode_injective(v, bv, true);
                                }
                            }
                            Err(AppError::BadRequest(String::from_str("Invalid URL encoding")))
                        },
                    }
                },
                None => Err(AppError::BadRequest(String::from_str("Invalid URL encoding"))),
            }
        }
    }
}

/// Law: decoding the `url` token that the playlist rewriter produced for a
/// URL gives back exactly that URL, and nothing else.
pub proof fn lemma_url_token_round_trip(u: Seq<char>)
    ensures
        spec_token_decodes_to(spec_url_token(u), u),
        forall|other: Seq<char>| spec_token_decodes_to(spec_url_token(u), other) ==> other == u,
{
    let bytes = encode_utf8(u);
    lemma_pad_strip_encode(bytes, true);
    vstd::utf8::encode_utf8_valid_utf8(u);
    vstd::utf8::encode_utf8_decode_utf8(u);
    assert(spec_b64_encode(bytes, true) == spec_pad4(spec_url_token(u)) && valid_utf8(bytes)
        && decode_utf8(bytes) == u);
    assert forall|other: Seq<char>|
        spec_token_decodes_to(spec_url_token(u), other) implies other == u by {
        let v = choose|v: Seq<u8>|
            spec_b64_encode(v, true) == spec_pad4(spec_url_token(u)) && valid_utf8(v)
                && decode_utf8(v) == other;
        lemma_b64_encode_injective(v, bytes, true);
    }
}

/// Law: re-decoding the `url` parameter of any rewritten URI line
/// reproduces the original resolved absolute URL exactly: the rewrite of a
/// URI line that resolves to `u` is the signed proxy line carrying `u`'s
/// token, and that token decodes back to `u` and to nothing else.
pub proof fn lemma_rewritten_line_round_trip(
    line: Seq<char>,
    base: Seq<char>,
    secret: Seq<char>,
    client: Seq<char>,
    expiry: int,
)
    requires
        spec_trim(line).len() > 0,
        spec_trim(line)[0] != '#',
    ensures
        ({
            let trimmed = spec_trim(line);
            let full: Option<Seq<char>> = if spec_is_http_abs(trimmed) {
                Some(trimmed)
            } else {
                crate::urlinfo::url_resolve_of(base, trimmed)
            };
            full matches Some(u) ==> {
                &&& spec_line_rewrite(line, base, secret, client, expiry) == spec_signed_line(
                    spec_url_token(u),
                    secret,
                    client,
                    expiry,
                )
                &&& spec_token_decodes_to(spec_url_token(u), u)
                &&& forall|other: Seq<char>|
                    spec_token_decodes_to(spec_url_token(u), other) ==> other == u
            }
        }),
{
    let trimmed = spec_trim(line);
    let full: Option<Seq<char>> = if spec_is_http_abs(trimmed) {
        Some(trimmed)
    } else {
        crate::urlinfo::url_resolve_of(base, trimmed)
    };
    match full {
        Some(u) => {
            lemma_url_token_round_trip(u);
        },
        None => {},
    }
}

/// Law: a `url` token is never mistaken for an absolute URL: base64's
/// alphabet has no colon, which `http://` and `https://` both need.
pub proof fn lemma_url_token_never_absolute(u: Seq<char>)
    ensures
        !spec_is_http_abs(spec_url_token(u)),
{
    let e = spec_b64_encode(encode_utf8(u), true);
    let token = spec_url_token(u);
    lemma_strip_pad_prefix(e);
    lemma_encode_no_colon(encode_utf8(u), true);
    reveal_strlit("http://");
    reveal_strlit("https://");
    if spec_is_http_abs(token) {
        if "http://"@.len() <= token.len() && token.subrange(0, "http://"@.len() as int)
            == "http://"@ {
            assert(token.subrange(0, 7)[4] == ':');
            assert(token[4] == e[4]);
            assert(false);
        } else {
            assert(token.subrange(0, 8)[5] == ':');
            assert(token[5] == e[5]);
            assert(false);
        }
    }
}

/// Stripping padding takes a prefix.
proof fn lemma_strip_pad_prefix(s: Seq<char>)
    ensures
        spec_strip_pad(s).len() <= s.len(),
        forall|i: int|
            0 <= i < spec_strip_pad(s).len() ==> #[trigger] spec_strip_pad(s)[i] == s[i],
    decreases s.len(),
{
    if s.len() > 0 && s.last() == '=' {
        lemma_strip_pad_prefix(s.drop_last());
    }
}

/// No character of an encoding is a colon.
proof fn lemma_encode_no_colon(bytes: Seq<u8>, url: bool)
    ensures
        forall|i: int|
            0 <= i < spec_b64_encode(bytes, url).len() ==> #[trigger] spec_b64_encode(bytes, url)[i]
                != ':',
    decreases bytes.len(),
{
    let e = spec_b64_encode(bytes, url);
    if bytes.len() == 0 {
    } else if bytes.len() <= 2 {
        assert forall|i: int| 0 <= i < e.len() implies #[trigger] e[i] != ':' by {
            lemma_b64_char_no_colon(url);
        }
    } else {
        lemma_encode_no_colon(bytes.skip(3), url);
        assert forall|i: int| 0 <= i < e.len() implies #[trigger] e[i] != ':' by {
            lemma_b64_char_no_colon(url);
            if i >= 4 {
                assert(e[i] == spec_b64_encode(bytes.skip(3), url)[i - 4]);
            }
        }
    }
}

/// The alphabet (and the padding character) has no colon.
proof fn lemma_b64_char_no_colon(url: bool)
    ensures
        forall|v: int| spec_b64_char(v, url) != ':',
{
    assert forall|v: int| spec_b64_char(v, url) != ':' by {
        if 0 <= v < 26 {
        } else if 26 <= v < 52 {
        } else if 52 <= v < 62 {
        }
    }
}

/// One upstream request header: a name and a value.
pub type HeaderPair = (Seq<char>, Seq<char>);

/// The browser the proxy impersonates for stream fetches.
pub open spec fn spec_chrome_ua() -> Seq<char> {
    "Mozilla/5.0 (Windows NT 10.0; Win64; x64) AppleWebKit/537.36 (KHTML, like Gecko) Chrome/120.0.0.0 Safari/537.36"@
}

/// The headers sent to the poocloud host under the `sports` schema.
pub open spec fn spec_poocloud_headers() -> Seq<HeaderPair> {
    seq![
        ("Origin"@, "https://ppvs.su"@),
        ("Accept"@, "*/*"@),
        ("Accept-Language"@, "en-US,en;q=0.9"@),
        ("Accept-Encoding"@, "gzip, deflate, br, zstd"@),
        ("Referer"@, "https://modistreams.org/"@),
        ("User-Agent"@, spec_chrome_ua()),
        ("Sec-GPC"@, "1"@),
        ("Sec-Fetch-Dest"@, "empty"@),
        ("Sec-Fetch-Mode"@, "cors"@),
        ("Sec-Fetch-Site"@, "cross-site"@),
        ("Connection"@, "keep-alive"@),
        ("Priority"@, "u=4"@),
        ("Pragma"@, "no-cache"@),
        ("Cache-Control"@, "no-cache"@),
    ]
}

/// The headers sent to other hosts under the `sports` schema, and the
/// fallback for unknown schemas.
pub open spec fn spec_default_sports_headers() -> Seq<HeaderPair> {
    seq![
        ("Referer"@, "https://api.ppvs.su/api/streams/"@),
        ("Origin"@, "https://api.ppvs.su/api/streams"@),
        ("User-Agent"@, spec_chrome_ua()),
        ("Accept-Encoding"@, "gzip, deflate, br, zstd"@),
        ("Accept"@, "*/*"@),
    ]
}

/// The headers sent under the `captions` schema.
pub open spec fn spec_captions_headers() -> Seq<HeaderPair> {
    seq![
        (
            "User-Agent"@,
            "Mozilla/5.0 (Macintosh; Intel Mac OS X 10.15; rv:145.0) Gecko/20100101 Firefox/145.0"@,
        ),
        ("Accept"@, "*/*"@),
    ]
}

/// The headers a request to `target` carries under `schema`: the `sports`
/// schema impersonates a browser against the poocloud host or the catalog
/// API; `captions` sends a plain browser request; anything else falls back
/// to the catalog API set.
pub open spec fn spec_schema_headers(schema: Seq<char>, target: Seq<char>) -> Seq<HeaderPair> {
    if schema == "sports"@ {
        if spec_contains(target, "strm.poocloud.in"@) {
            spec_poocloud_headers()
        } else {
            spec_default_sports_headers()
        }
    } else if schema == "captions"@ {
        spec_captions_headers()
    } else {
        spec_default_sports_headers()
    }
}

/// Append one header pair.
fn push_header(v: &mut Vec<(String, String)>, name: &str, value: &str)
    ensures
        final(v).deep_view() == old(v).deep_view().push((name@, value@)),
{
    let ghost pre = v.deep_view();
    v.push((String::from_str(name), String::from_str(value)));
    proof {
        let post = v.deep_view();
        let pushed = pre.push((name@, value@));
        assert forall|j: int| 0 <= j < post.len() implies post[j] == pushed[j] by {}
        assert(post =~= pushed);
    }
}

impl ProxyController {
    /// The upstream request headers for a schema and target, exactly as
    /// `spec_schema_headers` lists them.
    pub fn apply_schema_headers(schema: &str, target_url: &str) -> (r: Vec<(String, String)>)
        ensures
            r.deep_view() == spec_schema_headers(schema@, target_url@),
    {
        let chrome =
            "Mozilla/5.0 (Windows NT 10.0; Win64; x64) AppleWebKit/537.36 (KHTML, like Gecko) Chrome/120.0.0.0 Safari/537.36";
        let mut v: Vec<(String, String)> = Vec::new();
        proof {
            assert(v.deep_view() =~= Seq::<HeaderPair>::empty());
            reveal_strlit("sports");
            reveal_strlit("captions");
            assert("sports"@.len() != "captions"@.len());
        }
        if crate::textutil::str_eq(schema, "sports") && contains_str(target_url, "strm.poocloud.in")
        {
            push_header(&mut v, "Origin", "https://ppvs.su");
            push_header(&mut v, "Accept", "*/*");
            push_header(&mut v, "Accept-Language", "en-US,en;q=0.9");
            push_header(&mut v, "Accept-Encoding", "gzip, deflate, br, zstd");
            push_header(&mut v, "Referer", "https://modistreams.org/");
            push_header(&mut v, "User-Agent", chrome);
            push_header(&mut v, "Sec-GPC", "1");
            push_header(&mut v, "Sec-Fetch-Dest", "empty");
            push_header(&mut v, "Sec-Fetch-Mode", "cors");
            push_header(&mut v, "Sec-Fetch-Site", "cross-site");
            push_header(&mut v, "Connection", "keep-alive");
            push_header(&mut v, "Priority", "u=4");
            push_header(&mut v, "Pragma", "no-cache");
            push_header(&mut v, "Cache-Control", "no-cache");
            assert(v.deep_view() =~= spec_poocloud_headers());
        } else if crate::textutil::str_eq(schema, "captions") {
            push_header(
                &mut v,
                "User-Agent",
                "Mozilla/5.0 (Macintosh; Intel Mac OS X 10.15; rv:145.0) Gecko/20100101 Firefox/145.0",
            );
            push_header(&mut v, "Accept", "*/*");
            assert(v.deep_view() =~= spec_captions_headers());
        } else {
            push_header(&mut v, "Referer", "https://api.ppvs.su/api/streams/");
            push_header(&mut v, "Origin", "https://api.ppvs.su/api/streams");
            push_header(&mut v, "User-Agent", chrome);
            push_header(&mut v, "Accept-Encoding", "gzip, deflate, br, zstd");
            push_header(&mut v, "Accept", "*/*");
            assert(v.deep_view() =~= spec_default_sports_headers());
        }
        v
    }

    /// Does the upstream `Content-Type` name MP4 video?
    pub fn is_mp4_content(content_type: &str) -> (r: bool)
        ensures
            r == spec_contains(content_type@, "video/mp4"@),
    {
        contains_str(content_type, "video/mp4")
    }

    /// M3U8 detection: not MP4, and either the body opens with `#EXT` or the
    /// `Content-Type` mentions a playlist.
    pub fn is_m3u8_content(content_type: &str, body: &[u8]) -> (r: bool)
        ensures
            r == spec_is_m3u8(content_type@, body@),
    {
        if contains_str(content_type, "video/mp4") {
            return false;
        }
        let starts_ext: bool = if body.len() >= 4 {
            let b0 = *slice_index_get(body, 0);
            let b1 = *slice_index_get(body, 1);
            let b2 = *slice_index_get(body, 2);
            let b3 = *slice_index_get(body, 3);
            b0 == 0x23 && b1 == 0x45 && b2 == 0x58 && b3 == 0x54
        } else {
            false
        };
        starts_ext || contains_str(content_type, "mpegurl") || contains_str(content_type, "m3u8")
    }

    /// Classify an upstream status: 2xx proceeds; a 4xx fails and counts
    /// against the client; anything else fails without counting.
    pub fn classify_status(status: u16) -> (r: UpstreamDisposition)
        ensures
            r == spec_classify_status(status as int),
    {
        if 200 <= status && status <= 299 {
            UpstreamDisposition::Proceed
        } else if 400 <= status && status <= 499 {
            UpstreamDisposition::FailAndRecord
        } else {
            UpstreamDisposition::FailSilently
        }
    }

    /// Assemble the playlist response: the rewritten body, compressed as
    /// the client accepts, under playlist headers. Compression into memory
    /// cannot fail, so a response is always produced.
    pub fn build_m3u8_response(processed_body: &str, accept_encoding: Option<&String>) -> (r:
        Result<ProxyResponse, AppError>)
        ensures
            ({
                let enc = spec_encoding_choice(
                    match accept_encoding {
                        Option::Some(v) => Option::Some(v@),
                        Option::None => Option::None,
                    },
                );
                r matches Ok(resp) && resp.status == 200 && spec_body_encodes(
                    resp.body@,
                    vstd::utf8::encode_utf8(processed_body@),
                    enc,
                ) && resp.headers.deep_view() == spec_m3u8_headers(enc, resp.body@.len())
            }),
    {
        let encoding = ContentEncoding::from_accept_encoding(
            match accept_encoding {
                Some(v) => Some(v.as_str()),
                None => None,
            },
        );
        let body = match encoding.compress(processed_body.as_bytes()) {
            Some(b) => b,
            None => {
                return Err(
                    AppError::InternalServerErrorWithContext(
                        String::from_str("Failed to compress response"),
                    ),
                );
            },
        };
        let mut headers: Vec<(String, String)> = Vec::new();
        proof {
            assert(headers.deep_view() =~= Seq::<HeaderPair>::empty());
        }
        push_header(&mut headers, "Content-Type", "application/vnd.apple.mpegurl");
        push_header(&mut headers, "Cache-Control", "no-cache");
        match encoding.as_header_value() {
            Some(enc_value) => {
                push_header(&mut headers, "Content-Encoding", enc_value);
            },
            None => {},
        }
        let len_text = usize_to_string(body.len());
        push_header(&mut headers, "Content-Length", len_text.as_str());
        proof {
            assert(headers.deep_view() =~= spec_m3u8_headers(
                spec_encoding_choice(
                    match accept_encoding {
                        Option::Some(v) => Option::Some(v@),
                        Option::None => Option::None,
                    },
                ),
                body@.len(),
            ));
        }
        Ok(ProxyResponse { status: 200, headers, body })
    }

    /// Assemble the binary (media segment) response: slice the requested
    /// range out of the decompressed body, compress only full bodies, and
    /// answer under media headers with a year-long cache (an hour for MP4).
    /// Compression into memory cannot fail, so a response is always
    /// produced: 206 with the exact slice for a selected range, 200 with
    /// the full body otherwise.
    pub fn build_binary_response(
        decompressed: Vec<u8>,
        content_type: &str,
        range_header: Option<&String>,
        accept_encoding: Option<&String>,
    ) -> (r: Result<ProxyResponse, AppError>)
        ensures
            ({
                let enc = spec_encoding_choice(
                    match accept_encoding {
                        Option::Some(v) => Option::Some(v@),
                        Option::None => Option::None,
                    },
                );
                let is_mp4 = spec_contains(content_type@, "video/mp4"@);
                let ranged = spec_range_decision(
                    match range_header {
                        Option::Some(v) => Option::Some(v@),
                        Option::None => Option::None,
                    },
                    decompressed@.len() as nat,
                );
                r matches Ok(resp) && (match ranged {
                    Some((a, b)) => resp.status == 206 && resp.body@ == decompressed@.subrange(
                        a as int,
                        b as int + 1,
                    ) && resp.headers.deep_view() == spec_binary_headers(
                        is_mp4,
                        Option::Some(spec_content_range(a, b, decompressed@.len() as nat)),
                        ContentEncoding::Identity,
                        resp.body@.len(),
                    ),
                    None => resp.status == 200 && spec_body_encodes(
                        resp.body@,
                        decompressed@,
                        enc,
                    ) && resp.headers.deep_view() == spec_binary_headers(
                        is_mp4,
                        Option::None,
                        enc,
                        resp.body@.len(),
                    ),
                })
            }),
    {
        let is_mp4 = contains_str(content_type, "video/mp4");
        let encoding = ContentEncoding::from_accept_encoding(
            match accept_encoding {
                Some(v) => Some(v.as_str()),
                None => None,
            },
        );
        let ranged = apply_range(decompressed, range_header);
        let partial = ranged.status == 206;
        let final_encoding: ContentEncoding = if partial {
            ContentEncoding::Identity
        } else {
            encoding
        };
        let body = match final_encoding.compress(ranged.body.as_slice()) {
            Some(b) => b,
            None => {
                return Err(
                    AppError::InternalServerErrorWithContext(
                        String::from_str("Failed to compress response"),
                    ),
                );
            },
        };
        let mut headers: Vec<(String, String)> = Vec::new();
        proof {
            assert(headers.deep_view() =~= Seq::<HeaderPair>::empty());
        }
        push_header(&mut headers, "Content-Type", "video/mp2t");
        if is_mp4 {
            push_header(&mut headers, "Cache-Control", "public, max-age=3600");
        } else {
            push_header(&mut headers, "Cache-Control", "public, max-age=31536000");
        }
        push_header(&mut headers, "Accept-Ranges", "bytes");
        match &ranged.content_range {
            Some(cr) => {
                push_header(&mut headers, "Content-Range", cr.as_str());
            },
            None => {},
        }
        match final_encoding.as_header_value() {
            Some(enc_value) => {
                push_header(&mut headers, "Content-Encoding", enc_value);
            },
            None => {},
        }
        let len_text = usize_to_string(body.len());
        push_header(&mut headers, "Content-Length", len_text.as_str());
        Ok(ProxyResponse { status: ranged.status, headers, body })
    }
}

/// What an upstream status means for the request.
#[derive(Debug, Clone, Copy, PartialEq, Eq, Structural)]
pub enum UpstreamDisposition {
    /// A success: serve the body.
    Proceed,
    /// A client error upstream: fail the request and count the error
    /// against the client.
    FailAndRecord,
    /// Any other failure: fail the request without counting it.
    FailSilently,
}

/// The classification `classify_status` answers with.
pub open spec fn spec_classify_status(status: int) -> UpstreamDisposition {
    if 200 <= status <= 299 {
        UpstreamDisposition::Proceed
    } else if 400 <= status <= 499 {
        UpstreamDisposition::FailAndRecord
    } else {
        UpstreamDisposition::FailSilently
    }
}

/// M3U8 detection over the decompressed body and the `Content-Type`.
pub open spec fn spec_is_m3u8(content_type: Seq<char>, body: Seq<u8>) -> bool {
    if spec_contains(content_type, "video/mp4"@) {
        false
    } else {
        (body.len() >= 4 && body[0] == 0x23 && body[1] == 0x45 && body[2] == 0x58 && body[3]
            == 0x54) || spec_contains(content_type, "mpegurl"@) || spec_contains(
            content_type,
            "m3u8"@,
        )
    }
}

/// An assembled response: status, headers in order, and the body.
pub struct ProxyResponse {
    /// The HTTP status.
    pub status: u16,
    /// Response headers, in the order they are set.
    pub headers: Vec<(String, String)>,
    /// The response body.
    pub body: Vec<u8>,
}

/// The served body carries the payload under the chosen encoding: as-is for
/// identity, else bytes the matching decoder turns back into the payload.
pub open spec fn spec_body_encodes(
    body: Seq<u8>,
    payload: Seq<u8>,
    enc: ContentEncoding,
) -> bool {
    match enc {
        ContentEncoding::Identity => body == payload,
        ContentEncoding::Zstd => zstd_unzip_of(body) == Some(payload),
        ContentEncoding::Gzip => gunzip_of(body) == Some(payload),
    }
}

/// The playlist response's headers.
pub open spec fn spec_m3u8_headers(enc: ContentEncoding, body_len: nat) -> Seq<HeaderPair> {
    let head = seq![
        ("Content-Type"@, "application/vnd.apple.mpegurl"@),
        ("Cache-Control"@, "no-cache"@),
    ];
    let with_enc = match enc {
        ContentEncoding::Zstd => head.push(("Content-Encoding"@, "zstd"@)),
        ContentEncoding::Gzip => head.push(("Content-Encoding"@, "gzip"@)),
        ContentEncoding::Identity => head,
    };
    with_enc.push(("Content-Length"@, spec_dec_nat(body_len)))
}

/// The binary response's headers.
pub open spec fn spec_binary_headers(
    is_mp4: bool,
    content_range: Option<Seq<char>>,
    enc: ContentEncoding,
    body_len: nat,
) -> Seq<HeaderPair> {
    let cache = if is_mp4 {
        "public, max-age=3600"@
    } else {
        "public, max-age=31536000"@
    };
    let head = seq![
        ("Content-Type"@, "video/mp2t"@),
        ("Cache-Control"@, cache),
        ("Accept-Ranges"@, "bytes"@),
    ];
    let with_range = match content_range {
        Option::Some(cr) => head.push(("Content-Range"@, cr)),
        Option::None => head,
    };
    let with_enc = match enc {
        ContentEncoding::Zstd => with_range.push(("Content-Encoding"@, "zstd"@)),
        ContentEncoding::Gzip => with_range.push(("Content-Encoding"@, "gzip"@)),
        ContentEncoding::Identity => with_range,
    };
    with_enc.push(("Content-Length"@, spec_dec_nat(body_len)))
}

} // verus!
