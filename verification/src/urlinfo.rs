//! What the library reads out of a URL, through the `url` crate.
//!
//! Parsing and reference resolution follow the WHATWG URL standard; their
//! results are functions of the input strings alone, so they are named here
//! and everything around them is verified.

use vstd::prelude::*;

verus! {

/// Whether `url::Url::parse` accepts the string as an absolute URL.
pub uninterp spec fn url_is_valid(url: Seq<char>) -> bool;

/// The scheme of a valid URL.
pub uninterp spec fn url_scheme_of(url: Seq<char>) -> Seq<char>;

/// The host of a valid URL, if it has one.
pub uninterp spec fn url_host_of(url: Seq<char>) -> Option<Seq<char>>;

/// The path of a valid URL.
pub uninterp spec fn url_path_of(url: Seq<char>) -> Seq<char>;

/// Relies on `url::Url::parse`, `Url::scheme`, `Url::host_str` and
/// `Url::path`: whether the string parses, and each part read from it,
/// depend on the URL string alone.
#[verifier::external_body]
pub fn url_parts(url: &str) -> (r: Option<(String, Option<String>, String)>)
    ensures
        r is Some <==> url_is_valid(url@),
        r matches Some((scheme, host, path)) ==> scheme@ == url_scheme_of(url@)
            && host.deep_view() == url_host_of(url@) && path@ == url_path_of(url@),
{
    match url::Url::parse(url) {
        Ok(u) => Some(
            (u.scheme().to_string(), u.host_str().map(|h| h.to_string()), u.path().to_string()),
        ),
        Err(_) => None,
    }
}

/// The URL that resolving the reference `rel` against the base URL `base`
/// yields, when both steps succeed.
pub uninterp spec fn url_resolve_of(base: Seq<char>, rel: Seq<char>) -> Option<Seq<char>>;

/// Relies on `url::Url::parse`, `Url::join` and `Url::as_str`: resolving a
/// reference against a base URL is a function of the two strings alone.
#[verifier::external_body]
pub fn url_resolve(base: &str, rel: &str) -> (r: Option<String>)
    ensures
        r.deep_view() == url_resolve_of(base@, rel@),
{
    match url::Url::parse(base) {
        Ok(b) => match b.join(rel) {
            Ok(u) => Some(u.as_str().to_string()),
            Err(_) => None,
        },
        Err(_) => None,
    }
}

/// The uppercase hex character for a value in `[0, 16)`.
pub open spec fn spec_hex_upper_digit(d: int) -> char {
    if d < 10 {
        (48 + d) as u8 as char
    } else {
        (55 + d) as u8 as char
    }
}

/// The bytes percent-encoding leaves as they stand: alphanumerics and
/// `-`, `.`, `_`, `~`.
pub open spec fn spec_pct_unreserved(b: u8) -> bool {
    (48 <= b <= 57) || (65 <= b <= 90) || (97 <= b <= 122) || b == 45 || b == 46 || b == 95 || b
        == 126
}

/// Percent-encoding of a byte string: unreserved bytes stand as their own
/// characters, every other byte becomes `%` and two uppercase hex digits.
pub open spec fn spec_percent_encode(bytes: Seq<u8>) -> Seq<char>
    decreases bytes.len(),
{
    if bytes.len() == 0 {
        Seq::empty()
    } else {
        let b = bytes.first();
        (if spec_pct_unreserved(b) {
            seq![b as char]
        } else {
            seq![
                '%',
                spec_hex_upper_digit((b >> 4) as int),
                spec_hex_upper_digit((b & 15) as int),
            ]
        }) + spec_percent_encode(bytes.drop_first())
    }
}

/// Relies on `urlencoding::encode`: percent-encodes every byte of the
/// string's UTF-8 form except alphanumerics and `-`, `_`, `.`, `~`, with
/// uppercase hex digits, exactly as `spec_percent_encode` states it.
#[verifier::external_body]
pub fn percent_encode(s: &str) -> (r: String)
    ensures
        r@ == spec_percent_encode(vstd::utf8::encode_utf8(s@)),
{
    urlencoding::encode(s).into_owned()
}

/// What percent-decoding a string yields, when the decoded bytes are valid
/// UTF-8: a function of the string alone.
pub uninterp spec fn percent_decode_of(s: Seq<char>) -> Option<Seq<char>>;

/// Relies on `urlencoding::decode`: resolves `%xx` escapes (leaving
/// malformed ones as they stand) and fails only on invalid UTF-8; a
/// function of the string alone.
#[verifier::external_body]
pub fn percent_decode(s: &str) -> (r: Option<String>)
    ensures
        r.deep_view() == percent_decode_of(s@),
{
    match urlencoding::decode(s) {
        Ok(decoded) => Some(decoded.into_owned()),
        Err(_) => None,
    }
}

} // verus!
