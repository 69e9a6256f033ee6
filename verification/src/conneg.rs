//! Content negotiation: choosing a response encoding from the client's
//! `Accept-Encoding`, and compressing or decompressing bodies through the
//! outside codecs.
//!
//! Decompression is deterministic, so each codec's decoding is a named
//! function; a compressor is trusted only to produce bytes its own decoder
//! turns back into the input.

use vstd::prelude::*;
use vstd::slice::slice_to_vec;
use vstd::string::*;

use crate::errors::AppError;
use crate::textutil::{contains_str, spec_contains, str_eq, starts_with_str};

verus! {

/// The response encodings the proxy can apply.
#[derive(Debug, Clone, Copy, PartialEq, Eq, Structural)]
pub enum ContentEncoding {
    Zstd,
    Gzip,
    Identity,
}

/// The encoding chosen for a client's `Accept-Encoding` value: identity
/// when the client insists on it, else zstd when mentioned, else gzip when
/// mentioned, else identity.
pub open spec fn spec_encoding_choice(accept: Option<Seq<char>>) -> ContentEncoding {
    match accept {
        Option::None => ContentEncoding::Identity,
        Option::Some(v) => {
            if v == "identity"@ || ("identity,"@.len() <= v.len() && v.subrange(
                0,
                "identity,"@.len() as int,
            ) == "identity,"@) {
                ContentEncoding::Identity
            } else if spec_contains(v, "zstd"@) {
                ContentEncoding::Zstd
            } else if spec_contains(v, "gzip"@) {
                ContentEncoding::Gzip
            } else {
                ContentEncoding::Identity
            }
        },
    }
}

impl ContentEncoding {
    /// Choose the best encoding for an `Accept-Encoding` header value.
    pub fn from_accept_encoding(accept_encoding: Option<&str>) -> (r: Self)
        ensures
            r == spec_encoding_choice(
                match accept_encoding {
                    Option::Some(v) => Option::Some(v@),
                    Option::None => Option::None,
                },
            ),
    {
        match accept_encoding {
            Option::Some(v) => {
                if str_eq(v, "identity") || starts_with_str(v, "identity,") {
                    ContentEncoding::Identity
                } else if contains_str(v, "zstd") {
                    ContentEncoding::Zstd
                } else if contains_str(v, "gzip") {
                    ContentEncoding::Gzip
                } else {
                    ContentEncoding::Identity
                }
            },
            Option::None => ContentEncoding::Identity,
        }
    }

    /// The `Content-Encoding` value to answer with, if any.
    pub fn as_header_value(&self) -> (r: Option<&'static str>)
        ensures
            match self {
                ContentEncoding::Zstd => r matches Some(v) && v@ == "zstd"@,
                ContentEncoding::Gzip => r matches Some(v) && v@ == "gzip"@,
                ContentEncoding::Identity => r is None,
            },
    {
        match self {
            ContentEncoding::Zstd => Some("zstd"),
            ContentEncoding::Gzip => Some("gzip"),
            ContentEncoding::Identity => None,
        }
    }

    /// Compress a body under this encoding; identity passes it through.
    /// Compression always succeeds, and the result is one the matching
    /// decoder turns back into `data`.
    pub fn compress(&self, data: &[u8]) -> (r: Option<Vec<u8>>)
        ensures
            match self {
                ContentEncoding::Zstd => (r matches Some(v) && zstd_unzip_of(v@) == Some(data@)),
                ContentEncoding::Gzip => (r matches Some(v) && gunzip_of(v@) == Some(data@)),
                ContentEncoding::Identity => (r matches Some(v) && v@ == data@),
            },
    {
        match self {
            ContentEncoding::Zstd => zstd_compress(data, 3),
            ContentEncoding::Gzip => gzip_compress(data),
            ContentEncoding::Identity => Some(slice_to_vec(data)),
        }
    }
}

/// What gzip-decoding a byte string yields, when it is a well-formed gzip
/// stream: a function of the bytes alone.
pub uninterp spec fn gunzip_of(b: Seq<u8>) -> Option<Seq<u8>>;

/// What zstd-decoding a byte string yields, when it is a well-formed zstd
/// frame: a function of the bytes alone.
pub uninterp spec fn zstd_unzip_of(b: Seq<u8>) -> Option<Seq<u8>>;

/// Relies on `flate2::read::GzDecoder`: decoding is a function of the
/// bytes alone; it fails exactly where the named decoding has no value.
#[verifier::external_body]
pub fn gzip_decompress(data: &[u8]) -> (r: Option<Vec<u8>>)
    ensures
        r matches Some(v) ==> gunzip_of(data@) == Some(v@),
        r is None ==> gunzip_of(data@) is None,
{
    let mut decoder = flate2::read::GzDecoder::new(data);
    let mut out: Vec<u8> = Vec::new();
    match std::io::Read::read_to_end(&mut decoder, &mut out) {
        Ok(_) => Some(out),
        Err(_) => None,
    }
}

/// Relies on `flate2::write::GzEncoder`: what it produces, its own decoder
/// reads back as the input, and writing into an in-memory buffer cannot
/// fail, so compression always succeeds.
#[verifier::external_body]
pub fn gzip_compress(data: &[u8]) -> (r: Option<Vec<u8>>)
    ensures
        r is Some,
        r matches Some(v) ==> gunzip_of(v@) == Some(data@),
{
    let mut encoder = flate2::write::GzEncoder::new(Vec::new(), flate2::Compression::default());
    match std::io::Write::write_all(&mut encoder, data) {
        Ok(()) => encoder.finish().ok(),
        Err(_) => None,
    }
}

/// Relies on `zstd::stream::decode_all`: decoding is a function of the
/// bytes alone; it fails exactly where the named decoding has no value.
#[verifier::external_body]
pub fn zstd_decompress(data: &[u8]) -> (r: Option<Vec<u8>>)
    ensures
        r matches Some(v) ==> zstd_unzip_of(data@) == Some(v@),
        r is None ==> zstd_unzip_of(data@) is None,
{
    zstd::stream::decode_all(data).ok()
}

/// Relies on `zstd::stream::encode_all`: what it produces at any level,
/// `decode_all` reads back as the input; the level is clamped into zstd's
/// valid range and writing into an in-memory buffer cannot fail, so
/// compression always succeeds.
#[verifier::external_body]
pub fn zstd_compress(data: &[u8], level: i32) -> (r: Option<Vec<u8>>)
    ensures
        r is Some,
        r matches Some(v) ==> zstd_unzip_of(v@) == Some(data@),
{
    zstd::stream::encode_all(data, level).ok()
}

/// What the upstream body decompresses to under its declared
/// `Content-Encoding`: an undeclared or unknown encoding is identity.
pub open spec fn spec_decompressed(enc: Option<Seq<char>>, b: Seq<u8>) -> Option<Seq<u8>> {
    match enc {
        Option::Some(e) => {
            if e == "zstd"@ {
                zstd_unzip_of(b)
            } else if e == "gzip"@ {
                gunzip_of(b)
            } else {
                Some(b)
            }
        },
        Option::None => Some(b),
    }
}

/// Decompress an upstream body as its `Content-Encoding` declares; a body
/// that fails to decode is an internal error.
pub fn decompress_body(content_encoding: Option<&String>, bytes: &[u8]) -> (r: Result<
    Vec<u8>,
    AppError,
>)
    ensures
        ({
            let enc = match content_encoding {
                Option::Some(e) => Option::Some(e@),
                Option::None => Option::None,
            };
            match r {
                Ok(v) => spec_decompressed(enc, bytes@) == Some(v@),
                Err(e) => spec_decompressed(enc, bytes@) is None && (e
                    matches AppError::InternalServerErrorWithContext(m) && m@
                    == "Failed to decompress response"@),
            }
        }),
{
    let outcome: Option<Vec<u8>> = match content_encoding {
        Some(e) => {
            if str_eq(e.as_str(), "zstd") {
                zstd_decompress(bytes)
            } else if str_eq(e.as_str(), "gzip") {
                gzip_decompress(bytes)
            } else {
                Some(slice_to_vec(bytes))
            }
        },
        None => Some(slice_to_vec(bytes)),
    };
    match outcome {
        Some(v) => Ok(v),
        None => Err(
            AppError::InternalServerErrorWithContext(
                String::from_str("Failed to decompress response"),
            ),
        ),
    }
}

} // verus!
