//! Named results for the cryptographic digests the proxy relies on.
//!
//! The digests themselves are computed by outside crates; the library names
//! their results and proves everything around them.

use vstd::prelude::*;

verus! {

/// The SHA-256 digest of a byte string: a function of the input alone.
pub uninterp spec fn sha256_of(data: Seq<u8>) -> Seq<u8>;

/// The HMAC-SHA256 tag for a key and a message: a function of the two alone.
pub uninterp spec fn hmac_sha256_of(key: Seq<u8>, msg: Seq<u8>) -> Seq<u8>;

/// Relies on `sha2::Sha256`: the digest depends on the input bytes alone and
/// is exactly 32 bytes long.
#[verifier::external_body]
pub fn sha256_digest(data: &[u8]) -> (r: Vec<u8>)
    ensures
        r@ == sha256_of(data@),
        r@.len() == 32,
{
    let mut hasher = <sha2::Sha256 as sha2::Digest>::new();
    sha2::Digest::update(&mut hasher, data);
    sha2::Digest::finalize(hasher).to_vec()
}

/// Relies on `hmac::Hmac<sha2::Sha256>`: the tag depends on key and message
/// alone and is exactly 32 bytes long. `new_from_slice` accepts keys of any
/// length, so the construction cannot fail.
#[verifier::external_body]
pub fn hmac_sha256(key: &[u8], msg: &[u8]) -> (r: Vec<u8>)
    ensures
        r@ == hmac_sha256_of(key@, msg@),
        r@.len() == 32,
{
    let mut mac = <hmac::Hmac<sha2::Sha256> as hmac::Mac>::new_from_slice(key).expect(
        "HMAC accepts keys of any length",
    );
    hmac::Mac::update(&mut mac, msg);
    hmac::Mac::finalize(mac).into_bytes().to_vec()
}

} // verus!
