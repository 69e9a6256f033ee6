//! HMAC-SHA256 signing and checking of proxy URLs.
//!
//! A signature covers the UTF-8 concatenation `client_id ‖ decimal(expiry) ‖
//! url_token` under a process-lifetime secret, hex-encoded lowercase. A
//! signature verifies only while `now <= expiry` and the recomputed tag is
//! byte-equal, compared in constant time.

use vstd::prelude::*;
use vstd::string::*;
use vstd::utf8::*;

use crate::digest::{hmac_sha256, hmac_sha256_of};
use crate::hexcode::{hex_encode, lemma_hex_len, spec_hex_of};
use crate::textutil::{i64_to_string, spec_dec_int};
use crate::clock::now_unix;

verus! {

broadcast use vstd::utf8::encode_utf8_decode_utf8;

/// The message a signature covers.
pub open spec fn spec_sig_message(client_id: Seq<char>, expiry: int, url: Seq<char>) -> Seq<char> {
    client_id + spec_dec_int(expiry) + url
}

/// The signature for a message under a secret: the lowercase hex form of the
/// HMAC-SHA256 tag over the UTF-8 bytes.
pub open spec fn spec_signature(
    secret: Seq<char>,
    client_id: Seq<char>,
    expiry: int,
    url: Seq<char>,
) -> Seq<char> {
    spec_hex_of(
        hmac_sha256_of(
            encode_utf8(secret),
            encode_utf8(spec_sig_message(client_id, expiry, url)),
        ),
    )
}

/// What checking a signature at a known time concludes: the time has not
/// passed the expiry, and the signature is the one the secret produces.
pub open spec fn spec_verify_at(
    secret: Seq<char>,
    client_id: Seq<char>,
    expiry: int,
    url: Seq<char>,
    sig: Seq<char>,
    now: int,
) -> bool {
    now <= expiry && sig == spec_signature(secret, client_id, expiry, url)
}

/// Signer and checker for proxy URLs, holding the process-lifetime secret.
pub struct SignatureUtil {
    secret: String,
}

/// Byte-for-byte equality of two strings, folded through a running `or` so
/// the work done does not depend on where the first difference sits.
fn constant_time_eq(a: &str, b: &str) -> (r: bool)
    ensures
        r == (a@ == b@),
{
    let av = a.as_bytes_vec();
    let bv = b.as_bytes_vec();
    if av.len() != bv.len() {
        proof {
            if a@ == b@ {
                assert(encode_utf8(a@) == encode_utf8(b@));
            }
        }
        return false;
    }
    let n = av.len();
    let mut acc: u8 = 0;
    let mut i: usize = 0;
    while i < n
        invariant
            n == av@.len(),
            n == bv@.len(),
            0 <= i <= n,
            (acc == 0) == (av@.subrange(0, i as int) =~= bv@.subrange(0, i as int)),
        decreases n - i,
    {
        let x = av[i];
        let y = bv[i];
        let ghost acc0 = acc;
        acc = acc | (x ^ y);
        proof {
            assert((acc0 | (x ^ y)) == 0 <==> acc0 == 0 && x == y) by (bit_vector);
            if acc == 0 {
                assert(av@.subrange(0, i + 1) =~= bv@.subrange(0, i + 1));
            } else {
                if av@.subrange(0, i + 1) =~= bv@.subrange(0, i + 1) {
                    assert(av@.subrange(0, i + 1)[i as int] == av@[i as int]);
                    assert(forall|j: int|
                        0 <= j < i ==> av@.subrange(0, i + 1)[j] == av@.subrange(0, i as int)[j]);
                    assert(av@.subrange(0, i as int) =~= bv@.subrange(0, i as int));
                    assert(false);
                }
            }
        }
        i += 1;
    }
    proof {
        assert(av@.subrange(0, n as int) =~= av@);
        assert(bv@.subrange(0, n as int) =~= bv@);
        if av@ == bv@ {
            assert(decode_utf8(encode_utf8(a@)) == decode_utf8(encode_utf8(b@)));
        }
    }
    acc == 0
}

impl SignatureUtil {
    /// The secret this signer was built with.
    pub closed spec fn spec_secret(&self) -> Seq<char> {
        self.secret@
    }

    /// Build a signer around a secret.
    pub fn new(secret: String) -> (r: Self)
        ensures
            r.spec_secret() == secret@,
    {
        SignatureUtil { secret }
    }

    /// The signature for `(client_id, expiry, url)` under this secret:
    /// 64 lowercase hex characters.
    pub fn generate_signature(&self, client_id: &str, expiry: i64, url: &str) -> (r: String)
        ensures
            r@ == spec_signature(self.spec_secret(), client_id@, expiry as int, url@),
            r@.len() == 64,
    {
        let mut message = String::from_str(client_id);
        let expiry_text = i64_to_string(expiry);
        message.append(expiry_text.as_str());
        message.append(url);
        assert(message@ == spec_sig_message(client_id@, expiry as int, url@));
        let tag = hmac_sha256(self.secret.as_str().as_bytes(), message.as_str().as_bytes());
        let r = hex_encode(tag.as_slice());
        proof {
            lemma_hex_len(tag@);
        }
        r
    }

    /// Check a signature against a known time: accepted exactly when the time
    /// has not passed the expiry and the signature is the one this secret
    /// produces for these inputs.
    pub fn verify_signature_at(
        &self,
        client_id: &str,
        expiry: i64,
        url: &str,
        signature: &str,
        now: i64,
    ) -> (r: bool)
        ensures
            r == spec_verify_at(
                self.spec_secret(),
                client_id@,
                expiry as int,
                url@,
                signature@,
                now as int,
            ),
    {
        if now > expiry {
            return false;
        }
        let expected = self.generate_signature(client_id, expiry, url);
        constant_time_eq(signature, expected.as_str())
    }

    /// Check a signature against the wall clock. The clock is read from the
    /// environment, so the exact outcome is stated by `verify_signature_at`;
    /// whatever the clock said, acceptance means the signature is the one
    /// this secret produces for these inputs.
    pub fn verify_signature(
        &self,
        client_id: &str,
        expiry: i64,
        url: &str,
        signature: &str,
    ) -> (r: bool)
        ensures
            r ==> signature@ == spec_signature(
                self.spec_secret(),
                client_id@,
                expiry as int,
                url@,
            ),
    {
        let now = now_unix();
        self.verify_signature_at(client_id, expiry, url, signature, now)
    }

    /// `now + hours * 3600` for a known time, free of overflow.
    pub fn generate_expiry_at(hours: i64, now: i64) -> (r: i64)
        requires
            0 <= hours,
            0 <= now,
            now + hours * 3600 <= i64::MAX,
        ensures
            r == now + hours * 3600,
    {
        now + hours * 3600
    }

    /// An expiry `hours` hours past the wall clock. The clock is read from
    /// the environment; if the sum would not fit, the farthest representable
    /// instant is returned instead.
    pub fn generate_expiry(hours: i64) -> (r: i64)
        requires
            0 <= hours,
            hours * 3600 <= i64::MAX,
        ensures
            r >= 0,
    {
        let now = now_unix();
        let offset = hours * 3600;
        if now <= i64::MAX - offset {
            now + offset
        } else {
            i64::MAX
        }
    }
}

/// Law: checking a freshly produced signature for the same `(client_id,
/// expiry, url)` succeeds exactly while `now <= expiry`, and fails once
/// `now > expiry`.
pub proof fn lemma_sign_then_verify(
    secret: Seq<char>,
    client_id: Seq<char>,
    expiry: int,
    url: Seq<char>,
    now: int,
)
    ensures
        spec_verify_at(
            secret,
            client_id,
            expiry,
            url,
            spec_signature(secret, client_id, expiry, url),
            now,
        ) == (now <= expiry),
{
}

/// Law: any signature other than the one the secret produces for these
/// inputs is rejected, whatever the time.
pub proof fn lemma_verify_rejects_forgery(
    secret: Seq<char>,
    client_id: Seq<char>,
    expiry: int,
    url: Seq<char>,
    sig: Seq<char>,
    now: int,
)
    requires
        sig != spec_signature(secret, client_id, expiry, url),
    ensures
        !spec_verify_at(secret, client_id, expiry, url, sig, now),
{
}

} // verus!
