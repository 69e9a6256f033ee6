//! Request authentication: the client fingerprint and the signed-URL check.
//!
//! Every request gets a client identifier hashed from its IP and
//! `User-Agent`; requests carrying `sig` and `exp` must also present a
//! valid signature over the raw `url` token, under the query's `client`
//! identity when given.

use vstd::prelude::*;
use vstd::string::*;

use crate::errors::AppError;
use crate::signature::{spec_verify_at, SignatureUtil};
use crate::textutil::{
    parse_i64, spec_parse_i64, spec_split, spec_trim, split_str, starts_with_str, substr_copy,
    trim_str,
};

verus! {

/// The fingerprint an (IP, User-Agent) pair hashes to: a function of the
/// two strings alone within one build of the library.
pub uninterp spec fn client_id_of(ip: Seq<char>, ua: Seq<char>) -> Seq<char>;

/// Relies on `std::collections::hash_map::DefaultHasher` (with `str`'s
/// `Hash` and `format!`): hashing the two strings in order and printing the
/// 64-bit result in hex is a function of the strings alone.
#[verifier::external_body]
fn client_fingerprint(ip: &str, ua: &str) -> (r: String)
    ensures
        r@ == client_id_of(ip@, ua@),
{
    let mut hasher = std::collections::hash_map::DefaultHasher::new();
    std::hash::Hash::hash(ip, &mut hasher);
    std::hash::Hash::hash(ua, &mut hasher);
    format!("{:x}", std::hash::Hasher::finish(&hasher))
}

/// The client identifier for a request: the fingerprint of its IP and
/// `User-Agent`, each read as `unknown` when missing so hashing is total.
pub fn generate_client_id(ip: Option<&str>, user_agent: Option<&str>) -> (r: String)
    ensures
        r@ == client_id_of(
            match ip {
                Option::Some(v) => v@,
                Option::None => "unknown"@,
            },
            match user_agent {
                Option::Some(v) => v@,
                Option::None => "unknown"@,
            },
        ),
{
    let ip_value = match ip {
        Some(v) => v,
        None => "unknown",
    };
    let ua_value = match user_agent {
        Some(v) => v,
        None => "unknown",
    };
    client_fingerprint(ip_value, ua_value)
}

/// The client IP a request reports: the first comma-separated entry of
/// `X-Forwarded-For` (trimmed), else `X-Real-IP`, else the peer address.
pub open spec fn spec_client_ip(
    forwarded_for: Option<Seq<char>>,
    real_ip: Option<Seq<char>>,
    peer: Option<Seq<char>>,
) -> Option<Seq<char>> {
    match forwarded_for {
        Option::Some(v) => Option::Some(spec_trim(spec_split(v, seq![','])[0])),
        Option::None => match real_ip {
            Option::Some(v) => Option::Some(v),
            Option::None => peer,
        },
    }
}

/// Pick the client IP out of the request's headers and peer address.
pub fn extract_client_ip(
    forwarded_for: Option<&String>,
    real_ip: Option<&String>,
    peer: Option<&String>,
) -> (r: Option<String>)
    ensures
        r.deep_view() == spec_client_ip(
            match forwarded_for {
                Option::Some(v) => Option::Some(v@),
                Option::None => Option::None,
            },
            match real_ip {
                Option::Some(v) => Option::Some(v@),
                Option::None => Option::None,
            },
            match peer {
                Option::Some(v) => Option::Some(v@),
                Option::None => Option::None,
            },
        ),
{
    match forwarded_for {
        Some(v) => {
            proof {
                reveal_strlit(",");
                assert(","@ =~= seq![',']);
            }
            let parts = split_str(v.as_str(), ",");
            proof {
                assert(parts.deep_view().len() > 0);
                assert(parts.deep_view()[0] == parts@[0]@);
            }
            let first = &parts[0];
            Some(trim_str(first.as_str()))
        },
        None => match real_ip {
            Some(v) => Some(v.clone()),
            None => match peer {
                Some(v) => Some(v.clone()),
                None => None,
            },
        },
    }
}

/// The raw `url=` token of a query string: the remainder of the first
/// `&`-separated part that starts with `url=`, exactly as it stands (the
/// signature covers the token form, not the decoded URL).
pub open spec fn spec_raw_url_param(parts: Seq<Seq<char>>) -> Option<Seq<char>>
    decreases parts.len(),
{
    if parts.len() == 0 {
        None
    } else if 4 <= parts[0].len() && parts[0].subrange(0, 4) == "url="@ {
        Some(parts[0].subrange(4, parts[0].len() as int))
    } else {
        spec_raw_url_param(parts.drop_first())
    }
}

/// Find the raw `url=` token in a query string.
pub fn raw_url_param(query: &str) -> (r: Option<String>)
    ensures
        r.deep_view() == spec_raw_url_param(spec_split(query@, seq!['&'])),
{
    proof {
        reveal_strlit("&");
        assert("&"@ =~= seq!['&']);
        reveal_strlit("url=");
    }
    let parts = split_str(query, "&");
    let n = parts.len();
    let mut i: usize = 0;
    proof {
        assert(parts.deep_view().skip(0) =~= parts.deep_view());
    }
    while i < n
        invariant
            n == parts@.len(),
            0 <= i <= n,
            spec_raw_url_param(parts.deep_view()) == spec_raw_url_param(
                parts.deep_view().skip(i as int),
            ),
            parts.deep_view() == spec_split(query@, seq!['&']),
        decreases n - i,
    {
        let part = &parts[i];
        proof {
            reveal_strlit("url=");
            assert(part@ == parts.deep_view()[i as int]);
            assert(parts.deep_view().skip(i as int)[0] == parts.deep_view()[i as int]);
            assert(parts.deep_view().skip(i as int).drop_first() =~= parts.deep_view().skip(i + 1));
        }
        if starts_with_str(part.as_str(), "url=") {
            let pn = part.as_str().unicode_len();
            let token = substr_copy(part.as_str(), 4, pn);
            return Some(token);
        }
        i += 1;
    }
    proof {
        assert(parts.deep_view().skip(n as int) =~= Seq::<Seq<char>>::empty());
    }
    None
}

/// What the signed-URL check concludes at a known time. Requests without
/// the `sig`/`exp` pair pass (they are still rate limited); with the pair,
/// the expiry must parse as a signed integer, the raw `url` token must be
/// present, and the signature must verify for the query's `client` identity
/// (the derived identifier when absent).
pub open spec fn spec_authenticated(
    secret: Seq<char>,
    sig: Option<Seq<char>>,
    exp: Option<Seq<char>>,
    client: Option<Seq<char>>,
    query: Seq<char>,
    derived_client: Seq<char>,
    now: int,
) -> bool {
    match (sig, exp) {
        (Option::Some(s), Option::Some(e)) => {
            &&& spec_parse_i64(e) is Some
            &&& spec_raw_url_param(spec_split(query, seq!['&'])) is Some
            &&& spec_verify_at(
                secret,
                match client {
                    Option::Some(c) => c,
                    Option::None => derived_client,
                },
                spec_parse_i64(e).unwrap() as int,
                spec_raw_url_param(spec_split(query, seq!['&'])).unwrap(),
                s,
                now,
            )
        },
        _ => true,
    }
}

/// Check a request's signed-URL parameters at a known time: exactly the
/// requests `spec_authenticated` admits pass; all others are unauthorized.
pub fn authenticate_at(
    signer: &SignatureUtil,
    sig: Option<&String>,
    exp: Option<&String>,
    client: Option<&String>,
    query: &str,
    derived_client: &str,
    now: i64,
) -> (r: Result<(), AppError>)
    ensures
        ({
            let ok = spec_authenticated(
                signer.spec_secret(),
                match sig {
                    Option::Some(v) => Option::Some(v@),
                    Option::None => Option::None,
                },
                match exp {
                    Option::Some(v) => Option::Some(v@),
                    Option::None => Option::None,
                },
                match client {
                    Option::Some(v) => Option::Some(v@),
                    Option::None => Option::None,
                },
                query@,
                derived_client@,
                now as int,
            );
            match r {
                Ok(()) => ok,
                Err(e) => !ok && e matches AppError::Unauthorized,
            }
        }),
{
    let (sig_value, exp_value) = match (sig, exp) {
        (Some(s), Some(e)) => (s, e),
        _ => {
            return Ok(());
        },
    };
    let expiry = match parse_i64(exp_value.as_str()) {
        Some(v) => v,
        None => {
            return Err(AppError::Unauthorized);
        },
    };
    let url_token = match raw_url_param(query) {
        Some(t) => t,
        None => {
            return Err(AppError::Unauthorized);
        },
    };
    let signing_identity: &str = match client {
        Some(c) => c.as_str(),
        None => derived_client,
    };
    if signer.verify_signature_at(
        signing_identity,
        expiry,
        url_token.as_str(),
        sig_value.as_str(),
        now,
    ) {
        Ok(())
    } else {
        Err(AppError::Unauthorized)
    }
}

} // verus!
