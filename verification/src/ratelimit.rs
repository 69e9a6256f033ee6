//! Per-client rate limiting: a sliding-window request counter, an error
//! counter, and a timeout record, all kept in the key-value store.
//!
//! The store round trips happen outside; this module holds the keys, the
//! configuration, and the decisions taken on what the store answered, each
//! with an exact contract. Store failures are fail-open: the request is
//! allowed with nothing remaining.

use vstd::prelude::*;
use vstd::string::*;

use crate::textutil::{spec_dec_nat, u64_to_string, u32_to_string};

verus! {

/// Tunables for the limiter, all in requests or seconds.
pub struct RateLimitConfig {
    /// Maximum requests per window for general API calls.
    pub max_requests_per_window: u32,
    /// Window duration in seconds for rate limiting.
    pub window_seconds: u64,
    /// Maximum errors before a user gets timed out.
    pub max_errors_before_timeout: u32,
    /// Error tracking window in seconds.
    pub error_window_seconds: u64,
    /// Timeout duration in seconds when the error threshold is exceeded.
    pub timeout_duration_seconds: u64,
}

impl Default for RateLimitConfig {
    /// The stock limits: 500 requests per minute; 50 errors within ten
    /// minutes bring a five-minute timeout.
    fn default() -> (r: Self)
        ensures
            r.max_requests_per_window == 500,
            r.window_seconds == 60,
            r.max_errors_before_timeout == 50,
            r.error_window_seconds == 600,
            r.timeout_duration_seconds == 300,
    {
        RateLimitConfig {
            max_requests_per_window: 500,
            window_seconds: 60,
            max_errors_before_timeout: 50,
            error_window_seconds: 600,
            timeout_duration_seconds: 300,
        }
    }
}

/// What the limiter answers for one request.
#[derive(Debug, Clone)]
pub enum RateLimitResult {
    /// The request may proceed.
    Allowed { remaining: u32, reset_at: i64 },
    /// The client exceeded the per-window maximum.
    RateLimited { retry_after: u64 },
    /// The client is timed out after too many errors.
    TimedOut { reason: String, retry_after: u64 },
}

/// The limiter's operations; the store round trips are implemented outside,
/// around this module's verified decisions.
pub trait RateLimitServiceTrait {
    fn check_rate_limit(&self, client_id: &str) -> RateLimitResult;

    fn record_error(&self, client_id: &str, error_type: &str);

    fn is_user_timed_out(&self, client_id: &str) -> Option<(String, u64)>;

    fn timeout_user(&self, client_id: &str, reason: &str, duration_seconds: u64);

    fn clear_timeout(&self, client_id: &str) -> bool;

    fn get_error_count(&self, client_id: &str) -> u32;

    fn is_exempt(&self, client_id: &str) -> bool;

    fn set_exempt(&self, client_id: &str, exempt: bool);
}

/// The request-counter key for a client.
pub fn rate_limit_key(client_id: &str) -> (r: String)
    ensures
        r@ == "edge_rate_limit:"@ + client_id@,
{
    let mut r = String::from_str("edge_rate_limit:");
    r.append(client_id);
    r
}

/// The error-counter key for a client.
pub fn error_count_key(client_id: &str) -> (r: String)
    ensures
        r@ == "edge_error_count:"@ + client_id@,
{
    let mut r = String::from_str("edge_error_count:");
    r.append(client_id);
    r
}

/// The timeout-record key for a client.
pub fn timeout_key(client_id: &str) -> (r: String)
    ensures
        r@ == "edge_timeout:"@ + client_id@,
{
    let mut r = String::from_str("edge_timeout:");
    r.append(client_id);
    r
}

/// A present timeout record admits a client to the timed-out state only
/// while its remaining lifetime is positive.
pub open spec fn spec_timed_out(record: Option<(Seq<char>, int)>) -> bool {
    match record {
        Some((_reason, ttl)) => ttl > 0,
        None => false,
    }
}

/// Decide `is_user_timed_out` from what the store returned for the timeout
/// key: the stored reason and its remaining TTL.
pub fn is_user_timed_out_outcome(record: Option<(String, i64)>) -> (r: Option<(String, u64)>)
    ensures
        match (r, record) {
            (Some((reason, retry)), Some((stored, ttl))) => reason@ == stored@ && ttl > 0 && retry
                == ttl as u64,
            (None, Some((_, ttl))) => ttl <= 0,
            (None, None) => true,
            (Some(_), None) => false,
        },
{
    match record {
        Some((reason, ttl)) => {
            if ttl > 0 {
                Some((reason, ttl as u64))
            } else {
                None
            }
        },
        None => None,
    }
}

/// True when the counter reading lets the request through: the store failed
/// (fail-open) or the post-increment count is within the maximum.
pub open spec fn spec_rl_allows(config: RateLimitConfig, counter: Option<(u32, int)>) -> bool {
    match counter {
        None => true,
        Some((count, _ttl)) => count <= config.max_requests_per_window,
    }
}

/// Decide `check_rate_limit` from what the store answered.
///
/// `timeout` is the already-decided timeout state for the client; `counter`
/// is the post-increment request count with the key's TTL, or nothing when
/// the store failed (fail-open). Exactly one of the three outcomes holds:
/// a present timeout wins; then a count over the maximum; else the request
/// is allowed, with the remaining budget and the window reset instant.
pub fn check_rate_limit_outcome(
    config: &RateLimitConfig,
    timeout: Option<(String, u64)>,
    counter: Option<(u32, i64)>,
    now: i64,
) -> (r: RateLimitResult)
    requires
        0 <= now,
        now + config.window_seconds <= i64::MAX,
        counter matches Some((_, ttl)) ==> i64::MIN <= now + ttl <= i64::MAX,
    ensures
        match r {
            RateLimitResult::TimedOut { reason, retry_after } => (timeout matches Some((tr, ta))
                && reason@ == tr@ && retry_after == ta),
            RateLimitResult::RateLimited { retry_after } => timeout is None && (counter
                matches Some((count, ttl)) && count > config.max_requests_per_window
                && retry_after == (if ttl >= 1 {
                ttl as u64
            } else {
                1u64
            })),
            RateLimitResult::Allowed { remaining, reset_at } => timeout is None && spec_rl_allows(
                *config,
                match counter {
                    Some((c, t)) => Some((c, t as int)),
                    None => None,
                },
            ) && match counter {
                Some((count, ttl)) => remaining == config.max_requests_per_window - count
                    && reset_at == now + ttl,
                None => remaining == 0 && reset_at == now + config.window_seconds,
            },
        },
{
    match timeout {
        Some((reason, retry_after)) => RateLimitResult::TimedOut { reason, retry_after },
        None => {
            match counter {
                Some((count, ttl)) => {
                    if count > config.max_requests_per_window {
                        let retry_after: u64 = if ttl >= 1 {
                            ttl as u64
                        } else {
                            1
                        };
                        RateLimitResult::RateLimited { retry_after }
                    } else {
                        RateLimitResult::Allowed {
                            remaining: config.max_requests_per_window - count,
                            reset_at: now + ttl,
                        }
                    }
                },
                None => RateLimitResult::Allowed {
                    remaining: 0,
                    reset_at: now + config.window_seconds as i64,
                },
            }
        },
    }
}

/// The reason string written into a timeout record scheduled after `count`
/// errors within the error window.
pub open spec fn spec_timeout_reason(count: nat, window: nat) -> Seq<char> {
    "Automatic timeout: "@ + spec_dec_nat(count) + " errors in "@ + spec_dec_nat(window)
        + " seconds"@
}

/// Decide `record_error` from the post-increment error count: when the
/// count reaches the threshold, a timeout of the configured duration and
/// reason is to be written; otherwise nothing more happens. A store failure
/// (no count) schedules nothing.
pub fn record_error_outcome(config: &RateLimitConfig, count: Option<u32>) -> (r: Option<
    (String, u64),
>)
    ensures
        match r {
            Some((reason, duration)) => (count matches Some(c) && c
                >= config.max_errors_before_timeout && duration == config.timeout_duration_seconds
                && reason@ == spec_timeout_reason(c as nat, config.error_window_seconds as nat)),
            None => match count {
                Some(c) => c < config.max_errors_before_timeout,
                None => true,
            },
        },
{
    match count {
        Some(c) => {
            if c >= config.max_errors_before_timeout {
                let mut reason = String::from_str("Automatic timeout: ");
                let count_text = u32_to_string(c);
                reason.append(count_text.as_str());
                reason.append(" errors in ");
                let window_text = u64_to_string(config.error_window_seconds);
                reason.append(window_text.as_str());
                reason.append(" seconds");
                Some((reason, config.timeout_duration_seconds))
            } else {
                None
            }
        },
        None => None,
    }
}

/// Law: a client whose requests stay within the window maximum is allowed
/// every time, and the first count past the maximum is not allowed. The
/// store's atomic increment hands back consecutive counts within a window,
/// so the k-th request of a window reads count k.
pub proof fn lemma_rate_limit_window(config: RateLimitConfig, k: u32, ttl: int)
    ensures
        k <= config.max_requests_per_window ==> spec_rl_allows(config, Some((k, ttl))),
        k == config.max_requests_per_window + 1 ==> !spec_rl_allows(config, Some((k, ttl))),
{
}

/// Law: once the error count reaches the threshold, a timeout of the
/// configured duration is scheduled, and a client with a live timeout
/// record is refused by `check_rate_limit` (it answers `TimedOut`, never
/// `Allowed` or `RateLimited`).
pub proof fn lemma_errors_bring_timeout(config: RateLimitConfig, c: u32, ttl: int)
    requires
        c >= config.max_errors_before_timeout,
        0 < ttl,
    ensures
        spec_timed_out(Some((spec_timeout_reason(c as nat, config.error_window_seconds as nat),
        ttl))),
{
}

} // verus!
