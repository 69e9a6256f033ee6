use edge_proxy::ratelimit::{
    check_rate_limit_outcome, error_count_key, is_user_timed_out_outcome, rate_limit_key,
    record_error_outcome, timeout_key, RateLimitConfig, RateLimitResult,
};

#[test]
fn keys_are_namespaced_per_client() {
    assert_eq!(rate_limit_key("c1"), "edge_rate_limit:c1");
    assert_eq!(error_count_key("c1"), "edge_error_count:c1");
    assert_eq!(timeout_key("c1"), "edge_timeout:c1");
}

#[test]
fn default_limits_match_policy() {
    let config = RateLimitConfig::default();
    assert_eq!(config.max_requests_per_window, 500);
    assert_eq!(config.window_seconds, 60);
    assert_eq!(config.max_errors_before_timeout, 50);
    assert_eq!(config.error_window_seconds, 600);
    assert_eq!(config.timeout_duration_seconds, 300);
}

#[test]
fn five_hundred_requests_pass_then_the_next_is_limited() {
    // one window: the store's atomic increment hands back 1, 2, ... per call
    let config = RateLimitConfig::default();
    let now = 1_700_000_000;
    for count in 1..=500u32 {
        match check_rate_limit_outcome(&config, None, Some((count, 60)), now) {
            RateLimitResult::Allowed { remaining, reset_at } => {
                assert_eq!(remaining, 500 - count);
                assert_eq!(reset_at, now + 60);
            }
            other => panic!("request {} was not allowed: {:?}", count, other),
        }
    }
    match check_rate_limit_outcome(&config, None, Some((501, 60)), now) {
        RateLimitResult::RateLimited { retry_after } => assert!(retry_after >= 1),
        other => panic!("501st request was not limited: {:?}", other),
    }
}

#[test]
fn rate_limited_retry_after_is_at_least_one() {
    let config = RateLimitConfig::default();
    match check_rate_limit_outcome(&config, None, Some((501, 0)), 1_700_000_000) {
        RateLimitResult::RateLimited { retry_after } => assert_eq!(retry_after, 1),
        other => panic!("unexpected outcome: {:?}", other),
    }
}

#[test]
fn store_failure_fails_open() {
    let config = RateLimitConfig::default();
    match check_rate_limit_outcome(&config, None, None, 1_700_000_000) {
        RateLimitResult::Allowed { remaining, reset_at } => {
            assert_eq!(remaining, 0);
            assert_eq!(reset_at, 1_700_000_000 + 60);
        }
        other => panic!("store failure did not fail open: {:?}", other),
    }
}

#[test]
fn timed_out_client_is_refused_first() {
    let config = RateLimitConfig::default();
    let timeout = Some(("too many errors".to_string(), 120u64));
    match check_rate_limit_outcome(&config, timeout, Some((1, 60)), 1_700_000_000) {
        RateLimitResult::TimedOut { reason, retry_after } => {
            assert_eq!(reason, "too many errors");
            assert_eq!(retry_after, 120);
        }
        other => panic!("timed-out client was served: {:?}", other),
    }
}

#[test]
fn errors_below_threshold_schedule_nothing() {
    let config = RateLimitConfig::default();
    assert!(record_error_outcome(&config, Some(49)).is_none());
    assert!(record_error_outcome(&config, None).is_none());
}

#[test]
fn fiftieth_error_schedules_the_timeout() {
    let config = RateLimitConfig::default();
    let (reason, duration) = record_error_outcome(&config, Some(50)).unwrap();
    assert_eq!(duration, 300);
    assert_eq!(reason, "Automatic timeout: 50 errors in 600 seconds");

    let (reason, _) = record_error_outcome(&config, Some(73)).unwrap();
    assert_eq!(reason, "Automatic timeout: 73 errors in 600 seconds");
}

#[test]
fn timeout_record_counts_only_with_positive_ttl() {
    let live = is_user_timed_out_outcome(Some(("r".to_string(), 42)));
    assert_eq!(live, Some(("r".to_string(), 42u64)));
    assert!(is_user_timed_out_outcome(Some(("r".to_string(), 0))).is_none());
    assert!(is_user_timed_out_outcome(Some(("r".to_string(), -1))).is_none());
    assert!(is_user_timed_out_outcome(None).is_none());
}

#[test]
fn scheduled_timeout_then_blocks_requests() {
    // the record_error outcome written to the store is what check_rate_limit
    // sees next: the client is refused for the timeout's lifetime
    let config = RateLimitConfig::default();
    let (reason, duration) = record_error_outcome(&config, Some(50)).unwrap();
    let seen = is_user_timed_out_outcome(Some((reason.clone(), duration as i64)));
    assert!(seen.is_some());
    match check_rate_limit_outcome(&config, seen, Some((1, 60)), 1_700_000_000) {
        RateLimitResult::TimedOut { reason: r, retry_after } => {
            assert_eq!(r, reason);
            assert_eq!(retry_after, 300);
        }
        other => panic!("client with live timeout was served: {:?}", other),
    }
}
