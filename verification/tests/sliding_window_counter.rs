use rate_limiter::clock::Timestamp;
use rate_limiter::domain::Limiter;
use rate_limiter::domain::RateLimitError;
use rate_limiter::sliding_window_counter::Info;
use rate_limiter::sliding_window_counter::SlidingWindowCounter;
use rate_limiter::sliding_window_counter::MAX_REQUESTS_PER_WINDOW;

const MINUTE: i64 = 60_000_000;
const SECOND: i64 = 1_000_000;

/// 2024-01-01T12:00:00Z, in seconds since the epoch.
const NOON: i64 = 1_704_110_400;

fn at(minute: i64, second: i64) -> Timestamp {
    Timestamp::from_micros(minute * MINUTE + second * SECOND)
}

fn after_noon(minute: i64, second: i64) -> Timestamp {
    Timestamp::from_micros((NOON + minute * 60 + second) * SECOND)
}

/// A limiter in which `client` has counted ten requests at the end of the
/// given minute.
fn after_full_window(client: &str, minute: i64) -> SlidingWindowCounter {
    let mut limiter = SlidingWindowCounter::new();
    for _ in 0..10 {
        assert_eq!(limiter.use_token_at(client.to_string(), at(minute, 59)), Ok(()));
    }
    assert_eq!(limiter.info(client).map(|info| info.current_window), Some(10));
    limiter
}

#[test]
fn sliding_counter_limit_is_ten() {
    assert_eq!(MAX_REQUESTS_PER_WINDOW, 10);
}

#[test]
fn sliding_counter_new_client_has_nothing_in_the_previous_window() {
    let info = Info::new(at(3, 7));
    assert_eq!(info, Info { current_window: 1, previous_window: 0, timestamp: at(3, 7) });
    let mut limiter = SlidingWindowCounter::new();
    assert_eq!(limiter.len(), 0);
    assert_eq!(limiter.info("a"), None);
    assert_eq!(limiter.use_token_at("a".to_string(), after_noon(0, 0)), Ok(()));
    assert_eq!(
        limiter.info("a"),
        Some(Info { current_window: 1, previous_window: 0, timestamp: after_noon(0, 0) })
    );
}

#[test]
fn sliding_counter_admits_ten_of_a_new_client_and_rejects_the_eleventh() {
    let mut limiter = SlidingWindowCounter::new();
    for _ in 0..9 {
        assert_eq!(limiter.use_token_at("a".to_string(), after_noon(0, 30)), Ok(()));
    }
    // the estimate is exactly ten
    assert_eq!(limiter.use_token_at("a".to_string(), after_noon(0, 30)), Ok(()));
    assert_eq!(
        limiter.use_token_at("a".to_string(), after_noon(0, 30)),
        Err(RateLimitError::LimitExceeded)
    );
}

#[test]
fn sliding_counter_weighs_the_previous_window_by_the_seconds_to_come() {
    let mut limiter = SlidingWindowCounter::new();
    for _ in 0..9 {
        assert_eq!(limiter.use_token_at("a".to_string(), after_noon(0, 30)), Ok(()));
    }
    for _ in 0..3 {
        assert_eq!(limiter.use_token_at("a".to_string(), after_noon(1, 20)), Ok(()));
    }
    // 9 * (1 - 20/60) + 4 = 10
    assert_eq!(limiter.use_token_at("a".to_string(), after_noon(1, 20)), Ok(()));
    assert_eq!(
        limiter.info("a"),
        Some(Info { current_window: 4, previous_window: 9, timestamp: after_noon(1, 20) })
    );
    // 9 * (1 - 20/60) + 5 = 11
    assert_eq!(
        limiter.use_token_at("a".to_string(), after_noon(1, 20)),
        Err(RateLimitError::LimitExceeded)
    );
}

#[test]
fn sliding_counter_counts_within_the_minute_and_shifts_after_it() {
    let mut limiter = SlidingWindowCounter::new();
    let _ = limiter.use_token_at("c".to_string(), at(1, 0));
    let _ = limiter.use_token_at("c".to_string(), at(1, 10));
    let _ = limiter.use_token_at("c".to_string(), at(1, 20));
    assert_eq!(
        limiter.info("c"),
        Some(Info { current_window: 3, previous_window: 0, timestamp: at(1, 20) })
    );
    let _ = limiter.use_token_at("c".to_string(), at(2, 5));
    assert_eq!(
        limiter.info("c"),
        Some(Info { current_window: 1, previous_window: 3, timestamp: at(2, 5) })
    );
    // several minutes later the shift is the same
    let _ = limiter.use_token_at("c".to_string(), at(9, 5));
    assert_eq!(
        limiter.info("c"),
        Some(Info { current_window: 1, previous_window: 1, timestamp: at(9, 5) })
    );
}

#[test]
fn sliding_counter_estimate_at_exact_values() {
    let info = |previous: u64, current: u64, second: i64| Info {
        previous_window: previous,
        current_window: current,
        timestamp: at(7, second),
    };
    // 10 * 60/60 + 1 = 11
    assert!(!info(10, 1, 0).is_within_limit());
    // 10 * 55/60 + 1 = 10.17
    assert!(!info(10, 1, 5).is_within_limit());
    // 10 * 54/60 + 1 = 10
    assert!(info(10, 1, 6).is_within_limit());
    // 10 * 30/60 + 5 = 10
    assert!(info(10, 5, 30).is_within_limit());
    // 10 * 30/60 + 6 = 11
    assert!(!info(10, 6, 30).is_within_limit());
    // 9 * 40/60 + 4 = 10
    assert!(info(9, 4, 20).is_within_limit());
    // 9 * 41/60 + 4 = 10.15
    assert!(!info(9, 4, 19).is_within_limit());
    // 1 * 1/60 + 10 = 10.02
    assert!(!info(1, 10, 59).is_within_limit());
    // 59 * 1/60 + 9 = 9.98
    assert!(info(59, 9, 59).is_within_limit());
    // 61 * 1/60 + 9 = 10.02
    assert!(!info(61, 9, 59).is_within_limit());
    // 0 * w + 10 = 10
    assert!(info(0, 10, 0).is_within_limit());
    assert!(!info(0, 11, 59).is_within_limit());
    // the largest counts do not overflow
    assert!(!info(u64::MAX, u64::MAX, 0).is_within_limit());
    assert!(!info(u64::MAX, 0, 59).is_within_limit());
}

#[test]
fn sliding_counter_only_whole_seconds_weigh() {
    let mut early = after_full_window("c", 4);
    let just_before_six = Timestamp::from_micros(5 * MINUTE + 6 * SECOND - 1);
    assert_eq!(
        early.use_token_at("c".to_string(), just_before_six),
        Err(RateLimitError::LimitExceeded)
    );
    let mut late = after_full_window("c", 4);
    assert_eq!(late.use_token_at("c".to_string(), at(5, 6)), Ok(()));
}

#[test]
fn sliding_counter_rejects_early_in_the_minute_after_a_full_window() {
    for second in 0..6 {
        let mut limiter = after_full_window("c", 4);
        assert_eq!(
            limiter.use_token_at("c".to_string(), at(5, second)),
            Err(RateLimitError::LimitExceeded)
        );
    }
}

#[test]
fn sliding_counter_admits_later_in_the_minute_after_a_full_window() {
    for second in 6..60 {
        let mut limiter = after_full_window("c", 4);
        assert_eq!(limiter.use_token_at("c".to_string(), at(5, second)), Ok(()));
    }
}

#[test]
fn sliding_counter_weight_of_the_previous_window_decays() {
    // with twelve requests in the previous window, the least count in the
    // current one that is rejected grows as the minute elapses
    let mut last = 0;
    for second in 0..60 {
        let mut rejected_from = 0;
        for current in 0..=11u64 {
            let info = Info { previous_window: 12, current_window: current, timestamp: at(5, second) };
            if !info.is_within_limit() {
                rejected_from = current;
                break;
            }
        }
        assert!(rejected_from >= last);
        last = rejected_from;
    }
    assert_eq!(last, 10);
    // the requests that fit beside a full previous window
    let mut fits = Vec::new();
    for second in [0, 6, 12, 30, 54, 59] {
        let mut limiter = after_full_window("c", 4);
        let mut admitted = 0;
        for _ in 0..12 {
            if limiter.use_token_at("c".to_string(), at(5, second)).is_ok() {
                admitted += 1;
            }
        }
        fits.push(admitted);
    }
    assert_eq!(fits, vec![0, 1, 2, 5, 9, 9]);
}

#[test]
fn sliding_counter_rejected_requests_are_counted() {
    let mut limiter = after_full_window("c", 4);
    assert_eq!(
        limiter.use_token_at("c".to_string(), at(5, 0)),
        Err(RateLimitError::LimitExceeded)
    );
    assert_eq!(
        limiter.info("c"),
        Some(Info { current_window: 1, previous_window: 10, timestamp: at(5, 0) })
    );
}

#[test]
fn sliding_counter_clients_do_not_affect_each_other() {
    let mut limiter = after_full_window("a", 4);
    assert_eq!(
        limiter.use_token_at("a".to_string(), at(5, 0)),
        Err(RateLimitError::LimitExceeded)
    );
    assert_eq!(limiter.use_token_at("b".to_string(), at(5, 0)), Ok(()));
    assert_eq!(
        limiter.info("b"),
        Some(Info { current_window: 1, previous_window: 0, timestamp: at(5, 0) })
    );
    assert_eq!(limiter.len(), 2);
}

#[test]
fn sliding_counter_use_token_reads_the_clock() {
    let mut limiter = SlidingWindowCounter::new();
    assert_eq!(limiter.use_token("192.168.0.7".to_string()), Ok(()));
    let seen = limiter.info("192.168.0.7").unwrap();
    // later than 2020-09-13T12:26:40Z
    assert!(seen.timestamp.as_micros() > 1_600_000_000_000_000);
    assert_eq!(seen.current_window, 1);
    assert_eq!(seen.previous_window, 0);
}
