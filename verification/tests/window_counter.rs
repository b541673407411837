use rate_limiter::clock::Timestamp;
use rate_limiter::domain::Limiter;
use rate_limiter::domain::RateLimitError;
use rate_limiter::window_counter::Info;
use rate_limiter::window_counter::WindowLimiter;
use rate_limiter::window_counter::MAX_REQUESTS_PER_WINDOW;

const MINUTE: i64 = 60_000_000;
const SECOND: i64 = 1_000_000;

fn at(minute: i64, second: i64) -> Timestamp {
    Timestamp::from_micros(minute * MINUTE + second * SECOND)
}

#[test]
fn fixed_window_limit_is_ten() {
    assert_eq!(MAX_REQUESTS_PER_WINDOW, 10);
}

#[test]
fn fixed_window_first_entry_counts_one() {
    let info = Info::new(at(3, 7));
    assert_eq!(info, Info { tokens: 1, timestamp: at(3, 7) });
}

#[test]
fn fixed_window_admits_ten_and_rejects_the_eleventh() {
    let mut limiter = WindowLimiter::new();
    for k in 0..10 {
        assert_eq!(limiter.use_token_at("10.0.0.1".to_string(), at(5, k)), Ok(()));
    }
    assert_eq!(
        limiter.use_token_at("10.0.0.1".to_string(), at(5, 59)),
        Err(RateLimitError::LimitExceeded)
    );
    assert_eq!(
        limiter.use_token_at("10.0.0.1".to_string(), at(5, 59)),
        Err(RateLimitError::LimitExceeded)
    );
    assert_eq!(limiter.tokens("10.0.0.1"), Some(12));
}

#[test]
fn fixed_window_rejects_the_next_request_exactly_from_ten() {
    for n in 0..15u64 {
        let mut limiter = WindowLimiter::new();
        for _ in 0..n {
            let _ = limiter.use_token_at("c".to_string(), at(1, 30));
        }
        let next = limiter.use_token_at("c".to_string(), at(1, 31));
        assert_eq!(next.is_err(), n >= 10);
    }
}

#[test]
fn fixed_window_resets_when_the_minute_changes() {
    let mut limiter = WindowLimiter::new();
    for _ in 0..11 {
        let _ = limiter.use_token_at("c".to_string(), at(8, 59));
    }
    assert_eq!(limiter.use_token_at("c".to_string(), at(8, 59)), Err(RateLimitError::LimitExceeded));
    assert_eq!(limiter.use_token_at("c".to_string(), at(9, 0)), Ok(()));
    assert_eq!(limiter.tokens("c"), Some(1));
}

#[test]
fn fixed_window_lets_a_double_burst_through_at_the_boundary() {
    let mut limiter = WindowLimiter::new();
    let mut admitted = 0;
    for _ in 0..10 {
        if limiter.use_token_at("c".to_string(), at(2, 59)).is_ok() {
            admitted += 1;
        }
    }
    for _ in 0..10 {
        if limiter.use_token_at("c".to_string(), at(3, 0)).is_ok() {
            admitted += 1;
        }
    }
    assert_eq!(admitted, 20);
}

#[test]
fn fixed_window_same_minute_of_the_next_day_is_another_window() {
    let mut limiter = WindowLimiter::new();
    for _ in 0..11 {
        let _ = limiter.use_token_at("c".to_string(), at(10, 0));
    }
    assert_eq!(limiter.tokens("c"), Some(11));
    assert_eq!(limiter.use_token_at("c".to_string(), at(10 + 24 * 60, 0)), Ok(()));
    assert_eq!(limiter.tokens("c"), Some(1));
}

#[test]
fn fixed_window_keeps_the_instant_that_opened_the_window() {
    let mut limiter = WindowLimiter::new();
    assert_eq!(limiter.use_token_at("c".to_string(), at(0, 59)), Ok(()));
    // one microsecond later the minute has changed
    assert_eq!(limiter.use_token_at("c".to_string(), Timestamp::from_micros(MINUTE)), Ok(()));
    assert_eq!(limiter.tokens("c"), Some(1));
    assert_eq!(limiter.use_token_at("c".to_string(), at(1, 30)), Ok(()));
    assert_eq!(limiter.tokens("c"), Some(2));
}

#[test]
fn fixed_window_windows_before_the_epoch() {
    let mut limiter = WindowLimiter::new();
    assert_eq!(limiter.use_token_at("c".to_string(), Timestamp::from_micros(-1)), Ok(()));
    assert_eq!(limiter.use_token_at("c".to_string(), Timestamp::from_micros(-MINUTE)), Ok(()));
    assert_eq!(limiter.tokens("c"), Some(2));
    assert_eq!(limiter.use_token_at("c".to_string(), Timestamp::from_micros(0)), Ok(()));
    assert_eq!(limiter.tokens("c"), Some(1));
}

#[test]
fn fixed_window_clients_do_not_affect_each_other() {
    let mut limiter = WindowLimiter::new();
    for _ in 0..11 {
        let _ = limiter.use_token_at("a".to_string(), at(4, 10));
    }
    assert_eq!(limiter.use_token_at("a".to_string(), at(4, 10)), Err(RateLimitError::LimitExceeded));
    for _ in 0..10 {
        assert_eq!(limiter.use_token_at("b".to_string(), at(4, 10)), Ok(()));
    }
    assert_eq!(limiter.tokens("a"), Some(12));
    assert_eq!(limiter.tokens("b"), Some(10));
    assert_eq!(limiter.tokens("never seen"), None);
}

#[test]
fn fixed_window_empty_identifier_is_an_ordinary_client() {
    let mut limiter = WindowLimiter::new();
    for _ in 0..10 {
        assert_eq!(limiter.use_token_at(String::new(), at(0, 0)), Ok(()));
    }
    assert_eq!(limiter.use_token_at(String::new(), at(0, 0)), Err(RateLimitError::LimitExceeded));
    assert_eq!(limiter.tokens(""), Some(11));
}

#[test]
fn fixed_window_never_forgets_a_client() {
    let mut limiter = WindowLimiter::new();
    assert_eq!(limiter.len(), 0);
    for k in 0..500i64 {
        let _ = limiter.use_token_at(format!("client-{}", k), at(k, 0));
    }
    assert_eq!(limiter.len(), 500);
    let _ = limiter.use_token_at("client-0".to_string(), at(10_000, 0));
    assert_eq!(limiter.len(), 500);
}

#[test]
fn fixed_window_use_token_reads_the_clock() {
    let mut limiter = WindowLimiter::new();
    assert_eq!(limiter.use_token("192.168.0.7".to_string()), Ok(()));
    let counted = limiter.tokens("192.168.0.7");
    assert!(counted == Some(1));
    let _ = limiter.use_token("192.168.0.7".to_string());
    let counted = limiter.tokens("192.168.0.7");
    assert!(counted == Some(2) || counted == Some(1));
}
