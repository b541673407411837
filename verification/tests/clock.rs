use rate_limiter::clock::Timestamp;

#[test]
fn timestamp_keeps_its_micros() {
    let t = Timestamp::from_micros(1_700_000_000_123_456);
    assert_eq!(t.as_micros(), 1_700_000_000_123_456);
    assert_eq!(t, Timestamp { micros: 1_700_000_000_123_456 });
}

#[test]
fn minute_index_counts_whole_minutes_from_the_epoch() {
    assert_eq!(Timestamp::from_micros(0).minute_index(), 0);
    assert_eq!(Timestamp::from_micros(59_999_999).minute_index(), 0);
    assert_eq!(Timestamp::from_micros(60_000_000).minute_index(), 1);
    assert_eq!(Timestamp::from_micros(61_500_000).minute_index(), 1);
    assert_eq!(Timestamp::from_micros(1_700_000_000_000_000).minute_index(), 28_333_333);
}

#[test]
fn minute_index_rounds_down_before_the_epoch() {
    assert_eq!(Timestamp::from_micros(-1).minute_index(), -1);
    assert_eq!(Timestamp::from_micros(-60_000_000).minute_index(), -1);
    assert_eq!(Timestamp::from_micros(-60_000_001).minute_index(), -2);
    assert_eq!(Timestamp::from_micros(i64::MIN).minute_index(), -153_722_867_281);
    assert_eq!(Timestamp::from_micros(i64::MAX).minute_index(), 153_722_867_280);
}

#[test]
fn second_of_minute_is_the_seconds_component() {
    assert_eq!(Timestamp::from_micros(0).second_of_minute(), 0);
    assert_eq!(Timestamp::from_micros(999_999).second_of_minute(), 0);
    assert_eq!(Timestamp::from_micros(1_000_000).second_of_minute(), 1);
    assert_eq!(Timestamp::from_micros(59_999_999).second_of_minute(), 59);
    assert_eq!(Timestamp::from_micros(60_000_000).second_of_minute(), 0);
    // 2023-11-14T22:13:20Z
    assert_eq!(Timestamp::from_micros(1_700_000_000_000_000).second_of_minute(), 20);
}

#[test]
fn second_of_minute_before_the_epoch() {
    assert_eq!(Timestamp::from_micros(-1).second_of_minute(), 59);
    assert_eq!(Timestamp::from_micros(-1_000_000).second_of_minute(), 59);
    assert_eq!(Timestamp::from_micros(-1_000_001).second_of_minute(), 58);
    assert_eq!(Timestamp::from_micros(-60_000_000).second_of_minute(), 0);
}
