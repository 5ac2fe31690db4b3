use gitblog::time::Timestamp;

#[test]
fn leap_second_is_kept_and_ordered() {
    let leap = Timestamp::parse_rfc3339("2016-12-31T23:59:60.5Z").expect("leap second parses");
    assert!(leap.nanos() >= 1_000_000_000);
    assert_eq!(leap.secs() % 60, 59);
    let before = Timestamp::parse_rfc3339("2016-12-31T23:59:59Z").unwrap();
    let after = Timestamp::parse_rfc3339("2017-01-01T00:00:00Z").unwrap();
    assert!(leap.is_after(&before));
    assert!(after.is_after(&leap));
    assert_eq!(leap.to_rfc3339(), "2016-12-31T23:59:60.500+00:00");
}

#[test]
fn far_dates_within_chrono_range_parse() {
    let far = Timestamp::parse_rfc3339("200000-01-01T00:00:00Z");
    assert!(far.is_none() || far.unwrap().secs() > 6_000_000_000_000);
    assert!(Timestamp::from_parts(8_210_266_790_399, 0, 0).is_some());
    assert!(Timestamp::from_parts(8_210_266_790_400, 0, 0).is_none());
    assert!(Timestamp::from_parts(59, 1_500_000_000, 0).is_some());
    assert!(Timestamp::from_parts(58, 1_500_000_000, 0).is_none());
    assert!(Timestamp::from_parts(-1, 1_500_000_000, 0).is_some());
}

