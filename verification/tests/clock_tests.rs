use plcmon::clock::{ts, Timestamp, MAX_SECS, MIN_SECS};

#[test]
fn date_and_time() {
    let t = Timestamp::new(1_431_648_000, 0, 0).unwrap();
    assert_eq!(t.date_time(), "2015-05-15 00:00:00");
    assert_eq!(t.time_of_day(), "00:00:00");
    let t = Timestamp::new(0, 5, 3600).unwrap();
    assert_eq!(t.date_time(), "1970-01-01 01:00:00");
    assert_eq!(t.time_of_day(), "01:00:00");
    assert_eq!((t.secs(), t.nanos(), t.offset_secs()), (0, 5, 3600));
    let t = Timestamp::new(59, 999_999_999, -3600).unwrap();
    assert_eq!(t.date_time(), "1969-12-31 23:00:59");
    assert_eq!(t.time_of_day(), "23:00:59");
    let t = Timestamp::new(86_399, 0, 19_800).unwrap();
    assert_eq!(t.time_of_day(), "05:29:59");
}

#[test]
fn times_without_a_date() {
    assert!(Timestamp::new(MIN_SECS - 1, 0, 0).is_none());
    assert!(Timestamp::new(i64::MIN, 0, 0).is_none());
    assert!(Timestamp::new(MAX_SECS + 1, 0, 0).is_none());
    assert!(Timestamp::new(0, 1_000_000_000, 0).is_none());
    assert!(Timestamp::new(-2, 1_000_000_000, 0).is_none());
    assert!(Timestamp::new(59, 2_000_000_000, 0).is_none());
    assert!(Timestamp::new(0, 0, 86_400).is_none());
    assert!(Timestamp::new(0, 0, -86_400).is_none());
}

#[test]
fn the_bounds_have_dates() {
    for offset in [-86_399, 0, 86_399] {
        assert!(Timestamp::new(MAX_SECS, 0, offset).unwrap().date_time().len() > 0);
        assert!(Timestamp::new(MIN_SECS, 0, offset).unwrap().date_time().len() > 0);
    }
    assert_eq!(Timestamp::new(MIN_SECS, 0, 0).unwrap().date_time(), "-262143-01-01 00:00:00");
    assert_eq!(Timestamp::new(MAX_SECS, 0, 0).unwrap().date_time(), "+262142-12-31 23:59:59");
}

#[test]
fn times_before_the_epoch() {
    let t = Timestamp::new(-1, 0, 0).unwrap();
    assert_eq!(t.date_time(), "1969-12-31 23:59:59");
    assert_eq!(t.time_of_day(), "23:59:59");
    let t = Timestamp::new(-86_400, 0, 60).unwrap();
    assert_eq!(t.date_time(), "1969-12-31 00:01:00");
    assert_eq!(t.time_of_day(), "00:01:00");
}

#[test]
fn leap_seconds() {
    let t = Timestamp::new(59, 1_500_000_000, 3600).unwrap();
    assert_eq!(t.date_time(), "1970-01-01 01:00:60");
    assert_eq!(t.time_of_day(), "01:00:60");
    let t = Timestamp::new(-1, 1_000_000_000, 0).unwrap();
    assert_eq!(t.date_time(), "1969-12-31 23:59:60");
    assert_eq!(t.nanos(), 1_000_000_000);
}

#[test]
fn now_is_not_long_ago() {
    let t = Timestamp::now();
    assert!(t.secs() > 1_600_000_000);
    assert!(t.nanos() < 1_000_000_000);
    let text = ts();
    assert_eq!(text.len(), 19);
    assert_eq!(&text[4..5], "-");
    assert_eq!(&text[13..14], ":");
}
