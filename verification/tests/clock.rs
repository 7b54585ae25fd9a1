use den::clock::{as_unsigned, Timestamp, MAX_SECS, MIN_SECS};

#[test]
fn the_clock_runs_and_lies_after_the_epoch() {
    let epoch = Timestamp::from_unix(0, 0).unwrap();
    let a = Timestamp::now();
    let b = Timestamp::now();
    assert!(a > epoch);
    assert!(b >= a);
    // well after the year 2020
    assert!(a.seconds_since(&epoch) > 1_577_836_800);
}

#[test]
fn distances_are_cut_off_toward_zero() {
    let t = |s, n| Timestamp::from_unix(s, n).unwrap();
    assert_eq!(t(10, 0).seconds_since(&t(4, 0)), 6);
    assert_eq!(t(10, 0).seconds_since(&t(4, 1)), 5);
    assert_eq!(t(4, 1).seconds_since(&t(10, 0)), -5);
    assert_eq!(t(4, 0).seconds_since(&t(10, 0)), -6);
    assert_eq!(t(4, 999_999_999).seconds_since(&t(4, 0)), 0);
    assert_eq!(t(0, 1).seconds_since(&t(-1, 0)), 1);
}

#[test]
fn a_deadline_stays_reached() {
    let t = |s| Timestamp::from_unix(s, 0).unwrap();
    assert!(!t(99).reached(&t(0), 100));
    assert!(t(100).reached(&t(0), 100));
    assert!(t(101).reached(&t(0), 100));
    assert!(t(0).reached(&t(1), u64::MAX));
}

#[test]
fn the_calendar_has_ends() {
    assert!(Timestamp::from_unix(MAX_SECS, 999_999_999).is_some());
    assert!(Timestamp::from_unix(MAX_SECS + 1, 0).is_none());
    assert!(Timestamp::from_unix(MIN_SECS, 0).is_some());
    assert!(Timestamp::from_unix(MIN_SECS - 1, 0).is_none());
    assert!(Timestamp::from_unix(0, 1_000_000_000).is_none());
    let first = Timestamp::from_unix(MIN_SECS, 0).unwrap();
    let last = Timestamp::from_unix(MAX_SECS, 999_999_999).unwrap();
    assert_eq!(last.seconds_since(&first), MAX_SECS - MIN_SECS);
    assert_eq!(first.seconds_since(&last), MIN_SECS - MAX_SECS);
    // the ends are those of chrono's calendar
    assert_eq!(chrono::DateTime::<chrono::Utc>::MIN_UTC.timestamp(), MIN_SECS);
    assert_eq!(chrono::DateTime::<chrono::Utc>::MAX_UTC.timestamp(), MAX_SECS);
}

#[test]
fn negative_numbers_read_as_large_ones() {
    assert_eq!(as_unsigned(5), 5);
    assert_eq!(as_unsigned(-1), u64::MAX);
    assert_eq!(as_unsigned(i64::MIN), 1 << 63);
}
