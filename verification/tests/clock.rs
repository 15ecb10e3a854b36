//! Days, instants and ages against the calendar they come from.

use iz::clock::{Date, Duration, Moment, OffsetDateTime};

#[test]
fn a_date_is_a_day_that_exists() {
    assert!(Date::new(2024, 2, 29).is_some());
    assert!(Date::new(2026, 2, 29).is_none());
    assert!(Date::new(1900, 2, 29).is_none());
    assert!(Date::new(2000, 2, 29).is_some());
    assert!(Date::new(2026, 4, 31).is_none());
    assert!(Date::new(2026, 13, 1).is_none());
    assert!(Date::new(2026, 0, 1).is_none());
    assert!(Date::new(2026, 1, 0).is_none());
    assert!(Date::new(10_000, 1, 1).is_none());
    assert!(Date::new(-9999, 1, 1).is_some());
    for year in [-400, -1, 0, 1, 1999, 2000, 2023, 2024] {
        for month in 1..=12u8 {
            for day in 28..=31u8 {
                let real = time::Month::try_from(month)
                    .ok()
                    .and_then(|month| time::Date::from_calendar_date(year, month, day).ok());
                assert_eq!(Date::new(year, month, day).is_some(), real.is_some());
            }
        }
    }
}

#[test]
fn days_are_ordered_by_the_calendar() {
    let a = Date::new(2026, 9, 14).unwrap();
    let b = Date::new(2026, 10, 1).unwrap();
    let c = Date::new(2027, 1, 1).unwrap();
    assert!(a.before(&b) && b.before(&c) && a.before(&c));
    assert!(!b.before(&a) && !a.before(&a));
}

#[test]
fn the_local_day_is_the_calendars() {
    for seconds in [
        -62_167_219_200i64,
        -1,
        0,
        86_399,
        86_400,
        951_782_400,
        1_789_430_400,
        253_402_300_799,
    ] {
        let real = time::OffsetDateTime::from_unix_timestamp(seconds).unwrap().date();
        let day = OffsetDateTime::new(seconds, 0, 0).unwrap().date();
        assert_eq!(day.year(), real.year());
        assert_eq!(day.month(), u8::from(real.month()));
        assert_eq!(day.day(), real.day());
    }
    // An offset moves the day.
    let eve = OffsetDateTime::new(86_399, 0, 3_600).unwrap();
    assert_eq!(eve.date(), Date::new(1970, 1, 2).unwrap());
}

#[test]
fn an_instant_stays_within_the_calendar() {
    assert!(OffsetDateTime::new(0, 1_000_000_000, 0).is_none());
    assert!(OffsetDateTime::new(0, 0, 93_600).is_none());
    assert!(OffsetDateTime::new(253_402_300_800, 0, 0).is_none());
    assert!(OffsetDateTime::new(253_402_300_800, 0, -60).is_some());
    assert!(OffsetDateTime::new(-377_705_116_801, 0, 0).is_none());
}

#[test]
fn instants_compare_whatever_their_offsets() {
    let here = OffsetDateTime::new(100, 5, 0).unwrap();
    let there = OffsetDateTime::new(100, 5, 3_600).unwrap();
    let later = OffsetDateTime::new(100, 6, -3_600).unwrap();
    assert!(here == there);
    assert!(here != later);
    assert!(here.before(&later) && !later.before(&here));
    assert!(here.reached_by(&there) && here.reached_by(&later) && !later.reached_by(&here));
}

#[test]
fn a_timestamp_reads_back_as_what_was_written() {
    for (seconds, nanos, offset, text) in [
        (0, 0, 0, "1970-01-01T00:00:00Z"),
        (1_789_484_400, 0, 10_800, "2026-09-15T18:00:00+03:00"),
        (1, 500_000_000, -1_800, "1969-12-31T23:30:01.5-00:30"),
        (1, 1, 0, "1970-01-01T00:00:01.000000001Z"),
    ] {
        let at = OffsetDateTime::new(seconds, nanos, offset).unwrap();
        assert_eq!(at.format().unwrap(), text);
        let read = OffsetDateTime::parse(text).unwrap();
        assert_eq!(read.unix_timestamp(), seconds);
        assert_eq!(read.nanosecond(), nanos);
        assert_eq!(read.whole_offset(), offset);
    }
}

#[test]
fn what_the_format_cannot_write_is_refused() {
    let ancient = OffsetDateTime::new(-62_167_219_201, 0, 0).unwrap();
    assert!(ancient.format().is_err());
    assert!(OffsetDateTime::new(-62_167_219_200, 0, 0).unwrap().format().is_ok());
    let odd = OffsetDateTime::new(0, 0, 61).unwrap();
    assert!(odd.format().is_err());
    let wide = OffsetDateTime::new(0, 0, 86_400).unwrap();
    assert!(wide.format().is_err());
    assert!(OffsetDateTime::new(0, 0, 86_340).unwrap().format().is_ok());
    assert!(OffsetDateTime::parse("yesterday").is_err());
}

#[test]
fn now_is_in_utc() {
    let now = OffsetDateTime::now_utc();
    assert_eq!(now.whole_offset(), 0);
    assert!(now.unix_timestamp() > 1_600_000_000);
    assert!(now.format().is_ok());
}

#[test]
fn ages_do_not_run_backwards() {
    let early = Moment::at(Duration::new(5, 999_999_999));
    let late = Moment::at(Duration::from_secs(65));
    let age = late.saturating_duration_since(early);
    assert_eq!((age.as_secs(), age.subsec_nanos()), (59, 1));
    let none = early.saturating_duration_since(late);
    assert_eq!((none.as_secs(), none.subsec_nanos()), (0, 0));
    assert!(none.shorter_than(&age));
    assert!(!age.shorter_than(&age));
    assert_eq!(Duration::from_secs(u64::MAX).as_secs(), u64::MAX);
}
