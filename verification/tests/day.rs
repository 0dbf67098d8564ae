use aocbot::day::AocDay;
use aocbot::time::{date_at, december_midnight, est_date, LocalDate, Timestamp, EST_UTC_OFFSET};
use chrono::{DateTime, Utc};

fn at(text: &str) -> Timestamp {
    let instant = text.parse::<DateTime<Utc>>().unwrap();
    Timestamp::from_parts(instant.timestamp(), instant.timestamp_subsec_nanos()).unwrap()
}

fn to_chrono(t: Timestamp) -> DateTime<Utc> {
    DateTime::from_timestamp(t.timestamp(), t.timestamp_subsec_nanos()).unwrap()
}

#[test]
fn unlock_datetime() {
    for (year, day, expected) in [
        (2024, 1, "2024-12-01T06:00:00+01:00"),
        (2024, 2, "2024-12-02T06:00:00+01:00"),
        (2024, 16, "2024-12-16T06:00:00+01:00"),
        (2024, 25, "2024-12-25T06:00:00+01:00"),
        (2025, 1, "2025-12-01T06:00:00+01:00"),
    ] {
        let day = AocDay { year, day };
        let expected = expected.parse::<DateTime<Utc>>().unwrap();
        assert_eq!(to_chrono(day.unlock_datetime()), expected);
    }
}

#[test]
fn url() {
    let day = |year, day| AocDay { year, day };
    assert_eq!(day(2023, 1).url(), "https://adventofcode.com/2023/day/1");
    assert_eq!(day(2018, 17).url(), "https://adventofcode.com/2018/day/17");
}

#[test]
fn next() {
    for (now, year, day) in [
        ("2024-07-17T13:37:42+01:00", 2024, 1),
        ("2024-11-17T13:37:42+01:00", 2024, 1),
        ("2024-12-01T05:59:07+01:00", 2024, 1),
        ("2024-12-01T06:00:13+01:00", 2024, 2),
        ("2024-12-15T14:17:00+01:00", 2024, 16),
        ("2024-12-25T05:59:07+01:00", 2024, 25),
        ("2024-12-25T06:00:07+01:00", 2025, 1),
        ("2024-12-31T13:37:42+01:00", 2025, 1),
        ("2025-01-07T13:37:42+01:00", 2025, 1),
    ] {
        let expected = AocDay { year, day };
        assert_eq!(AocDay::next(at(now)), expected);
    }
}

#[test]
fn current() {
    for (now, expected) in [
        ("2024-07-17T13:37:42+01:00", None),
        ("2024-11-17T13:37:42+01:00", None),
        ("2024-12-01T05:59:07+01:00", None),
        ("2024-12-01T06:00:13+01:00", Some((2024, 1))),
        ("2024-12-15T14:17:00+01:00", Some((2024, 15))),
        ("2024-12-25T05:59:07+01:00", Some((2024, 24))),
        ("2024-12-25T06:00:07+01:00", Some((2024, 25))),
        ("2024-12-31T13:37:42+01:00", None),
        ("2025-01-07T13:37:42+01:00", None),
    ] {
        let expected = expected.map(|(year, day)| AocDay { year, day });
        assert_eq!(AocDay::current(at(now)), expected);
    }
}

#[test]
fn most_recent() {
    for (now, year, day) in [
        ("2024-07-17T13:37:42+01:00", 2023, 25),
        ("2024-11-17T13:37:42+01:00", 2023, 25),
        ("2024-12-01T05:59:07+01:00", 2023, 25),
        ("2024-12-01T06:00:13+01:00", 2024, 1),
        ("2024-12-15T14:17:00+01:00", 2024, 15),
        ("2024-12-25T05:59:07+01:00", 2024, 24),
        ("2024-12-25T06:00:07+01:00", 2024, 25),
        ("2024-12-31T13:37:42+01:00", 2024, 25),
        ("2025-01-07T13:37:42+01:00", 2024, 25),
    ] {
        let expected = AocDay { year, day };
        assert_eq!(AocDay::most_recent(at(now)), expected);
    }
}

#[test]
fn url_of_a_year_before_the_common_era() {
    assert_eq!(AocDay { year: -5, day: 3 }.url(), "https://adventofcode.com/-5/day/3");
    assert_eq!(AocDay { year: 0, day: 10 }.url(), "https://adventofcode.com/0/day/10");
}

#[test]
fn days_on_given_dates() {
    let date = |year, month, day| LocalDate::new(year, month, day).unwrap();
    assert_eq!(AocDay::current_on(date(2024, 11, 30)), None);
    assert_eq!(AocDay::current_on(date(2024, 12, 1)), Some(AocDay { year: 2024, day: 1 }));
    assert_eq!(AocDay::current_on(date(2024, 12, 25)), Some(AocDay { year: 2024, day: 25 }));
    assert_eq!(AocDay::current_on(date(2024, 12, 26)), None);
    assert_eq!(AocDay::next_on(date(2024, 11, 30)), AocDay { year: 2024, day: 1 });
    assert_eq!(AocDay::next_on(date(2024, 12, 24)), AocDay { year: 2024, day: 25 });
    assert_eq!(AocDay::next_on(date(2024, 12, 25)), AocDay { year: 2025, day: 1 });
    assert_eq!(AocDay::most_recent_on(date(2024, 1, 1)), AocDay { year: 2023, day: 25 });
    assert_eq!(AocDay::most_recent_on(date(2024, 12, 7)), AocDay { year: 2024, day: 7 });
    assert_eq!(AocDay::most_recent_on(date(2024, 12, 31)), AocDay { year: 2024, day: 25 });
}

#[test]
fn unlock_is_checked_against_the_calendar() {
    assert_eq!(AocDay { year: 2024, day: 0 }.checked_unlock_datetime(), None);
    assert_eq!(AocDay { year: 2024, day: 32 }.checked_unlock_datetime(), None);
    assert_eq!(AocDay { year: 262_143, day: 1 }.checked_unlock_datetime(), None);
    assert_eq!(AocDay { year: -262_144, day: 1 }.checked_unlock_datetime(), None);
    let unlock = AocDay { year: 2024, day: 1 }.checked_unlock_datetime().unwrap();
    assert_eq!(unlock.timestamp(), 1_733_029_200);
    assert_eq!(unlock.timestamp_subsec_nanos(), 0);
    let last = AocDay { year: 262_142, day: 31 }.checked_unlock_datetime().unwrap();
    assert_eq!(to_chrono(last).to_rfc3339(), "+262142-12-31T05:00:00+00:00");
    let first = AocDay { year: -262_143, day: 1 }.checked_unlock_datetime().unwrap();
    assert_eq!(to_chrono(first).to_rfc3339(), "-262143-12-01T05:00:00+00:00");
}

#[test]
fn dates_are_read_in_the_given_offset() {
    let t = at("2024-12-01T04:59:59Z");
    let est = est_date(t);
    assert_eq!((est.year(), est.month(), est.day()), (2024, 11, 30));
    let utc = date_at(t, 0);
    assert_eq!((utc.year(), utc.month(), utc.day()), (2024, 12, 1));
    let east = date_at(at("2024-12-31T23:00:00Z"), 3600);
    assert_eq!((east.year(), east.month(), east.day()), (2025, 1, 1));
    assert_eq!(est_date(t), date_at(t, EST_UTC_OFFSET));
}

#[test]
fn timestamps_cover_what_the_calendar_covers() {
    let min = DateTime::<Utc>::MIN_UTC;
    let max = DateTime::<Utc>::MAX_UTC;
    assert_eq!(min.timestamp(), aocbot::time::MIN_TIMESTAMP_SECS);
    assert_eq!(max.timestamp(), aocbot::time::MAX_TIMESTAMP_SECS);
    assert!(Timestamp::from_secs(min.timestamp()).is_some());
    assert!(Timestamp::from_secs(min.timestamp() - 1).is_none());
    assert!(Timestamp::from_parts(max.timestamp(), 999_999_999).is_some());
    assert!(Timestamp::from_secs(max.timestamp() + 1).is_none());
    assert!(Timestamp::from_parts(0, 1_000_000_000).is_none());
    assert!(DateTime::from_timestamp(min.timestamp() - 1, 0).is_none());
    assert!(DateTime::from_timestamp(max.timestamp() + 1, 0).is_none());
    let first = date_at(Timestamp::from_secs(min.timestamp()).unwrap(), EST_UTC_OFFSET);
    assert_eq!((first.year(), first.month(), first.day()), (-262_144, 12, 31));
    let last = date_at(Timestamp::from_secs(max.timestamp()).unwrap(), 86_399);
    assert_eq!((last.year(), last.month(), last.day()), (262_143, 1, 1));
    assert_eq!(aocbot::time::MIN_YEAR, -262_143);
    assert_eq!(aocbot::time::MAX_YEAR, 262_142);
}

#[test]
fn timestamps_compare_by_instant() {
    let a = Timestamp::from_parts(10, 999_999_999).unwrap();
    let b = Timestamp::from_parts(11, 0).unwrap();
    assert!(a.is_before(b));
    assert!(!b.is_before(a));
    assert!(!a.is_before(a));
    assert!(a.is_at_or_before(a));
    assert!(a.is_at_or_before(b));
    assert!(!b.is_at_or_before(a));
    assert_eq!(a.max(b), b);
    assert_eq!(b.max(a), b);
    assert_eq!(a.as_nanos(), 10_999_999_999);
    assert_eq!(Timestamp::from_parts(-1, 1).unwrap().as_nanos(), -999_999_999);
    assert_eq!(Timestamp::epoch(), Timestamp::from_secs(0).unwrap());
    assert!(a < b);
}

#[test]
fn the_clock_reads_an_instant_in_range() {
    let before = Utc::now();
    let now = aocbot::time::now().unwrap();
    let after = Utc::now();
    assert!(now.timestamp() > 1_700_000_000);
    assert!(now.timestamp_subsec_nanos() < 1_000_000_000);
    assert!(before <= to_chrono(now) && to_chrono(now) <= after);
    for _ in 0..1000 {
        assert!(aocbot::time::now().is_some());
    }
}

#[test]
fn midnight_in_december_at_the_ends_of_the_calendar() {
    let utc = |offset, year, day| to_chrono(december_midnight(offset, year, day)).to_rfc3339();
    assert_eq!(utc(0, 2024, 1), "2024-12-01T00:00:00+00:00");
    assert_eq!(utc(3600, 2024, 1), "2024-11-30T23:00:00+00:00");
    assert_eq!(utc(-86_399, 262_142, 31), "+262142-12-31T23:59:59+00:00");
    assert_eq!(utc(86_399, 262_142, 31), "+262142-12-30T00:00:01+00:00");
    assert_eq!(utc(86_399, -262_143, 1), "-262143-11-30T00:00:01+00:00");
    assert_eq!(utc(-86_399, -262_143, 1), "-262143-12-01T23:59:59+00:00");
    assert_eq!(
        december_midnight(-86_399, 262_142, 31).timestamp(),
        aocbot::time::MAX_TIMESTAMP_SECS
    );
    assert_eq!(december_midnight(EST_UTC_OFFSET, 1969, 31).timestamp(), 18_000 - 86_400);
}
