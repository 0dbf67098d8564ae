use aocbot::fmt::{decimal_string, fmt_rank, fmt_timedelta, parse_u64};

#[test]
fn ranks() {
    assert_eq!(fmt_rank(0), "0th");
    assert_eq!(fmt_rank(1), "🥇 1st");
    assert_eq!(fmt_rank(2), "🥈 2nd");
    assert_eq!(fmt_rank(3), "🥉 3rd");
    assert_eq!(fmt_rank(4), "4th");
    assert_eq!(fmt_rank(10), "10th");
    assert_eq!(fmt_rank(11), "11th");
    assert_eq!(fmt_rank(12), "12th");
    assert_eq!(fmt_rank(13), "13th");
    assert_eq!(fmt_rank(21), "21st");
    assert_eq!(fmt_rank(22), "22nd");
    assert_eq!(fmt_rank(23), "23rd");
    assert_eq!(fmt_rank(101), "101st");
    assert_eq!(fmt_rank(111), "111th");
    assert_eq!(fmt_rank(112), "112th");
    assert_eq!(fmt_rank(113), "113th");
    assert_eq!(fmt_rank(200), "200th");
    assert_eq!(fmt_rank(1002), "1002nd");
}

#[test]
fn spans_of_time() {
    assert_eq!(fmt_timedelta(0), "0s");
    assert_eq!(fmt_timedelta(4), "4s");
    assert_eq!(fmt_timedelta(59), "59s");
    assert_eq!(fmt_timedelta(60), "1m 0s");
    assert_eq!(fmt_timedelta(184), "3m 4s");
    assert_eq!(fmt_timedelta(3600), "1h 0m 0s");
    assert_eq!(fmt_timedelta(7205), "2h 0m 5s");
    assert_eq!(fmt_timedelta(86_400), "1d 0h 0m 0s");
    assert_eq!(fmt_timedelta(93_784), "1d 2h 3m 4s");
    assert_eq!(fmt_timedelta(100 * 86_400 + 23 * 3600 + 59 * 60 + 59), "100d 23h 59m 59s");
    assert_eq!(fmt_timedelta(-30), "-30s");
    assert_eq!(fmt_timedelta(-60), "0s");
    assert_eq!(fmt_timedelta(-90), "-30s");
    assert_eq!(fmt_timedelta(-86_401), "-1s");
    assert_eq!(fmt_timedelta(i64::MAX), "106751991167300d 15h 30m 7s");
    assert_eq!(fmt_timedelta(i64::MIN), "-8s");
}

#[test]
fn spans_of_time_as_the_time_library_counts_them() {
    for secs in [0i64, 59, 61, 3599, 3600, 86_399, 86_400, 1_000_000, -1, -59, -61, -3601, -90_000] {
        let td = chrono::TimeDelta::seconds(secs);
        let s = td.num_seconds() % 60;
        let m = td.num_minutes() % 60;
        let h = td.num_hours() % 24;
        let d = td.num_days();
        let expected = if td.num_days() >= 1 {
            format!("{d}d {h}h {m}m {s}s")
        } else if td.num_hours() >= 1 {
            format!("{h}h {m}m {s}s")
        } else if td.num_minutes() >= 1 {
            format!("{m}m {s}s")
        } else {
            format!("{s}s")
        };
        assert_eq!(fmt_timedelta(secs), expected);
    }
}

#[test]
fn decimal_numbers() {
    assert_eq!(decimal_string(0), "0");
    assert_eq!(decimal_string(7), "7");
    assert_eq!(decimal_string(10), "10");
    assert_eq!(decimal_string(1905), "1905");
    assert_eq!(decimal_string(u64::MAX), "18446744073709551615");
    assert_eq!(parse_u64("0"), Some(0));
    assert_eq!(parse_u64("007"), Some(7));
    assert_eq!(parse_u64("123456"), Some(123456));
    assert_eq!(parse_u64("18446744073709551615"), Some(u64::MAX));
    assert_eq!(parse_u64("18446744073709551616"), None);
    assert_eq!(parse_u64("99999999999999999999999"), None);
    assert_eq!(parse_u64(""), None);
    assert_eq!(parse_u64("+1"), Some(1));
    assert_eq!(parse_u64("+"), None);
    assert_eq!(parse_u64("++1"), None);
    assert_eq!(parse_u64("1+"), None);
    assert_eq!(parse_u64("+18446744073709551615"), Some(u64::MAX));
    assert_eq!(parse_u64("-1"), None);
    assert_eq!(parse_u64("1 "), None);
    assert_eq!(parse_u64("12a"), None);
    assert_eq!(parse_u64("٣"), None);
    for text in ["", "+", "-", "+0", "-0", "0", "00", " 1", "1_000", "0x10", "12", "+12", "18446744073709551616"] {
        assert_eq!(parse_u64(text), text.parse::<u64>().ok());
    }
    for n in [0u64, 9, 10, 99, 100, 12345, u64::MAX - 1, u64::MAX] {
        assert_eq!(parse_u64(&decimal_string(n)), Some(n));
        assert_eq!(decimal_string(n), n.to_string());
    }
}
