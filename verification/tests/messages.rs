use aocbot::day::AocDay;
use aocbot::messages::{error_text, membership_message, solve_message, unlock_message};
use aocbot::time::{seconds_between, DateTimeExt, Timestamp};
use chrono::{DateTime, Utc};

fn at(text: &str) -> Timestamp {
    let instant = text.parse::<DateTime<Utc>>().unwrap();
    Timestamp::from_parts(instant.timestamp(), instant.timestamp_subsec_nanos()).unwrap()
}

#[test]
fn the_notice_of_a_solve() {
    assert_eq!(
        solve_message("**Ada**", false, AocDay { year: 2024, day: 3 }, "2024-12-03 06:05:11 +01:00", 1),
        "**Ada** has solved part one of [**Advent of Code 2024 Day 3**]\
         (https://adventofcode.com/2024/day/3) at 2024-12-03 06:05:11 +01:00 (🥇 1st)"
    );
    assert_eq!(
        solve_message("x (y)", true, AocDay { year: 2023, day: 25 }, "t", 12),
        "x (y) has solved part two of [**Advent of Code 2023 Day 25**]\
         (https://adventofcode.com/2023/day/25) at t (12th)"
    );
}

#[test]
fn the_notice_of_a_change_of_members() {
    assert_eq!(membership_message("**Ada**", true), "**Ada** has joined the private leaderboard");
    assert_eq!(membership_message("**Ada**", false), "**Ada** has left the private leaderboard");
}

#[test]
fn the_announcement_of_an_unlock() {
    assert_eq!(
        unlock_message(AocDay { year: 2024, day: 1 }, "https://href.li/?"),
        "✨ The puzzles of **Advent of Code 2024 Day 1** can now be solved at \
         [https://adventofcode.com/2024/day/1](https://href.li/?https://adventofcode.com/2024/day/1) \
         ✨ <!-- 🎉 -->"
    );
    assert_eq!(
        unlock_message(AocDay { year: 2025, day: 12 }, ""),
        "✨ The puzzles of **Advent of Code 2025 Day 12** can now be solved at \
         [https://adventofcode.com/2025/day/12](https://adventofcode.com/2025/day/12) ✨ <!-- 🎉 -->"
    );
}

#[test]
fn the_text_of_an_error() {
    assert_eq!(error_text("User not found"), "❌ Error: User not found");
    assert_eq!(error_text(""), "❌ Error: ");
}

#[test]
fn instants_as_shown_to_users() {
    let t = at("2024-12-01T05:00:00.75Z");
    assert_eq!(t.format_ymd_hms_z(3600), "2024-12-01 06:00:00 +01:00");
    assert_eq!(t.format_ymd_hms(3600), "2024-12-01 06:00:00");
    assert_eq!(t.format_ymd_hms_z(-18_000), "2024-12-01 00:00:00 -05:00");
    assert_eq!(t.format_ymd_hms_z(0), "2024-12-01 05:00:00 +00:00");
    assert_eq!(t.format_ymd_hms(-18_001), "2024-11-30 23:59:59");
    assert_eq!(t.format_ymd_hms_z(19_800), "2024-12-01 10:30:00 +05:30");
    let early = at("0099-03-04T05:06:07Z");
    assert_eq!(early.format_ymd_hms(0), "0099-03-04 05:06:07");
}

#[test]
fn whole_seconds_between_instants() {
    let t = |secs, nanos| Timestamp::from_parts(secs, nanos).unwrap();
    assert_eq!(seconds_between(t(10, 0), t(25, 0)), 15);
    assert_eq!(seconds_between(t(10, 1), t(25, 0)), 14);
    assert_eq!(seconds_between(t(25, 0), t(10, 0)), -15);
    assert_eq!(seconds_between(t(25, 0), t(10, 1)), -14);
    assert_eq!(seconds_between(t(0, 0), t(0, 999_999_999)), 0);
    let from = "2024-12-01T05:00:00.9Z".parse::<DateTime<Utc>>().unwrap();
    let to = "2024-12-03T07:45:30.5Z".parse::<DateTime<Utc>>().unwrap();
    assert_eq!(
        seconds_between(at("2024-12-01T05:00:00.9Z"), at("2024-12-03T07:45:30.5Z")),
        (to - from).num_seconds()
    );
    assert_eq!(
        seconds_between(at("2024-12-03T07:45:30.5Z"), at("2024-12-01T05:00:00.9Z")),
        (from - to).num_seconds()
    );
}
