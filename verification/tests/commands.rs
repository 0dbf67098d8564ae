use aocbot::commands::{
    days_started, offset_argument, parse_within, rows_argument, year_argument, ArgumentError,
    Command,
};
use aocbot::day::AocDay;

#[test]
fn commands_by_name() {
    assert_eq!(Command::from_name("join"), Command::Join);
    assert_eq!(Command::from_name("leaderboard"), Command::Leaderboard);
    assert_eq!(Command::from_name("lb"), Command::Leaderboard);
    assert_eq!(Command::from_name("day"), Command::Day);
    assert_eq!(Command::from_name("user"), Command::User);
    assert_eq!(Command::from_name("solutions"), Command::Solutions);
    assert_eq!(Command::from_name("repos"), Command::Solutions);
    assert_eq!(Command::from_name("clear-cache"), Command::ClearCache);
    assert_eq!(Command::from_name("cc"), Command::ClearCache);
    assert_eq!(Command::from_name("ping"), Command::Ping);
    assert_eq!(Command::from_name("help"), Command::Help);
    assert_eq!(Command::from_name("op"), Command::Op);
    assert_eq!(Command::from_name(""), Command::Unknown);
    assert_eq!(Command::from_name("Join"), Command::Unknown);
    assert_eq!(Command::from_name("join "), Command::Unknown);
    assert_eq!(Command::from_name("clear_cache"), Command::Unknown);
}

#[test]
fn the_year_argument() {
    assert_eq!(year_argument(None, 2024), Ok(2024));
    assert_eq!(year_argument(Some("2015"), 2024), Ok(2015));
    assert_eq!(year_argument(Some("2024"), 2024), Ok(2024));
    assert_eq!(year_argument(Some("+2020"), 2024), Ok(2020));
    assert_eq!(year_argument(Some("02020"), 2024), Ok(2020));
    assert_eq!(year_argument(Some("2014"), 2024), Err(ArgumentError::Year));
    assert_eq!(year_argument(Some("2025"), 2024), Err(ArgumentError::Year));
    assert_eq!(year_argument(Some("-2020"), 2024), Err(ArgumentError::Year));
    assert_eq!(year_argument(Some("twenty"), 2024), Err(ArgumentError::Year));
    assert_eq!(year_argument(Some(""), 2024), Err(ArgumentError::Year));
    assert_eq!(year_argument(Some("99999999999"), 2024), Err(ArgumentError::Year));
    assert_eq!(year_argument(Some("2015"), 2014), Err(ArgumentError::Year));
    assert_eq!(year_argument(Some("2014"), 2014), Err(ArgumentError::Year));
    assert_eq!(year_argument(None, 2014), Ok(2014));
    assert_eq!(year_argument(None, -3), Ok(-3));
    for text in ["2015", "2024", "2025", "+2016", "-2016", "0", "x", "", "2147483648"] {
        let expected = text.parse::<i32>().ok().filter(|y| (2015..=2024).contains(y));
        assert_eq!(year_argument(Some(text), 2024).ok(), expected);
    }
}

#[test]
fn the_rows_and_offset_arguments() {
    assert_eq!(rows_argument(None, 15), Ok(15));
    assert_eq!(rows_argument(None, 1000), Ok(1000));
    assert_eq!(rows_argument(Some("0"), 15), Ok(0));
    assert_eq!(rows_argument(Some("200"), 15), Ok(200));
    assert_eq!(rows_argument(Some("201"), 15), Err(ArgumentError::Rows));
    assert_eq!(rows_argument(Some("-1"), 15), Err(ArgumentError::Rows));
    assert_eq!(rows_argument(Some("ten"), 15), Err(ArgumentError::Rows));
    assert_eq!(offset_argument(None), Ok(0));
    assert_eq!(offset_argument(Some("7")), Ok(7));
    assert_eq!(offset_argument(Some("200")), Ok(200));
    assert_eq!(offset_argument(Some("201")), Err(ArgumentError::Offset));
    assert_eq!(offset_argument(Some("1.5")), Err(ArgumentError::Offset));
    assert_eq!(parse_within("5", 5, 5), Some(5));
    assert_eq!(parse_within("5", 6, 4), None);
    assert_eq!(ArgumentError::Year.message(), "Failed to parse argument 'year'");
    assert_eq!(ArgumentError::Rows.message(), "Failed to parse argument 'rows'");
    assert_eq!(ArgumentError::Offset.message(), "Failed to parse argument 'offset'");
}

#[test]
fn the_days_that_have_started() {
    assert_eq!(days_started(2024, AocDay { year: 2024, day: 7 }), 7);
    assert_eq!(days_started(2023, AocDay { year: 2024, day: 7 }), 25);
    assert_eq!(days_started(2024, AocDay { year: 2024, day: 25 }), 25);
}
