//! The commands that the bot answers to, and the arguments they take.

use crate::day::{AocDay, LAST_PUZZLE_DAY};
use crate::fmt::{parse_u64, u64_value};
use crate::text::str_eq;
use vstd::prelude::*;

verus! {

/// The first year of the event.
pub const FIRST_YEAR: i32 = 2015;

/// The largest number of rows, and the largest offset, that a leaderboard can be asked for.
pub const MAX_ROWS: usize = 200;

/// A command of the bot.
#[derive(Debug, Clone, Copy, PartialEq, Eq, Structural)]
pub enum Command {
    /// `join`: how to join the private leaderboard.
    Join,
    /// `leaderboard` or `lb`: a slice of the private leaderboard.
    Leaderboard,
    /// `day`: a slice of the leaderboard of one day.
    Day,
    /// `user`: the statistics of one member.
    User,
    /// `solutions` or `repos`: the list of solution repositories.
    Solutions,
    /// `clear-cache` or `cc`: empty the leaderboard cache.
    ClearCache,
    /// `ping`: check that the bot is alive.
    Ping,
    /// `help`: the list of commands.
    Help,
    /// `op`: set the power level of a room member.
    Op,
    /// Anything else.
    Unknown,
}

impl Command {
    /// The command of the given name.
    pub open spec fn from_name_spec(name: Seq<char>) -> Command {
        if name == "join"@ {
            Command::Join
        } else if name == "leaderboard"@ || name == "lb"@ {
            Command::Leaderboard
        } else if name == "day"@ {
            Command::Day
        } else if name == "user"@ {
            Command::User
        } else if name == "solutions"@ || name == "repos"@ {
            Command::Solutions
        } else if name == "clear-cache"@ || name == "cc"@ {
            Command::ClearCache
        } else if name == "ping"@ {
            Command::Ping
        } else if name == "help"@ {
            Command::Help
        } else if name == "op"@ {
            Command::Op
        } else {
            Command::Unknown
        }
    }

    /// The command of the given name; names are told apart by case.
    pub fn from_name(name: &str) -> (command: Command)
        ensures
            command == Self::from_name_spec(name@),
    {
        if str_eq(name, "join") {
            Command::Join
        } else if str_eq(name, "leaderboard") || str_eq(name, "lb") {
            Command::Leaderboard
        } else if str_eq(name, "day") {
            Command::Day
        } else if str_eq(name, "user") {
            Command::User
        } else if str_eq(name, "solutions") || str_eq(name, "repos") {
            Command::Solutions
        } else if str_eq(name, "clear-cache") || str_eq(name, "cc") {
            Command::ClearCache
        } else if str_eq(name, "ping") {
            Command::Ping
        } else if str_eq(name, "help") {
            Command::Help
        } else if str_eq(name, "op") {
            Command::Op
        } else {
            Command::Unknown
        }
    }
}

/// An argument that is no number, or a number out of range.
#[derive(Debug, Clone, Copy, PartialEq, Eq, Structural)]
pub enum ArgumentError {
    Year,
    Rows,
    Offset,
}

impl ArgumentError {
    /// What the user is told.
    pub fn message(self) -> (text: &'static str)
        ensures
            text@ == match self {
                ArgumentError::Year => "Failed to parse argument 'year'"@,
                ArgumentError::Rows => "Failed to parse argument 'rows'"@,
                ArgumentError::Offset => "Failed to parse argument 'offset'"@,
            },
    {
        match self {
            ArgumentError::Year => "Failed to parse argument 'year'",
            ArgumentError::Rows => "Failed to parse argument 'rows'",
            ArgumentError::Offset => "Failed to parse argument 'offset'",
        }
    }
}

/// The number that an argument stands for, if it is one from `least` to `most`.
pub open spec fn number_within(text: Seq<char>, least: u64, most: u64) -> Option<u64> {
    match u64_value(text) {
        Some(n) => if least <= n <= most {
            Some(n)
        } else {
            None
        },
        None => None,
    }
}

/// The number that an argument stands for, if it is one from `least` to `most`.
pub fn parse_within(text: &str, least: u64, most: u64) -> (n: Option<u64>)
    ensures
        n == number_within(text@, least, most),
{
    match parse_u64(text) {
        Some(n) => if least <= n && n <= most {
            Some(n)
        } else {
            None
        },
        None => None,
    }
}

/// The year that a command is about: the year given, which has to be one from the first
/// year of the event to `most_recent_year`; `most_recent_year` where none is given.
pub fn year_argument(value: Option<&str>, most_recent_year: i32) -> (year: Result<
    i32,
    ArgumentError,
>)
    ensures
        year == match value {
            Some(text) => if most_recent_year >= FIRST_YEAR {
                match number_within(text@, FIRST_YEAR as u64, most_recent_year as u64) {
                    Some(n) => Ok(n as i32),
                    None => Err(ArgumentError::Year),
                }
            } else {
                Err(ArgumentError::Year)
            },
            None => Ok::<i32, ArgumentError>(most_recent_year),
        },
{
    match value {
        Some(text) => {
            if most_recent_year < FIRST_YEAR {
                return Err(ArgumentError::Year);
            }
            match parse_within(text, FIRST_YEAR as u64, most_recent_year as u64) {
                Some(n) => Ok(n as i32),
                None => Err(ArgumentError::Year),
            }
        },
        None => Ok(most_recent_year),
    }
}

/// The number of rows to show: the number given, up to 200; `default_rows` where none
/// is given.
pub fn rows_argument(value: Option<&str>, default_rows: usize) -> (rows: Result<usize, ArgumentError>)
    ensures
        rows == match value {
            Some(text) => match number_within(text@, 0, MAX_ROWS as u64) {
                Some(n) => Ok(n as usize),
                None => Err(ArgumentError::Rows),
            },
            None => Ok::<usize, ArgumentError>(default_rows),
        },
{
    match value {
        Some(text) => match parse_within(text, 0, MAX_ROWS as u64) {
            Some(n) => Ok(n as usize),
            None => Err(ArgumentError::Rows),
        },
        None => Ok(default_rows),
    }
}

/// The number of rows to leave out at the top: the number given, up to 200; none where
/// none is given.
pub fn offset_argument(value: Option<&str>) -> (offset: Result<usize, ArgumentError>)
    ensures
        offset == match value {
            Some(text) => match number_within(text@, 0, MAX_ROWS as u64) {
                Some(n) => Ok(n as usize),
                None => Err(ArgumentError::Offset),
            },
            None => Ok::<usize, ArgumentError>(0),
        },
{
    match value {
        Some(text) => match parse_within(text, 0, MAX_ROWS as u64) {
            Some(n) => Ok(n as usize),
            None => Err(ArgumentError::Offset),
        },
        None => Ok(0),
    }
}

/// How many puzzle days of `year` have started by `most_recent`: those up to `most_recent`
/// in its own year, all 25 in any other.
pub fn days_started(year: i32, most_recent: AocDay) -> (days: u32)
    ensures
        days == if year == most_recent.year {
            most_recent.day
        } else {
            LAST_PUZZLE_DAY
        },
{
    if year == most_recent.year {
        most_recent.day
    } else {
        LAST_PUZZLE_DAY
    }
}

} // verus!
