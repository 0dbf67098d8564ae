//! The puzzle days of the event: one per day from 1 to 25 December, each unlocking at
//! midnight of the event's calendar.

use crate::time::{
    civil_date, civil_midnight_secs, december_midnight, est_date, CivilDate, LocalDate, Timestamp,
    EST_UTC_OFFSET, MAX_YEAR, MIN_YEAR,
};
use crate::fmt::{decimal, push_decimal, push_signed_decimal, signed_decimal};
use vstd::prelude::*;
use vstd::string::StringExecFns;

verus! {

/// The last day of December on which a puzzle unlocks.
pub const LAST_PUZZLE_DAY: u32 = 25;

/// A puzzle day: day `day` of December of `year`.
#[derive(Debug, Clone, Copy, PartialEq, Eq, Structural)]
pub struct AocDay {
    pub year: i32,
    pub day: u32,
}

impl AocDay {
    /// Whether the day is a day of a December that the calendar can turn into an instant.
    pub open spec fn on_calendar(self) -> bool {
        MIN_YEAR <= self.year <= MAX_YEAR && 1 <= self.day <= 31
    }

    /// Seconds from the epoch to midnight (UTC-5) at the start of the day.
    pub open spec fn unlock_secs(self) -> int {
        civil_midnight_secs(EST_UTC_OFFSET as int, self.year as int, 12, self.day as int)
    }

    /// The puzzle day in progress on `today`: `today` itself from 1 to 25 December.
    pub open spec fn current_on_spec(today: CivilDate) -> Option<AocDay> {
        if today.month == 12 && today.day <= LAST_PUZZLE_DAY {
            Some(AocDay { year: today.year as i32, day: today.day as u32 })
        } else {
            None
        }
    }

    /// The first puzzle day that starts after `today`.
    pub open spec fn next_on_spec(today: CivilDate) -> AocDay {
        if today.month != 12 {
            AocDay { year: today.year as i32, day: 1 }
        } else if today.day < LAST_PUZZLE_DAY {
            AocDay { year: today.year as i32, day: (today.day + 1) as u32 }
        } else {
            AocDay { year: (today.year + 1) as i32, day: 1 }
        }
    }

    /// The last puzzle day that has started by `today`.
    pub open spec fn most_recent_on_spec(today: CivilDate) -> AocDay {
        if today.month != 12 {
            AocDay { year: (today.year - 1) as i32, day: LAST_PUZZLE_DAY }
        } else if today.day <= LAST_PUZZLE_DAY {
            AocDay { year: today.year as i32, day: today.day as u32 }
        } else {
            AocDay { year: today.year as i32, day: LAST_PUZZLE_DAY }
        }
    }

    /// The date that the event's calendar (UTC-5) shows at `now`.
    pub open spec fn today(now: Timestamp) -> CivilDate {
        civil_date(now.secs(), EST_UTC_OFFSET as int)
    }

    /// The address of the day's puzzle.
    pub open spec fn url_spec(self) -> Seq<char> {
        "https://adventofcode.com/"@ + signed_decimal(self.year as int) + "/day/"@ + decimal(
            self.day as nat,
        )
    }

    /// The address of the day's puzzle: `https://adventofcode.com/<year>/day/<day>`.
    pub fn url(self) -> (url: String)
        ensures
            url@ == self.url_spec(),
    {
        let mut url = String::new();
        url.append("https://adventofcode.com/");
        push_signed_decimal(&mut url, self.year as i64);
        url.append("/day/");
        push_decimal(&mut url, self.day as u64);
        assert(url@ =~= self.url_spec());
        url
    }

    /// The instant at which the day's puzzle unlocks: midnight (UTC-5) at the start of the day.
    pub fn unlock_datetime(self) -> (t: Timestamp)
        requires
            self.on_calendar(),
        ensures
            t.secs() == self.unlock_secs(),
            t.subsec_nanos() == 0,
            t.wf(),
    {
        december_midnight(EST_UTC_OFFSET, self.year, self.day)
    }

    /// The instant at which the day's puzzle unlocks, or `None` where the day is not
    /// one the calendar can turn into an instant.
    pub fn checked_unlock_datetime(self) -> (t: Option<Timestamp>)
        ensures
            t is Some <==> self.on_calendar(),
            t matches Some(t) ==> t.secs() == self.unlock_secs() && t.subsec_nanos() == 0
                && t.wf(),
    {
        if MIN_YEAR <= self.year && self.year <= MAX_YEAR && 1 <= self.day && self.day <= 31 {
            Some(self.unlock_datetime())
        } else {
            None
        }
    }

    /// The puzzle day in progress on `today`, if `today` is one of 1 to 25 December.
    pub fn current_on(today: LocalDate) -> (day: Option<AocDay>)
        ensures
            day == Self::current_on_spec(today@),
    {
        if today.month() == 12 && today.day() <= LAST_PUZZLE_DAY {
            Some(AocDay { year: today.year(), day: today.day() })
        } else {
            None
        }
    }

    /// The first puzzle day that starts after `today`: 1 December of this year before
    /// December, tomorrow up to 24 December, 1 December of next year from the 25th on.
    pub fn next_on(today: LocalDate) -> (day: AocDay)
        ensures
            day == Self::next_on_spec(today@),
    {
        if today.month() != 12 {
            AocDay { year: today.year(), day: 1 }
        } else if today.day() < LAST_PUZZLE_DAY {
            AocDay { year: today.year(), day: today.day() + 1 }
        } else {
            AocDay { year: today.year() + 1, day: 1 }
        }
    }

    /// The last puzzle day that has started by `today`: 25 December of last year before
    /// December, otherwise today or the 25th of this December, whichever is earlier.
    pub fn most_recent_on(today: LocalDate) -> (day: AocDay)
        ensures
            day == Self::most_recent_on_spec(today@),
    {
        if today.month() != 12 {
            AocDay { year: today.year() - 1, day: LAST_PUZZLE_DAY }
        } else if today.day() <= LAST_PUZZLE_DAY {
            AocDay { year: today.year(), day: today.day() }
        } else {
            AocDay { year: today.year(), day: LAST_PUZZLE_DAY }
        }
    }

    /// The puzzle day in progress at `now`, read in the event's calendar.
    pub fn current(now: Timestamp) -> (day: Option<AocDay>)
        ensures
            day == Self::current_on_spec(Self::today(now)),
    {
        let today = est_date(now);
        Self::current_on(today)
    }

    /// The first puzzle day that starts after `now`, read in the event's calendar.
    pub fn next(now: Timestamp) -> (day: AocDay)
        ensures
            day == Self::next_on_spec(Self::today(now)),
    {
        let today = est_date(now);
        Self::next_on(today)
    }

    /// The last puzzle day that has started by `now`, read in the event's calendar.
    pub fn most_recent(now: Timestamp) -> (day: AocDay)
        ensures
            day == Self::most_recent_on_spec(Self::today(now)),
    {
        let today = est_date(now);
        Self::most_recent_on(today)
    }
}

} // verus!
