//! Points on the UTC timeline and the fixed-offset calendar they are read in.

use chrono::{Datelike, TimeZone};
use vstd::prelude::*;

verus! {

/// Nanoseconds in one second.
pub const NANOS_PER_SEC: u32 = 1_000_000_000;

/// Seconds in one day.
pub const SECS_PER_DAY: i64 = 86_400;

/// Offset of the event's calendar from UTC, in seconds east of Greenwich (UTC-5, no DST).
pub const EST_UTC_OFFSET: i32 = -18_000;

/// Earliest second a [`Timestamp`] can hold: midnight (UTC) of 1 January of the year -262143.
pub const MIN_TIMESTAMP_SECS: i64 = -8_334_601_228_800;

/// Latest second a [`Timestamp`] can hold: the last second (UTC) of 31 December 262142.
pub const MAX_TIMESTAMP_SECS: i64 = 8_210_266_876_799;

/// Earliest calendar year in which a date can be turned into a [`Timestamp`].
pub const MIN_YEAR: i32 = -262_143;

/// Latest calendar year in which a date can be turned into a [`Timestamp`].
pub const MAX_YEAR: i32 = 262_142;

/// Whether `secs` seconds since the epoch lie in the range a [`Timestamp`] covers.
pub open spec fn secs_in_range(secs: int) -> bool {
    MIN_TIMESTAMP_SECS <= secs <= MAX_TIMESTAMP_SECS
}

/// An instant on the UTC timeline with nanosecond resolution.
#[derive(Clone, Copy, Debug, PartialEq, Eq, PartialOrd, Ord, Hash)]
pub struct Timestamp {
    secs: i64,
    nanos: u32,
}

impl View for Timestamp {
    type V = int;

    /// Nanoseconds since 1970-01-01T00:00:00Z.
    open spec fn view(&self) -> int {
        self.secs() * (NANOS_PER_SEC as int) + self.subsec_nanos()
    }
}

impl Timestamp {
    #[verifier::type_invariant]
    pub closed spec fn inv(self) -> bool {
        secs_in_range(self.secs as int) && self.nanos < NANOS_PER_SEC
    }

    /// Whole seconds since the epoch, rounded towards the past.
    pub closed spec fn secs(self) -> int {
        self.secs as int
    }

    /// Nanoseconds past the whole second.
    pub closed spec fn subsec_nanos(self) -> int {
        self.nanos as int
    }

    /// What every timestamp that executable code holds satisfies.
    pub open spec fn wf(self) -> bool {
        secs_in_range(self.secs()) && 0 <= self.subsec_nanos() < NANOS_PER_SEC
    }

    /// The instant `nanos` nanoseconds after `secs` whole seconds since the epoch,
    /// if it is in range.
    pub fn from_parts(secs: i64, nanos: u32) -> (t: Option<Timestamp>)
        ensures
            t is Some <==> secs_in_range(secs as int) && nanos < NANOS_PER_SEC,
            t matches Some(t) ==> t.secs() == secs && t.subsec_nanos() == nanos && t.wf(),
    {
        if MIN_TIMESTAMP_SECS <= secs && secs <= MAX_TIMESTAMP_SECS && nanos < NANOS_PER_SEC {
            Some(Timestamp { secs, nanos })
        } else {
            None
        }
    }

    /// The instant `secs` whole seconds after the epoch, if it is in range.
    pub fn from_secs(secs: i64) -> (t: Option<Timestamp>)
        ensures
            t is Some <==> secs_in_range(secs as int),
            t matches Some(t) ==> t.secs() == secs && t.subsec_nanos() == 0 && t.wf(),
    {
        Timestamp::from_parts(secs, 0)
    }

    /// 1970-01-01T00:00:00Z.
    pub fn epoch() -> (t: Timestamp)
        ensures
            t@ == 0,
            t.secs() == 0,
            t.subsec_nanos() == 0,
            t.wf(),
    {
        Timestamp { secs: 0, nanos: 0 }
    }

    /// Whole seconds since the epoch.
    pub fn timestamp(self) -> (secs: i64)
        ensures
            secs == self.secs(),
            secs_in_range(secs as int),
    {
        proof {
            use_type_invariant(self);
        }
        self.secs
    }

    /// Nanoseconds past the whole second.
    pub fn timestamp_subsec_nanos(self) -> (nanos: u32)
        ensures
            nanos == self.subsec_nanos(),
            nanos < NANOS_PER_SEC,
    {
        proof {
            use_type_invariant(self);
        }
        self.nanos
    }

    /// Nanoseconds since the epoch.
    pub fn as_nanos(self) -> (n: i128)
        ensures
            n == self@,
            self.wf(),
    {
        proof {
            use_type_invariant(self);
        }
        (self.secs as i128) * 1_000_000_000 + (self.nanos as i128)
    }

    /// Whether `self` is strictly earlier than `other`.
    pub fn is_before(self, other: Timestamp) -> (b: bool)
        ensures
            b == (self@ < other@),
    {
        self.as_nanos() < other.as_nanos()
    }

    /// Whether `self` is `other` or earlier.
    pub fn is_at_or_before(self, other: Timestamp) -> (b: bool)
        ensures
            b == (self@ <= other@),
    {
        self.as_nanos() <= other.as_nanos()
    }

    /// The later of the two instants.
    pub fn max(self, other: Timestamp) -> (t: Timestamp)
        ensures
            t == if self@ >= other@ { self } else { other },
    {
        if self.as_nanos() >= other.as_nanos() {
            self
        } else {
            other
        }
    }
}

/// Two timestamps with the same view are the same timestamp.
pub proof fn lemma_timestamp_view_injective(a: Timestamp, b: Timestamp)
    requires
        a.wf(),
        b.wf(),
        a@ == b@,
    ensures
        a == b,
{
    assert(a.secs() == b.secs() && a.subsec_nanos() == b.subsec_nanos()) by (nonlinear_arith)
        requires
            a.secs() * 1_000_000_000 + a.subsec_nanos() == b.secs() * 1_000_000_000
                + b.subsec_nanos(),
            0 <= a.subsec_nanos() < 1_000_000_000,
            0 <= b.subsec_nanos() < 1_000_000_000,
    ;
}

/// The calendar year that holds the instant `secs` seconds after the epoch, read in the
/// proleptic Gregorian calendar `offset` seconds east of Greenwich.
pub uninterp spec fn civil_year(secs: int, offset: int) -> int;

/// The month (1 to 12) that holds the instant `secs` seconds after the epoch, read in the
/// proleptic Gregorian calendar `offset` seconds east of Greenwich.
pub uninterp spec fn civil_month(secs: int, offset: int) -> int;

/// The day of the month (1 to 31) that holds the instant `secs` seconds after the epoch, read
/// in the proleptic Gregorian calendar `offset` seconds east of Greenwich.
pub uninterp spec fn civil_day(secs: int, offset: int) -> int;

/// Seconds from the epoch to the moment at which a clock `offset` seconds east of Greenwich
/// shows midnight at the start of the given day of the proleptic Gregorian calendar.
pub uninterp spec fn civil_midnight_secs(offset: int, year: int, month: int, day: int) -> int;

/// `chrono::Datelike::year` of the instant, taken in the zone `chrono::FixedOffset::east_opt(offset)`.
/// The year is the one chrono reports; it fits in the 19 bits chrono stores a year in.
#[verifier::external_body]
fn year_at(secs: i64, offset: i32) -> (year: i32)
    requires
        secs_in_range(secs as int),
        offset_in_range(offset as int),
    ensures
        year == civil_year(secs as int, offset as int),
        -262_144 <= year <= 262_143,
{
    let zone = chrono::FixedOffset::east_opt(offset).unwrap();
    let utc = chrono::DateTime::from_timestamp(secs, 0).unwrap();
    zone.from_utc_datetime(&utc.naive_utc()).year()
}

/// `chrono::Datelike::month` of the instant, taken in the zone
/// `chrono::FixedOffset::east_opt(offset)`: a month number from 1 to 12.
#[verifier::external_body]
fn month_at(secs: i64, offset: i32) -> (month: u32)
    requires
        secs_in_range(secs as int),
        offset_in_range(offset as int),
    ensures
        month == civil_month(secs as int, offset as int),
        1 <= month <= 12,
{
    let zone = chrono::FixedOffset::east_opt(offset).unwrap();
    let utc = chrono::DateTime::from_timestamp(secs, 0).unwrap();
    zone.from_utc_datetime(&utc.naive_utc()).month()
}

/// `chrono::Datelike::day` of the instant, taken in the zone
/// `chrono::FixedOffset::east_opt(offset)`: a day of the month from 1 to 31.
#[verifier::external_body]
fn day_at(secs: i64, offset: i32) -> (day: u32)
    requires
        secs_in_range(secs as int),
        offset_in_range(offset as int),
    ensures
        day == civil_day(secs as int, offset as int),
        1 <= day <= 31,
{
    let zone = chrono::FixedOffset::east_opt(offset).unwrap();
    let utc = chrono::DateTime::from_timestamp(secs, 0).unwrap();
    zone.from_utc_datetime(&utc.naive_utc()).day()
}

/// `chrono::TimeZone::with_ymd_and_hms` in the zone `chrono::FixedOffset::east_opt(offset)`,
/// for the given date at 0 hours, 0 minutes and 0 seconds, as seconds since the epoch.
/// The date is one in December, which has 31 days in every year, so it exists; midnight at
/// its start is less than a day away from the same moment in UTC, which keeps it among the
/// instants chrono can represent in every year chrono has dates for.
#[verifier::external_body]
fn local_midnight_secs(offset: i32, year: i32, month: u32, day: u32) -> (secs: i64)
    requires
        offset_in_range(offset as int),
        MIN_YEAR <= year <= MAX_YEAR,
        month == 12,
        1 <= day <= 31,
    ensures
        secs == civil_midnight_secs(offset as int, year as int, month as int, day as int),
        secs_in_range(secs as int),
{
    let zone = chrono::FixedOffset::east_opt(offset).unwrap();
    zone.with_ymd_and_hms(year, month, day, 0, 0, 0).unwrap().timestamp()
}

/// `chrono::Utc::now`, as whole seconds since the epoch and the nanoseconds past them.
/// chrono makes the reading by `DateTime::from_timestamp`, so it is an instant that chrono
/// can hold, and takes its nanoseconds from a `std::time::Duration`, whose nanoseconds
/// stay below one second. Of which instant it is, nothing is promised.
#[verifier::external_body]
fn utc_now() -> (parts: (i64, u32))
    ensures
        secs_in_range(parts.0 as int),
        parts.1 < NANOS_PER_SEC,
{
    let now = chrono::Utc::now();
    (now.timestamp(), now.timestamp_subsec_nanos())
}

/// The current instant as the system clock reads it; there always is one, and it is in range.
pub fn now() -> (t: Option<Timestamp>)
    ensures
        t is Some,
        t matches Some(t) ==> t.wf(),
{
    let (secs, nanos) = utc_now();
    Timestamp::from_parts(secs, nanos)
}

/// Whether `offset` seconds east of Greenwich is an offset a fixed-offset calendar can have:
/// less than one day either way.
pub open spec fn offset_in_range(offset: int) -> bool {
    -SECS_PER_DAY < offset < SECS_PER_DAY
}

/// A date of the proleptic Gregorian calendar: year (0 is 1 BCE), month and day of the month.
pub ghost struct CivilDate {
    pub year: int,
    pub month: int,
    pub day: int,
}

impl CivilDate {
    /// The fields a calendar can report: a month from 1 to 12, a day from 1 to 31, and a
    /// year no more than one past the years that can be turned into an instant.
    pub open spec fn in_range(self) -> bool {
        &&& MIN_YEAR - 1 <= self.year <= MAX_YEAR + 1
        &&& 1 <= self.month <= 12
        &&& 1 <= self.day <= 31
    }
}

/// The date that a calendar `offset` seconds east of Greenwich shows at the instant `secs`
/// seconds after the epoch.
pub open spec fn civil_date(secs: int, offset: int) -> CivilDate {
    CivilDate {
        year: civil_year(secs, offset),
        month: civil_month(secs, offset),
        day: civil_day(secs, offset),
    }
}

/// A calendar date as a calendar reports it.
#[derive(Clone, Copy, Debug, PartialEq, Eq)]
pub struct LocalDate {
    year: i32,
    month: u32,
    day: u32,
}

impl View for LocalDate {
    type V = CivilDate;

    closed spec fn view(&self) -> CivilDate {
        CivilDate { year: self.year as int, month: self.month as int, day: self.day as int }
    }
}

impl LocalDate {
    #[verifier::type_invariant]
    pub closed spec fn inv(self) -> bool {
        self@.in_range()
    }

    /// The date with the given fields, if they are ones a calendar can report.
    pub fn new(year: i32, month: u32, day: u32) -> (date: Option<LocalDate>)
        ensures
            date is Some <==> (CivilDate {
                year: year as int,
                month: month as int,
                day: day as int,
            }).in_range(),
            date matches Some(d) ==> d@ == (CivilDate {
                year: year as int,
                month: month as int,
                day: day as int,
            }),
    {
        if MIN_YEAR - 1 <= year && year <= MAX_YEAR + 1 && 1 <= month && month <= 12 && 1 <= day
            && day <= 31 {
            Some(LocalDate { year, month, day })
        } else {
            None
        }
    }

    /// The year; 0 is 1 BCE.
    pub fn year(self) -> (year: i32)
        ensures
            year == self@.year,
            self@.in_range(),
    {
        proof {
            use_type_invariant(self);
        }
        self.year
    }

    /// The month, 1 to 12.
    pub fn month(self) -> (month: u32)
        ensures
            month == self@.month,
            self@.in_range(),
    {
        proof {
            use_type_invariant(self);
        }
        self.month
    }

    /// The day of the month, 1 to 31.
    pub fn day(self) -> (day: u32)
        ensures
            day == self@.day,
            self@.in_range(),
    {
        proof {
            use_type_invariant(self);
        }
        self.day
    }
}

/// The date that a calendar `offset` seconds east of Greenwich shows at `t`.
pub fn date_at(t: Timestamp, offset: i32) -> (date: LocalDate)
    requires
        offset_in_range(offset as int),
    ensures
        date@ == civil_date(t.secs(), offset as int),
        date@.in_range(),
{
    let secs = t.timestamp();
    LocalDate { year: year_at(secs, offset), month: month_at(secs, offset), day: day_at(secs, offset) }
}

/// The date that the event's calendar (UTC-5) shows at `t`.
pub fn est_date(t: Timestamp) -> (date: LocalDate)
    ensures
        date@ == civil_date(t.secs(), EST_UTC_OFFSET as int),
        date@.in_range(),
{
    date_at(t, EST_UTC_OFFSET)
}

/// The instant at which a clock `offset` seconds east of Greenwich shows midnight at the start
/// of the given day of December.
pub fn december_midnight(offset: i32, year: i32, day: u32) -> (t: Timestamp)
    requires
        offset_in_range(offset as int),
        MIN_YEAR <= year <= MAX_YEAR,
        1 <= day <= 31,
    ensures
        t.secs() == civil_midnight_secs(offset as int, year as int, 12, day as int),
        t.subsec_nanos() == 0,
        t.wf(),
{
    let secs = local_midnight_secs(offset, year, 12, day);
    Timestamp::from_secs(secs).unwrap()
}

/// How an instant is shown with the offset of its calendar: `2024-12-01 06:00:00 +01:00`.
pub const YMD_HMS_Z: &'static str = "%Y-%m-%d %H:%M:%S %:z";

/// How an instant is shown without the offset of its calendar: `2024-12-01 06:00:00`.
pub const YMD_HMS: &'static str = "%Y-%m-%d %H:%M:%S";

/// The instant `secs` seconds after the epoch, shown on a calendar and clock `offset`
/// seconds east of Greenwich as `pattern` says, in the notation of `strftime`.
pub uninterp spec fn formatted_time(secs: int, offset: int, pattern: Seq<char>) -> Seq<char>;

/// `chrono::DateTime::format` of the instant, taken in the zone
/// `chrono::FixedOffset::east_opt(offset)`, turned into text.
/// The pattern is one of the two that this library shows instants by, both of which chrono
/// can read.
#[verifier::external_body]
fn format_at(secs: i64, offset: i32, pattern: &str) -> (text: String)
    requires
        secs_in_range(secs as int),
        offset_in_range(offset as int),
        pattern@ == YMD_HMS_Z@ || pattern@ == YMD_HMS@,
    ensures
        text@ == formatted_time(secs as int, offset as int, pattern@),
{
    let zone = chrono::FixedOffset::east_opt(offset).unwrap();
    let utc = chrono::DateTime::from_timestamp(secs, 0).unwrap();
    zone.from_utc_datetime(&utc.naive_utc()).format(pattern).to_string()
}

/// How instants are shown to users.
pub trait DateTimeExt: Sized {
    /// The whole seconds of the instant since the epoch.
    spec fn shown_secs(self) -> int;

    /// Date, time of day and offset, on a calendar `offset` seconds east of Greenwich.
    fn format_ymd_hms_z(self, offset: i32) -> (text: String)
        requires
            offset_in_range(offset as int),
        ensures
            text@ == formatted_time(self.shown_secs(), offset as int, YMD_HMS_Z@),
    ;

    /// Date and time of day, on a calendar `offset` seconds east of Greenwich.
    fn format_ymd_hms(self, offset: i32) -> (text: String)
        requires
            offset_in_range(offset as int),
        ensures
            text@ == formatted_time(self.shown_secs(), offset as int, YMD_HMS@),
    ;
}

impl DateTimeExt for Timestamp {
    open spec fn shown_secs(self) -> int {
        self.secs()
    }

    fn format_ymd_hms_z(self, offset: i32) -> (text: String) {
        format_at(self.timestamp(), offset, YMD_HMS_Z)
    }

    fn format_ymd_hms(self, offset: i32) -> (text: String) {
        format_at(self.timestamp(), offset, YMD_HMS)
    }
}

/// The whole seconds in `nanos` nanoseconds, rounded towards zero.
pub open spec fn whole_seconds(nanos: int) -> int {
    if nanos >= 0 {
        nanos / 1_000_000_000
    } else {
        -((-nanos) / 1_000_000_000)
    }
}

/// Whole seconds from `earlier` to `later`, rounded towards zero; negative where `later`
/// comes first.
pub fn seconds_between(earlier: Timestamp, later: Timestamp) -> (secs: i64)
    ensures
        secs == whole_seconds(later@ - earlier@),
{
    let delta: i128 = later.as_nanos() - earlier.as_nanos();
    if delta >= 0 {
        (delta / 1_000_000_000) as i64
    } else {
        let back: i128 = -delta;
        -((back / 1_000_000_000) as i64)
    }
}

} // verus!
