//! The steps of the background loops: waiting for the next unlock, and watching the
//! leaderboard for changes from one poll to the next.

use crate::day::AocDay;
use crate::diff::{
    describes_solve, in_time_order, is_membership_change, is_new_solve, is_recent,
    membership_diff, reports_member, reports_solve, solve_diff, solves_distinct_from,
    MembershipEvent, SolveEvent,
};
use crate::models::{PrivateLeaderboard, PrivateLeaderboardMember};
use crate::time::Timestamp;
use vstd::prelude::*;

verus! {

/// The longest single sleep while waiting for an instant: 60 seconds, in nanoseconds.
pub const MAX_SLEEP_NANOS: u64 = 60_000_000_000;

/// One step of waiting for an instant.
#[derive(Debug, Clone, Copy, PartialEq, Eq, Structural)]
pub enum SleepStep {
    /// The instant has come.
    Done,
    /// Sleep for this many nanoseconds, then look at the clock again.
    Sleep { nanos: u64 },
}

/// The step of a wait for `until` that finds the clock at `now`: done once `now` has
/// reached `until`, otherwise a sleep for the time that is left, but for no more than 60
/// seconds.
pub open spec fn sleep_step_spec(now: Timestamp, until: Timestamp) -> SleepStep {
    if now@ >= until@ {
        SleepStep::Done
    } else if until@ - now@ <= MAX_SLEEP_NANOS {
        SleepStep::Sleep { nanos: (until@ - now@) as u64 }
    } else {
        SleepStep::Sleep { nanos: MAX_SLEEP_NANOS }
    }
}

/// The step of a wait for `until` that finds the clock at `now`.
pub fn sleep_step(now: Timestamp, until: Timestamp) -> (step: SleepStep)
    ensures
        step == sleep_step_spec(now, until),
        step matches SleepStep::Sleep { nanos } ==> 0 < nanos <= MAX_SLEEP_NANOS,
{
    let left: i128 = until.as_nanos() - now.as_nanos();
    if left <= 0 {
        SleepStep::Done
    } else if left <= MAX_SLEEP_NANOS as i128 {
        SleepStep::Sleep { nanos: left as u64 }
    } else {
        SleepStep::Sleep { nanos: MAX_SLEEP_NANOS }
    }
}

/// The next puzzle day after `now` and the instant at which it unlocks; `None` where that
/// day is not on the calendar.
pub fn next_unlock(now: Timestamp) -> (next: Option<(AocDay, Timestamp)>)
    ensures
        next is Some <==> AocDay::next_on_spec(AocDay::today(now)).on_calendar(),
        next matches Some((day, unlock)) ==> day == AocDay::next_on_spec(AocDay::today(now))
            && unlock.secs() == day.unlock_secs() && unlock.subsec_nanos() == 0,
{
    let day = AocDay::next(now);
    match day.checked_unlock_datetime() {
        Some(unlock) => Some((day, unlock)),
        None => None,
    }
}

/// The members of the leaderboard last seen; none where nothing has been seen yet.
pub open spec fn members_seen(baseline: Option<PrivateLeaderboard>) -> Map<
    u64,
    PrivateLeaderboardMember,
> {
    match baseline {
        Some(leaderboard) => leaderboard.members@,
        None => Map::empty(),
    }
}

/// Watches who joins and leaves: holds the leaderboard last seen, against which the next
/// one is compared.
#[derive(Debug)]
pub struct MembershipWatcher {
    baseline: Option<PrivateLeaderboard>,
}

impl MembershipWatcher {
    /// The leaderboard last seen, if any.
    pub closed spec fn baseline(self) -> Option<PrivateLeaderboard> {
        self.baseline
    }

    /// A watcher that has seen `seed`, or nothing yet.
    pub fn new(seed: Option<PrivateLeaderboard>) -> (watcher: MembershipWatcher)
        ensures
            watcher.baseline() == seed,
    {
        MembershipWatcher { baseline: seed }
    }

    /// Who joined and who left between the leaderboard last seen and `current`. Nothing
    /// is reported while nothing has been seen yet.
    pub fn changes<'a>(&'a self, current: &'a PrivateLeaderboard) -> (events: Vec<
        MembershipEvent<'a>,
    >)
        ensures
            members_seen(self.baseline()).len() == 0 ==> events@.len() == 0,
            forall|i: int|
                0 <= i < events@.len() ==> is_membership_change(
                    members_seen(self.baseline()),
                    current.members@,
                    #[trigger] events@[i],
                ),
            forall|i: int, j: int|
                0 <= i < j < events@.len() ==> (#[trigger] events@[i]).id != (#[trigger] events@[j]).id,
            forall|i: int, j: int|
                0 <= i < j < events@.len() && (#[trigger] events@[j]).joined ==> (
                #[trigger] events@[i]).joined,
            members_seen(self.baseline()).len() != 0 ==> forall|id: u64| #[trigger]
                current.members@.contains_key(id) && !members_seen(self.baseline()).contains_key(id)
                    ==> reports_member(events@, id, true),
            members_seen(self.baseline()).len() != 0 ==> forall|id: u64| #[trigger]
                members_seen(self.baseline()).contains_key(id) && !current.members@.contains_key(id)
                    ==> reports_member(events@, id, false),
    {
        match &self.baseline {
            Some(seen) => membership_diff(&seen.members, &current.members),
            None => Vec::new(),
        }
    }

    /// Takes `current` as the leaderboard last seen. A poll that failed has nothing to hand
    /// in, so it leaves the watcher as it is.
    pub fn advance(&mut self, current: PrivateLeaderboard)
        ensures
            final(self).baseline() == Some(current),
    {
        self.baseline = Some(current);
    }
}

/// Watches for newly solved puzzles: holds the year that is watched and the leaderboard
/// of that year last seen.
#[derive(Debug)]
pub struct SolveWatcher {
    year: i32,
    baseline: Option<PrivateLeaderboard>,
}

impl SolveWatcher {
    /// The year that is watched.
    pub closed spec fn year(self) -> i32 {
        self.year
    }

    /// The leaderboard last seen, if any.
    pub closed spec fn baseline(self) -> Option<PrivateLeaderboard> {
        self.baseline
    }

    /// A watcher of `year` that has seen `seed`, or nothing yet.
    pub fn new(year: i32, seed: Option<PrivateLeaderboard>) -> (watcher: SolveWatcher)
        ensures
            watcher.year() == year,
            watcher.baseline() == seed,
    {
        SolveWatcher { year, baseline: seed }
    }

    /// The year that is watched.
    pub fn watched_year(&self) -> (year: i32)
        ensures
            year == self.year(),
    {
        self.year
    }

    /// Turns the watcher to `current_year`. Where that is another year than the one
    /// watched, what was last seen is forgotten, so that the first leaderboard of the new
    /// year reports nothing.
    pub fn sync_year(&mut self, current_year: i32)
        ensures
            final(self).year() == current_year,
            final(self).baseline() == if old(self).year() == current_year {
                old(self).baseline()
            } else {
                None
            },
    {
        if current_year != self.year {
            self.baseline = None;
            self.year = current_year;
        }
    }

    /// What has been newly solved between the leaderboard last seen and `current`,
    /// earliest first. Nothing is reported while nothing has been seen yet.
    pub fn changes<'a>(&self, current: &'a PrivateLeaderboard, now: Timestamp) -> (events: Vec<
        SolveEvent<'a>,
    >)
        ensures
            forall|i: int|
                0 <= i < events@.len() ==> describes_solve(
                    members_seen(self.baseline()),
                    current.members@,
                    self.year(),
                    now,
                    #[trigger] events@[i],
                ),
            forall|i: int| 0 <= i < events@.len() ==> is_recent(now, (#[trigger] events@[i]).ts),
            solves_distinct_from(events@, 0),
            forall|id: u64, day: u32, part2: bool| #[trigger]
                is_new_solve(members_seen(self.baseline()), current.members@, now, id, day, part2)
                    ==> reports_solve(events@, id, day, part2),
            in_time_order(events@),
            self.baseline() is None ==> events@.len() == 0,
    {
        match &self.baseline {
            Some(seen) => solve_diff(&seen.members, &current.members, self.year, now),
            None => Vec::new(),
        }
    }

    /// Takes `current` as the leaderboard last seen. A poll that failed has nothing to hand
    /// in, so it leaves the watcher as it is.
    pub fn advance(&mut self, current: PrivateLeaderboard)
        ensures
            final(self).year() == old(self).year(),
            final(self).baseline() == Some(current),
    {
        self.baseline = Some(current);
    }
}

} // verus!
