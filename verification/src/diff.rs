//! What has changed between two readings of a leaderboard: who joined or left, and which
//! puzzle parts were newly solved.

use crate::day::AocDay;
use crate::listing::{
    entries, is_listing, keys_where, lemma_rearranges_insert, place_after_insert, rearranges,
};
use crate::models::{PrivateLeaderboardMember, PrivateLeaderboardMembers};
use crate::ranking::{finished_by, finisher_rank};
use crate::time::Timestamp;
use vstd::prelude::*;

verus! {

/// How far back a solve may lie and still be reported: 24 hours, in nanoseconds.
pub const SOLVE_MAX_AGE_NANOS: i128 = 86_400_000_000_000;

/// A member has joined or left the leaderboard.
#[derive(Debug, Clone, Copy)]
pub struct MembershipEvent<'a> {
    /// The id under which the member is listed.
    pub id: u64,
    pub member: &'a PrivateLeaderboardMember,
    /// `true` for a member who joined, `false` for one who left.
    pub joined: bool,
}

/// `event` reports a member of `current` that `previous` lacks as joined, or a member of `previous` that
/// `current` lacks as left.
pub open spec fn is_membership_change(
    previous: Map<u64, PrivateLeaderboardMember>,
    current: Map<u64, PrivateLeaderboardMember>,
    event: MembershipEvent,
) -> bool {
    if event.joined {
        current.contains_key(event.id) && !previous.contains_key(event.id) && *event.member == current[event.id]
    } else {
        previous.contains_key(event.id) && !current.contains_key(event.id) && *event.member == previous[event.id]
    }
}

/// Whether `events` reports the member listed under `id` as joined (`joined` true) or as
/// left (`joined` false).
pub open spec fn reports_member(events: Seq<MembershipEvent>, id: u64, joined: bool) -> bool {
    exists|i: int| 0 <= i < events.len() && (#[trigger] events[i]).id == id && events[i].joined == joined
}

/// Adds to `events` an event for every member of `present` that `absent_from` lacks.
fn push_missing<'a>(
    events: &mut Vec<MembershipEvent<'a>>,
    present: &'a PrivateLeaderboardMembers,
    absent_from: &PrivateLeaderboardMembers,
    joined: bool,
)
    ensures
        final(events)@.len() >= old(events)@.len(),
        final(events)@.subrange(0, old(events)@.len() as int) == old(events)@,
        forall|i: int|
            old(events)@.len() <= i < final(events)@.len() ==> {
                let event = #[trigger] final(events)@[i];
                &&& event.joined == joined
                &&& present@.contains_key(event.id)
                &&& !absent_from@.contains_key(event.id)
                &&& *event.member == present@[event.id]
            },
        forall|i: int, j: int|
            old(events)@.len() <= i < j < final(events)@.len() ==> (#[trigger] final(events)@[i]).id
                != (#[trigger] final(events)@[j]).id,
        forall|id: u64| #[trigger]
            present@.contains_key(id) && !absent_from@.contains_key(id) ==> exists|i: int|
                old(events)@.len() <= i < final(events)@.len() && (#[trigger] final(events)@[i]).id
                    == id,
{
    let list = entries(present);
    let ghost before = events@;
    let ghost mut source: Seq<int> = Seq::empty();
    let mut i: usize = 0;
    while i < list.len()
        invariant
            i <= list.len(),
            is_listing(list@, present@),
            events@.len() == before.len() + source.len(),
            events@.subrange(0, before.len() as int) == before,
            forall|k: int|
                0 <= k < source.len() ==> {
                    let event = #[trigger] events@[before.len() + k];
                    &&& 0 <= source[k] < i
                    &&& event.id == list@[source[k]].0
                    &&& event.member == list@[source[k]].1
                    &&& event.joined == joined
                    &&& !absent_from@.contains_key(event.id)
                },
            forall|k: int| 0 <= k < source.len() ==> 0 <= #[trigger] source[k] < i,
            forall|k: int, l: int|
                0 <= k < l < source.len() ==> #[trigger] source[k] < #[trigger] source[l],
            forall|b: int|
                0 <= b < i && !absent_from@.contains_key((#[trigger] list@[b]).0) ==> exists|k: int|
                    0 <= k < source.len() && #[trigger] source[k] == b,
        decreases list.len() - i,
    {
        let (id, member) = list[i];
        if !absent_from.contains_key(&id) {
            let ghost was = events@;
            events.push(MembershipEvent { id, member, joined });
            proof {
                let old_source = source;
                source = source.push(i as int);
                assert(events@.subrange(0, before.len() as int) =~= before);
                assert forall|k: int| 0 <= k < source.len() implies {
                    let event = #[trigger] events@[before.len() + k];
                    &&& 0 <= source[k] < i + 1
                    &&& event.id == list@[source[k]].0
                    &&& event.member == list@[source[k]].1
                    &&& event.joined == joined
                    &&& !absent_from@.contains_key(event.id)
                } by {
                    if k < old_source.len() {
                        assert(events@[before.len() + k] == was[before.len() + k]);
                    }
                }
                assert forall|b: int|
                    0 <= b < i + 1 && !absent_from@.contains_key(
                        (#[trigger] list@[b]).0,
                    ) implies exists|k: int| 0 <= k < source.len() && #[trigger] source[k] == b by {
                    if b < i {
                        let k = choose|k: int| 0 <= k < old_source.len() && #[trigger] old_source[k] == b;
                        assert(source[k] == b);
                    } else {
                        assert(source[source.len() - 1] == b);
                    }
                }
            }
        }
        i += 1;
    }
    proof {
        assert forall|a: int, b: int| before.len() <= a < b < events@.len() implies (
        #[trigger] events@[a]).id != (#[trigger] events@[b]).id by {
            let ka = a - before.len();
            let kb = b - before.len();
            assert(events@[before.len() + ka].id == list@[source[ka]].0);
            assert(events@[before.len() + kb].id == list@[source[kb]].0);
            assert(source[ka] < source[kb]);
        }
        assert forall|id: u64| #[trigger]
            present@.contains_key(id) && !absent_from@.contains_key(id) implies exists|a: int|
            before.len() <= a < events@.len() && (#[trigger] events@[a]).id == id by {
            let b = choose|b: int| 0 <= b < list@.len() && (#[trigger] list@[b]).0 == id;
            let k = choose|k: int| 0 <= k < source.len() && #[trigger] source[k] == b;
            assert(events@[before.len() + k].id == id);
        }
        assert forall|a: int| before.len() <= a < events@.len() implies {
            let event = #[trigger] events@[a];
            &&& event.joined == joined
            &&& present@.contains_key(event.id)
            &&& !absent_from@.contains_key(event.id)
            &&& *event.member == present@[event.id]
        } by {
            let k = a - before.len();
            assert(events@[before.len() + k].id == list@[source[k]].0);
            assert(present@.contains_key(list@[source[k]].0));
        }
    }
}

/// Who joined and who left between two readings of the leaderboard. An empty `previous` reading
/// stands for "nothing seen yet" and gives no events. Otherwise every member of `current` that
/// `previous` lacks is reported once as joined, every member of `previous` that `current` lacks once as
/// left, the joined ones first.
pub fn membership_diff<'a>(
    previous: &'a PrivateLeaderboardMembers,
    current: &'a PrivateLeaderboardMembers,
) -> (events: Vec<MembershipEvent<'a>>)
    ensures
        previous@.len() == 0 ==> events@.len() == 0,
        forall|i: int| 0 <= i < events@.len() ==> is_membership_change(previous@, current@, #[trigger] events@[i]),
        forall|i: int, j: int|
            0 <= i < j < events@.len() ==> (#[trigger] events@[i]).id != (#[trigger] events@[j]).id,
        forall|i: int, j: int|
            0 <= i < j < events@.len() && (#[trigger] events@[j]).joined ==> (#[trigger] events@[i]).joined,
        previous@.len() != 0 ==> forall|id: u64| #[trigger]
            current@.contains_key(id) && !previous@.contains_key(id) ==> reports_member(events@, id, true),
        previous@.len() != 0 ==> forall|id: u64| #[trigger]
            previous@.contains_key(id) && !current@.contains_key(id) ==> reports_member(events@, id, false),
{
    let mut events: Vec<MembershipEvent<'a>> = Vec::new();
    if previous.is_empty() {
        assert(previous@.len() == 0);
        return events;
    }
    assert(previous@.len() != 0) by {
        if previous@.len() == 0 {
            assert(previous@.dom() =~= Set::empty());
        }
    }
    push_missing(&mut events, current, previous, true);
    let ghost joined = events@;
    push_missing(&mut events, previous, current, false);
    proof {
        assert forall|i: int| 0 <= i < events@.len() implies is_membership_change(
            previous@,
            current@,
            #[trigger] events@[i],
        ) by {
            if i < joined.len() {
                assert(events@.subrange(0, joined.len() as int)[i] == events@[i]);
            }
        }
        assert forall|i: int, j: int| 0 <= i < j < events@.len() implies (#[trigger] events@[i]).id
            != (#[trigger] events@[j]).id by {
            if i < joined.len() {
                assert(events@.subrange(0, joined.len() as int)[i] == events@[i]);
            }
            if j < joined.len() {
                assert(events@.subrange(0, joined.len() as int)[j] == events@[j]);
            }
        }
        assert forall|i: int, j: int|
            0 <= i < j < events@.len() && (#[trigger] events@[j]).joined implies (
        #[trigger] events@[i]).joined by {
            assert(j < joined.len());
            assert(events@.subrange(0, joined.len() as int)[i] == events@[i]);
        }
        assert forall|id: u64| #[trigger]
            current@.contains_key(id) && !previous@.contains_key(id) implies reports_member(
            events@,
            id,
            true,
        ) by {
            let i = choose|i: int| 0 <= i < joined.len() && (#[trigger] joined[i]).id == id;
            assert(events@.subrange(0, joined.len() as int)[i] == events@[i]);
        }
        assert forall|id: u64| #[trigger]
            previous@.contains_key(id) && !current@.contains_key(id) implies reports_member(
            events@,
            id,
            false,
        ) by {
            let i = choose|i: int|
                joined.len() <= i < events@.len() && (#[trigger] events@[i]).id == id;
            assert(events@[i].joined == false);
        }
    }
    events
}

/// A member has newly solved one part of a day's puzzle.
#[derive(Debug, Clone, Copy)]
pub struct SolveEvent<'a> {
    /// The id under which the member is listed.
    pub id: u64,
    pub member: &'a PrivateLeaderboardMember,
    /// `false` for part one, `true` for part two.
    pub part2: bool,
    pub day: AocDay,
    /// When the star was earned.
    pub ts: Timestamp,
    /// The member's place among those who have solved the part: how many members earned
    /// the star at `ts` or before.
    pub rank: usize,
}

/// A star earned at `ts` is no more than 24 hours previous at `now`.
pub open spec fn is_recent(now: Timestamp, ts: Timestamp) -> bool {
    now@ <= ts@ + SOLVE_MAX_AGE_NANOS
}

/// The member listed under `id` in both readings has the star of the given part of the
/// given day's puzzle in `current` and not in `previous`, and earned it no more than 24 hours
/// before `now`.
pub open spec fn is_new_solve(
    previous: Map<u64, PrivateLeaderboardMember>,
    current: Map<u64, PrivateLeaderboardMember>,
    now: Timestamp,
    id: u64,
    day: u32,
    part2: bool,
) -> bool {
    &&& previous.contains_key(id)
    &&& current.contains_key(id)
    &&& previous[id].part_ts_spec(day, part2) is None
    &&& current[id].part_ts_spec(day, part2) matches Some(ts) && is_recent(now, ts)
}

/// `event` reports a current solve of the event of `year`, with the member, the instant and
/// the rank that `current` gives.
pub open spec fn describes_solve(
    previous: Map<u64, PrivateLeaderboardMember>,
    current: Map<u64, PrivateLeaderboardMember>,
    year: i32,
    now: Timestamp,
    event: SolveEvent,
) -> bool {
    &&& is_new_solve(previous, current, now, event.id, event.day.day, event.part2)
    &&& event.day.year == year
    &&& *event.member == current[event.id]
    &&& current[event.id].part_ts_spec(event.day.day, event.part2) == Some(event.ts)
    &&& event.rank == keys_where(current, finished_by(event.day.day, event.part2, event.ts)).len()
}

/// Whether one of `events` from `base` on reports the given part of the given day's puzzle
/// as solved by the member listed under `id`.
pub open spec fn reports_solve_from(
    events: Seq<SolveEvent>,
    base: int,
    id: u64,
    day: u32,
    part2: bool,
) -> bool {
    exists|i: int|
        base <= i < events.len() && (#[trigger] events[i]).id == id && events[i].day.day == day
            && events[i].part2 == part2
}

/// Whether `events` reports the given part of the given day's puzzle as solved by the
/// member listed under `id`.
pub open spec fn reports_solve(events: Seq<SolveEvent>, id: u64, day: u32, part2: bool) -> bool {
    reports_solve_from(events, 0, id, day, part2)
}

/// No two of `events` from `base` on report the same part of the same day for the same member.
pub open spec fn solves_distinct_from(events: Seq<SolveEvent>, base: int) -> bool {
    forall|i: int, j: int|
        base <= i < j < events.len() ==> !((#[trigger] events[i]).id == (#[trigger] events[j]).id
            && events[i].day.day == events[j].day.day && events[i].part2 == events[j].part2)
}

/// Whether `now` is no more than 24 hours after `ts`.
pub fn recent(now: Timestamp, ts: Timestamp) -> (b: bool)
    ensures
        b == is_recent(now, ts),
{
    now.as_nanos() <= ts.as_nanos() + SOLVE_MAX_AGE_NANOS
}

/// Adds the event for one part of one day's puzzle if the member has newly solved it.
fn push_if_new<'a>(
    events: &mut Vec<SolveEvent<'a>>,
    previous: &PrivateLeaderboardMembers,
    current: &'a PrivateLeaderboardMembers,
    year: i32,
    now: Timestamp,
    id: u64,
    previous_member: &PrivateLeaderboardMember,
    member: &'a PrivateLeaderboardMember,
    day: u32,
    part2: bool,
)
    requires
        previous@.contains_key(id) && previous@[id] == *previous_member,
        current@.contains_key(id) && current@[id] == *member,
    ensures
        is_new_solve(previous@, current@, now, id, day, part2) ==> {
            let after = final(events)@;
            &&& after.len() == old(events)@.len() + 1
            &&& after.drop_last() == old(events)@
            &&& describes_solve(previous@, current@, year, now, after.last())
            &&& after.last().id == id
            &&& after.last().day.day == day
            &&& after.last().part2 == part2
        },
        !is_new_solve(previous@, current@, now, id, day, part2) ==> final(events)@ == old(events)@,
{
    if previous_member.part_ts(day, part2).is_none() {
        if let Some(ts) = member.part_ts(day, part2) {
            if recent(now, ts) {
                let rank = finisher_rank(current, day, part2, ts);
                let ghost before = events@;
                events.push(SolveEvent { id, member, part2, day: AocDay { year, day }, ts, rank });
                proof {
                    assert(events@.drop_last() =~= before);
                }
            }
        }
    }
}

/// Adds the events for everything that the member listed under `id` in both readings has
/// newly solved.
fn push_member_solves<'a>(
    events: &mut Vec<SolveEvent<'a>>,
    previous: &PrivateLeaderboardMembers,
    current: &'a PrivateLeaderboardMembers,
    year: i32,
    now: Timestamp,
    id: u64,
    previous_member: &PrivateLeaderboardMember,
    member: &'a PrivateLeaderboardMember,
)
    requires
        previous@.contains_key(id) && previous@[id] == *previous_member,
        current@.contains_key(id) && current@[id] == *member,
    ensures
        final(events)@.len() >= old(events)@.len(),
        final(events)@.subrange(0, old(events)@.len() as int) == old(events)@,
        forall|i: int|
            old(events)@.len() <= i < final(events)@.len() ==> describes_solve(
                previous@,
                current@,
                year,
                now,
                #[trigger] final(events)@[i],
            ) && final(events)@[i].id == id,
        solves_distinct_from(final(events)@, old(events)@.len() as int),
        forall|day: u32, part2: bool| #[trigger]
            is_new_solve(previous@, current@, now, id, day, part2) ==> reports_solve_from(
                final(events)@,
                old(events)@.len() as int,
                id,
                day,
                part2,
            ),
{
    let days = entries(&member.completion_day_level);
    let ghost before = events@;
    let ghost base = events@.len() as int;
    let mut j: usize = 0;
    while j < days.len()
        invariant
            j <= days.len(),
            base == before.len(),
            previous@.contains_key(id) && previous@[id] == *previous_member,
            current@.contains_key(id) && current@[id] == *member,
            is_listing(days@, member.completion_day_level@),
            events@.len() >= base,
            events@.subrange(0, base) == before,
            forall|i: int|
                base <= i < events@.len() ==> describes_solve(
                    previous@,
                    current@,
                    year,
                    now,
                    #[trigger] events@[i],
                ) && events@[i].id == id && exists|b: int|
                    0 <= b < j && (#[trigger] days@[b]).0 == events@[i].day.day,
            solves_distinct_from(events@, base),
            forall|b: int, part2: bool|
                0 <= b < j && #[trigger] is_new_solve(
                    previous@,
                    current@,
                    now,
                    id,
                    days@[b].0,
                    part2,
                ) ==> reports_solve_from(events@, base, id, days@[b].0, part2),
        decreases days.len() - j,
    {
        let day = days[j].0;
        let ghost start = events@;
        push_if_new(events, previous, current, year, now, id, previous_member, member, day, false);
        let ghost middle = events@;
        push_if_new(events, previous, current, year, now, id, previous_member, member, day, true);
        proof {
            let end = events@;
            assert(forall|i: int| 0 <= i < middle.len() ==> middle[i] == end[i]) by {
                if end.len() != middle.len() {
                    assert(end.drop_last() == middle);
                    assert forall|i: int| 0 <= i < middle.len() implies middle[i] == end[i] by {
                        assert(end.drop_last()[i] == end[i]);
                    }
                }
            }
            assert(forall|i: int| 0 <= i < start.len() ==> start[i] == middle[i]) by {
                if middle.len() != start.len() {
                    assert(middle.drop_last() == start);
                    assert forall|i: int| 0 <= i < start.len() implies start[i] == middle[i] by {
                        assert(middle.drop_last()[i] == middle[i]);
                    }
                }
            }
            assert(end.subrange(0, base) =~= before) by {
                assert forall|i: int| 0 <= i < base implies end.subrange(0, base)[i]
                    == before[i] by {
                    assert(start.subrange(0, base)[i] == start[i]);
                }
            }
            assert forall|i: int| base <= i < end.len() implies describes_solve(
                previous@,
                current@,
                year,
                now,
                #[trigger] end[i],
            ) && end[i].id == id && exists|b: int|
                0 <= b < j + 1 && (#[trigger] days@[b]).0 == end[i].day.day by {
                if i < start.len() {
                    assert(end[i] == start[i]);
                    let b = choose|b: int| 0 <= b < j && (#[trigger] days@[b]).0 == start[i].day.day;
                    assert(0 <= b < j + 1);
                } else {
                    if i < middle.len() {
                        assert(end[i] == middle[i]);
                        assert(middle[i] == middle.last());
                    } else {
                        assert(end[i] == end.last());
                    }
                    assert(days@[j as int].0 == end[i].day.day);
                }
            }
            assert(solves_distinct_from(end, base)) by {
                assert forall|a: int, c: int| base <= a < c < end.len() implies !((
                #[trigger] end[a]).id == (#[trigger] end[c]).id && end[a].day.day
                    == end[c].day.day && end[a].part2 == end[c].part2) by {
                    if c < start.len() {
                        assert(end[a] == start[a] && end[c] == start[c]);
                    } else if a < start.len() {
                        assert(end[a] == start[a]);
                        let b = choose|b: int|
                            0 <= b < j && (#[trigger] days@[b]).0 == start[a].day.day;
                        assert(days@[b].0 != days@[j as int].0);
                        assert(end[c].day.day == day);
                    } else {
                        assert(a == start.len() && c == start.len() + 1);
                        assert(end[a] == middle[a]);
                        assert(middle[a] == middle.last());
                        assert(end[c] == end.last());
                    }
                }
            }
            assert forall|b: int, part2: bool|
                0 <= b < j + 1 && #[trigger] is_new_solve(
                    previous@,
                    current@,
                    now,
                    id,
                    days@[b].0,
                    part2,
                ) implies reports_solve_from(end, base, id, days@[b].0, part2) by {
                if b < j {
                    assert(reports_solve_from(start, base, id, days@[b].0, part2));
                    let i = choose|i: int|
                        base <= i < start.len() && (#[trigger] start[i]).id == id
                            && start[i].day.day == days@[b].0 && start[i].part2 == part2;
                    assert(end[i] == start[i]);
                } else if !part2 {
                    assert(middle.len() == start.len() + 1);
                    assert(end[middle.len() - 1] == middle.last());
                } else {
                    assert(end.len() == middle.len() + 1);
                    assert(end[end.len() - 1] == end.last());
                }
            }
        }
        j += 1;
    }
    proof {
        assert forall|day: u32, part2: bool| #[trigger]
            is_new_solve(previous@, current@, now, id, day, part2) implies reports_solve_from(
            events@,
            base,
            id,
            day,
            part2,
        ) by {
            assert(member.completion_day_level@.contains_key(day));
            let b = choose|b: int| 0 <= b < days@.len() && (#[trigger] days@[b]).0 == day;
            assert(is_new_solve(previous@, current@, now, id, days@[b].0, part2));
        }
    }
}

/// The events for everything that members of both readings have newly solved, in no
/// particular order.
fn collect_solves<'a>(
    previous: &PrivateLeaderboardMembers,
    current: &'a PrivateLeaderboardMembers,
    year: i32,
    now: Timestamp,
) -> (events: Vec<SolveEvent<'a>>)
    ensures
        forall|i: int|
            0 <= i < events@.len() ==> describes_solve(
                previous@,
                current@,
                year,
                now,
                #[trigger] events@[i],
            ),
        solves_distinct_from(events@, 0),
        forall|id: u64, day: u32, part2: bool| #[trigger]
            is_new_solve(previous@, current@, now, id, day, part2) ==> reports_solve(
                events@,
                id,
                day,
                part2,
            ),
{
    let list = entries(current);
    let mut events: Vec<SolveEvent<'a>> = Vec::new();
    let mut i: usize = 0;
    while i < list.len()
        invariant
            i <= list.len(),
            is_listing(list@, current@),
            forall|k: int|
                0 <= k < events@.len() ==> describes_solve(
                    previous@,
                    current@,
                    year,
                    now,
                    #[trigger] events@[k],
                ) && exists|b: int| 0 <= b < i && (#[trigger] list@[b]).0 == events@[k].id,
            solves_distinct_from(events@, 0),
            forall|b: int, day: u32, part2: bool|
                0 <= b < i && #[trigger] is_new_solve(
                    previous@,
                    current@,
                    now,
                    list@[b].0,
                    day,
                    part2,
                ) ==> reports_solve(events@, list@[b].0, day, part2),
        decreases list.len() - i,
    {
        let (id, member) = list[i];
        let ghost start = events@;
        match previous.get(&id) {
            Some(previous_member) => {
                push_member_solves(&mut events, previous, current, year, now, id, previous_member, member);
            },
            None => {},
        }
        proof {
            let end = events@;
            assert(forall|k: int| 0 <= k < start.len() ==> start[k] == end[k]) by {
                if previous@.contains_key(id) {
                    assert forall|k: int| 0 <= k < start.len() implies start[k] == end[k] by {
                        assert(end.subrange(0, start.len() as int)[k] == end[k]);
                    }
                }
            }
            assert forall|k: int| 0 <= k < end.len() implies describes_solve(
                previous@,
                current@,
                year,
                now,
                #[trigger] end[k],
            ) && exists|b: int| 0 <= b < i + 1 && (#[trigger] list@[b]).0 == end[k].id by {
                if k < start.len() {
                    assert(end[k] == start[k]);
                    let b = choose|b: int| 0 <= b < i && (#[trigger] list@[b]).0 == start[k].id;
                    assert(0 <= b < i + 1);
                } else {
                    assert(list@[i as int].0 == end[k].id);
                }
            }
            assert(solves_distinct_from(end, 0)) by {
                assert forall|a: int, c: int| 0 <= a < c < end.len() implies !((
                #[trigger] end[a]).id == (#[trigger] end[c]).id && end[a].day.day
                    == end[c].day.day && end[a].part2 == end[c].part2) by {
                    if c < start.len() {
                        assert(end[a] == start[a] && end[c] == start[c]);
                    } else if a < start.len() {
                        assert(end[a] == start[a]);
                        let b = choose|b: int| 0 <= b < i && (#[trigger] list@[b]).0 == start[a].id;
                        assert(list@[b].0 != list@[i as int].0);
                        assert(end[c].id == id);
                    }
                }
            }
            assert forall|b: int, day: u32, part2: bool|
                0 <= b < i + 1 && #[trigger] is_new_solve(
                    previous@,
                    current@,
                    now,
                    list@[b].0,
                    day,
                    part2,
                ) implies reports_solve(end, list@[b].0, day, part2) by {
                if b < i {
                    assert(reports_solve(start, list@[b].0, day, part2));
                    let k = choose|k: int|
                        0 <= k < start.len() && (#[trigger] start[k]).id == list@[b].0
                            && start[k].day.day == day && start[k].part2 == part2;
                    assert(end[k] == start[k]);
                } else {
                    assert(reports_solve_from(end, start.len() as int, id, day, part2));
                }
            }
        }
        i += 1;
    }
    proof {
        assert forall|id: u64, day: u32, part2: bool| #[trigger]
            is_new_solve(previous@, current@, now, id, day, part2) implies reports_solve(
            events@,
            id,
            day,
            part2,
        ) by {
            let b = choose|b: int| 0 <= b < list@.len() && (#[trigger] list@[b]).0 == id;
            assert(is_new_solve(previous@, current@, now, list@[b].0, day, part2));
        }
    }
    events
}

/// Earliest first: no event is earlier than one that stands before it.
pub open spec fn in_time_order(events: Seq<SolveEvent>) -> bool {
    forall|i: int, j: int|
        0 <= i < j < events.len() ==> (#[trigger] events[i]).ts@ <= (#[trigger] events[j]).ts@
}

/// Puts `event` into a list in time order, behind every event that is not later, and
/// says where.
fn insert_in_time_order<'a>(sorted: &mut Vec<SolveEvent<'a>>, event: SolveEvent<'a>) -> (p: usize)
    requires
        in_time_order(old(sorted)@),
    ensures
        p <= old(sorted)@.len(),
        final(sorted)@ == old(sorted)@.insert(p as int, event),
        in_time_order(final(sorted)@),
{
    let ghost before = sorted@;
    let mut p: usize = 0;
    while p < sorted.len() && sorted[p].ts.is_at_or_before(event.ts)
        invariant
            p <= sorted.len(),
            sorted@ == before,
            forall|a: int| 0 <= a < p ==> (#[trigger] sorted@[a]).ts@ <= event.ts@,
        decreases sorted.len() - p,
    {
        p += 1;
    }
    sorted.insert(p, event);
    proof {
        let after = sorted@;
        assert forall|a: int, b: int| 0 <= a < b < after.len() implies (#[trigger] after[a]).ts@ <= (
        #[trigger] after[b]).ts@ by {
            let pa = if a < p { a } else { a - 1 };
            let pb = if b < p { b } else { b - 1 };
            if a != p && b != p {
                assert(after[a] == before[pa] && after[b] == before[pb]);
            } else if b == p {
                assert(after[a] == before[pa]);
            } else {
                assert(after[b] == before[pb]);
                assert(event.ts@ < before[p as int].ts@);
                if pb > p {
                    assert(before[p as int].ts@ <= before[pb].ts@);
                }
            }
        }
    }
    p
}

/// What members of both readings have newly solved, earliest first. For every member listed
/// in both readings and every part of a day's puzzle whose star the member has in `current`
/// and lacks in `previous`, there is exactly one event, unless the star is more than 24 hours
/// older than `now`; there are no other events. The event holds the instant of the star
/// and the member's place among those who have solved that part by then.
pub fn solve_diff<'a>(
    previous: &PrivateLeaderboardMembers,
    current: &'a PrivateLeaderboardMembers,
    year: i32,
    now: Timestamp,
) -> (events: Vec<SolveEvent<'a>>)
    ensures
        forall|i: int|
            0 <= i < events@.len() ==> describes_solve(
                previous@,
                current@,
                year,
                now,
                #[trigger] events@[i],
            ),
        forall|i: int| 0 <= i < events@.len() ==> is_recent(now, (#[trigger] events@[i]).ts),
        solves_distinct_from(events@, 0),
        forall|id: u64, day: u32, part2: bool| #[trigger]
            is_new_solve(previous@, current@, now, id, day, part2) ==> reports_solve(
                events@,
                id,
                day,
                part2,
            ),
        in_time_order(events@),
{
    let found = collect_solves(previous, current, year, now);
    let mut events: Vec<SolveEvent<'a>> = Vec::new();
    let ghost mut place: Seq<int> = Seq::empty();
    let ghost mut origin: Seq<int> = Seq::empty();
    let mut i: usize = 0;
    while i < found.len()
        invariant
            i <= found.len(),
            in_time_order(events@),
            rearranges(events@, found@, i as int, place, origin),
        decreases found.len() - i,
    {
        let ghost before = events@;
        let p = insert_in_time_order(&mut events, found[i]);
        proof {
            lemma_rearranges_insert(before, found@, i as int, place, origin, p as int);
            place = place_after_insert(place, i as int, p as int);
            origin = origin.insert(p as int, i as int);
        }
        i += 1;
    }
    proof {
        assert forall|a: int| 0 <= a < events@.len() implies describes_solve(
            previous@,
            current@,
            year,
            now,
            #[trigger] events@[a],
        ) by {
            assert(events@[a] == found@[origin[a]]);
        }
        assert(solves_distinct_from(events@, 0)) by {
            assert forall|a: int, c: int| 0 <= a < c < events@.len() implies !((
            #[trigger] events@[a]).id == (#[trigger] events@[c]).id && events@[a].day.day
                == events@[c].day.day && events@[a].part2 == events@[c].part2) by {
                assert(events@[a] == found@[origin[a]] && place[origin[a]] == a);
                assert(events@[c] == found@[origin[c]] && place[origin[c]] == c);
                let x = found@[origin[a]];
                let y = found@[origin[c]];
                if origin[a] < origin[c] {
                    assert(!(x.id == y.id && x.day.day == y.day.day && x.part2 == y.part2));
                } else if origin[c] < origin[a] {
                    assert(!(y.id == x.id && y.day.day == x.day.day && y.part2 == x.part2));
                }
            }
        }
        assert forall|id: u64, day: u32, part2: bool| #[trigger]
            is_new_solve(previous@, current@, now, id, day, part2) implies reports_solve(
            events@,
            id,
            day,
            part2,
        ) by {
            assert(reports_solve(found@, id, day, part2));
            let k = choose|k: int|
                0 <= k < found@.len() && (#[trigger] found@[k]).id == id && found@[k].day.day
                    == day && found@[k].part2 == part2;
            assert(events@[place[k]] == found@[k]);
        }
    }
    events
}

} // verus!
