use aocbot::day::AocDay;
use aocbot::diff::{membership_diff, recent, solve_diff};
use aocbot::models::{
    PrivateLeaderboardMember, PrivateLeaderboardMemberCompletionDay,
    PrivateLeaderboardMemberCompletionDayPart, PrivateLeaderboardMembers,
};
use aocbot::time::Timestamp;
use std::collections::HashMap;

const HOUR: i64 = 3600;
const NOW: i64 = 1_733_500_000;

fn ts(secs: i64) -> Timestamp {
    Timestamp::from_secs(secs).unwrap()
}

fn member(id: u64) -> PrivateLeaderboardMember {
    PrivateLeaderboardMember {
        id,
        name: None,
        global_score: 0,
        local_score: 0,
        stars: 0,
        last_star_ts: Timestamp::epoch(),
        completion_day_level: HashMap::new(),
    }
}

fn solved(
    mut member: PrivateLeaderboardMember,
    day: u32,
    first: i64,
    second: Option<i64>,
) -> PrivateLeaderboardMember {
    let part = |secs| PrivateLeaderboardMemberCompletionDayPart { get_star_ts: ts(secs), star_index: 0 };
    member.completion_day_level.insert(
        day,
        PrivateLeaderboardMemberCompletionDay { fst: part(first), snd: second.map(part) },
    );
    member
}

fn members(list: Vec<PrivateLeaderboardMember>) -> PrivateLeaderboardMembers {
    list.into_iter().map(|m| (m.id, m)).collect()
}

#[test]
fn nothing_seen_yet_reports_nobody() {
    let old = members(vec![]);
    let new = members(vec![member(1)]);
    assert_eq!(membership_diff(&old, &new).len(), 0);
    assert_eq!(membership_diff(&old, &old).len(), 0);
}

#[test]
fn a_new_member_has_joined() {
    let old = members(vec![member(1)]);
    let new = members(vec![member(1), member(2)]);
    let events = membership_diff(&old, &new);
    assert_eq!(events.len(), 1);
    assert!(events[0].joined);
    assert_eq!(events[0].id, 2);
    assert_eq!(events[0].member, &new[&2]);
}

#[test]
fn a_missing_member_has_left() {
    let old = members(vec![member(1), member(2)]);
    let new = members(vec![member(1)]);
    let events = membership_diff(&old, &new);
    assert_eq!(events.len(), 1);
    assert!(!events[0].joined);
    assert_eq!(events[0].id, 2);
    assert_eq!(events[0].member, &old[&2]);
}

#[test]
fn joined_members_come_before_those_who_left() {
    let old = members(vec![member(1), member(2), member(3)]);
    let new = members(vec![member(3), member(4), member(5)]);
    let events = membership_diff(&old, &new);
    let mut joined: Vec<u64> = events.iter().filter(|e| e.joined).map(|e| e.id).collect();
    let mut left: Vec<u64> = events.iter().filter(|e| !e.joined).map(|e| e.id).collect();
    joined.sort();
    left.sort();
    assert_eq!(joined, [4, 5]);
    assert_eq!(left, [1, 2]);
    assert_eq!(events.iter().map(|e| e.joined).collect::<Vec<_>>(), [true, true, false, false]);
    assert_eq!(membership_diff(&new, &new).len(), 0);
    let nobody = members(vec![]);
    assert_eq!(membership_diff(&old, &nobody).len(), 3);
}

#[test]
fn new_solves_are_reported_earliest_first() {
    let old = members(vec![
        solved(member(1), 5, NOW - 10 * HOUR, None),
        member(2),
        solved(member(3), 5, NOW - 9 * HOUR, Some(NOW - 8 * HOUR)),
    ]);
    let new = members(vec![
        solved(member(1), 5, NOW - 10 * HOUR, Some(NOW - 2 * HOUR)),
        solved(solved(member(2), 5, NOW - 3 * HOUR, Some(NOW - HOUR)), 6, NOW - 4 * HOUR, None),
        solved(member(3), 5, NOW - 9 * HOUR, Some(NOW - 8 * HOUR)),
        solved(member(4), 5, NOW - 5 * HOUR, None),
    ]);
    let events = solve_diff(&old, &new, 2024, ts(NOW));
    let got: Vec<_> = events
        .iter()
        .map(|e| (e.id, e.day, e.part2, e.ts.timestamp() - NOW, e.rank))
        .collect();
    let day = |day| AocDay { year: 2024, day };
    assert_eq!(
        got,
        [
            (2, day(6), false, -4 * HOUR, 1),
            (2, day(5), false, -3 * HOUR, 4),
            (1, day(5), true, -2 * HOUR, 2),
            (2, day(5), true, -HOUR, 3),
        ]
    );
    for event in &events {
        assert_eq!(event.member, &new[&event.id]);
    }
}

#[test]
fn solves_older_than_a_day_are_not_reported() {
    let old = members(vec![member(1)]);
    let at = |first, second| members(vec![solved(member(1), 1, first, Some(second))]);
    let exactly = at(NOW - 25 * HOUR, NOW - 24 * HOUR);
    let events = solve_diff(&old, &exactly, 2024, ts(NOW));
    assert_eq!(events.len(), 1);
    assert!(events[0].part2);
    assert_eq!(events[0].rank, 1);
    let just_over = Timestamp::from_parts(NOW, 1).unwrap();
    assert_eq!(solve_diff(&old, &exactly, 2024, just_over).len(), 0);
    let ancient = at(NOW - 1000 * HOUR, NOW - 999 * HOUR);
    assert_eq!(solve_diff(&old, &ancient, 2024, ts(NOW)).len(), 0);
    let ahead = at(NOW + HOUR, NOW + 2 * HOUR);
    assert_eq!(solve_diff(&old, &ahead, 2024, ts(NOW)).len(), 2);
    assert!(recent(ts(NOW), ts(NOW - 24 * HOUR)));
    assert!(!recent(ts(NOW), ts(NOW - 24 * HOUR - 1)));
    assert!(recent(ts(NOW), ts(NOW + 1)));
}

#[test]
fn only_members_of_both_readings_are_reported() {
    let new = members(vec![solved(member(1), 1, NOW, Some(NOW)), solved(member(2), 1, NOW, None)]);
    assert_eq!(solve_diff(&members(vec![]), &new, 2024, ts(NOW)).len(), 0);
    let old = members(vec![member(2), solved(member(3), 1, NOW, None)]);
    let events = solve_diff(&old, &new, 2023, ts(NOW));
    assert_eq!(events.len(), 1);
    assert_eq!(events[0].id, 2);
    assert_eq!(events[0].day, AocDay { year: 2023, day: 1 });
    assert_eq!(events[0].rank, 2);
    assert_eq!(solve_diff(&new, &new, 2024, ts(NOW)).len(), 0);
    assert_eq!(solve_diff(&new, &old, 2024, ts(NOW)).len(), 0);
}
