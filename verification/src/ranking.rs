//! The order of members on the leaderboard, their ranks, and the leaderboard of one day.

use crate::listing::{
    count_where, entries, is_listing, keys_where, lemma_count_step, lemma_count_where,
    lemma_listing_len, lemma_rearranged_listing, lemma_rearranges_insert, place_after_insert,
    rearranges,
};
use crate::models::{PrivateLeaderboard, PrivateLeaderboardMember, PrivateLeaderboardMembers};
use crate::time::Timestamp;
use std::collections::HashMap;
use vstd::prelude::*;

verus! {

/// Which parts of a day's puzzle a daily leaderboard counts.
#[derive(Debug, Clone, Copy, PartialEq, Eq, Structural)]
pub enum Parts {
    P1,
    P2,
    Both,
}

impl Parts {
    /// Whether part one (`part2` false) or part two (`part2` true) is counted.
    pub open spec fn includes_spec(self, part2: bool) -> bool {
        match self {
            Parts::P1 => !part2,
            Parts::P2 => part2,
            Parts::Both => true,
        }
    }

    /// Whether part one (`part2` false) or part two (`part2` true) is counted.
    pub fn includes(self, part2: bool) -> (b: bool)
        ensures
            b == self.includes_spec(part2),
    {
        match self {
            Parts::P1 => !part2,
            Parts::P2 => part2,
            Parts::Both => true,
        }
    }
}

impl PrivateLeaderboardMember {
    /// The leaderboard order: the higher local score first, then the more stars, then the
    /// earlier last star, then the smaller id.
    pub open spec fn precedes_spec(self, other: PrivateLeaderboardMember) -> bool {
        ||| self.local_score > other.local_score
        ||| self.local_score == other.local_score && self.stars > other.stars
        ||| self.local_score == other.local_score && self.stars == other.stars
            && self.last_star_ts@ < other.last_star_ts@
        ||| self.local_score == other.local_score && self.stars == other.stars
            && self.last_star_ts@ == other.last_star_ts@ && self.id < other.id
    }

    /// Neither member comes before the other: their scores, stars, last stars and ids agree.
    pub open spec fn ties_with(self, other: PrivateLeaderboardMember) -> bool {
        !self.precedes_spec(other) && !other.precedes_spec(self)
    }

    /// Whether `self` comes strictly before `other` in the leaderboard order.
    pub fn precedes(&self, other: &PrivateLeaderboardMember) -> (b: bool)
        ensures
            b == self.precedes_spec(*other),
    {
        if self.local_score != other.local_score {
            self.local_score > other.local_score
        } else if self.stars != other.stars {
            self.stars > other.stars
        } else if self.last_star_ts.is_before(other.last_star_ts) {
            true
        } else if other.last_star_ts.is_before(self.last_star_ts) {
            false
        } else {
            self.id < other.id
        }
    }
}

/// No member comes before itself.
pub proof fn lemma_precedes_irreflexive(a: PrivateLeaderboardMember)
    ensures
        !a.precedes_spec(a),
{
}

/// Of two members at most one comes before the other.
pub proof fn lemma_precedes_asymmetric(a: PrivateLeaderboardMember, b: PrivateLeaderboardMember)
    requires
        a.precedes_spec(b),
    ensures
        !b.precedes_spec(a),
{
}

/// Coming before carries over: before one that is before a third is before the third.
pub proof fn lemma_precedes_transitive(
    a: PrivateLeaderboardMember,
    b: PrivateLeaderboardMember,
    c: PrivateLeaderboardMember,
)
    requires
        a.precedes_spec(b),
        b.precedes_spec(c),
    ensures
        a.precedes_spec(c),
{
}

/// Being tied carries over, so ties split the members into classes that the order ranks.
pub proof fn lemma_ties_transitive(
    a: PrivateLeaderboardMember,
    b: PrivateLeaderboardMember,
    c: PrivateLeaderboardMember,
)
    requires
        a.ties_with(b),
        b.ties_with(c),
    ensures
        a.ties_with(c),
{
}

/// Members with different ids are never tied: the id breaks every tie.
pub proof fn lemma_precedes_total(a: PrivateLeaderboardMember, b: PrivateLeaderboardMember)
    requires
        a.id != b.id,
    ensures
        a.precedes_spec(b) || b.precedes_spec(a),
{
}

/// Tied members agree in everything the order looks at.
pub proof fn lemma_ties_agree(a: PrivateLeaderboardMember, b: PrivateLeaderboardMember)
    requires
        a.ties_with(b),
    ensures
        a.local_score == b.local_score,
        a.stars == b.stars,
        a.last_star_ts@ == b.last_star_ts@,
        a.id == b.id,
{
}

/// Members who earned the star of the given part of the given day's puzzle at `ts` or before.
pub open spec fn finished_by(day: u32, part2: bool, ts: Timestamp) -> spec_fn(
    PrivateLeaderboardMember,
) -> bool {
    |m: PrivateLeaderboardMember|
        m.part_ts_spec(day, part2) matches Some(t) && t@ <= ts@
}

/// Members who finished the given part of the given day's puzzle ahead of `of`: earlier, or
/// at the same instant and before `of` in the leaderboard order.
pub open spec fn finished_ahead(day: u32, part2: bool, of: PrivateLeaderboardMember) -> spec_fn(
    PrivateLeaderboardMember,
) -> bool {
    |m: PrivateLeaderboardMember|
        m.part_ts_spec(day, part2) matches Some(t) && of.part_ts_spec(day, part2) matches Some(u)
            && (t@ < u@ || (t@ == u@ && m.precedes_spec(of)))
}

/// Members whom `of` does not come before: `of` itself and everyone ahead of it.
pub open spec fn not_after(of: PrivateLeaderboardMember) -> spec_fn(
    PrivateLeaderboardMember,
) -> bool {
    |m: PrivateLeaderboardMember| !of.precedes_spec(m)
}

/// Members with a local score above `score`.
pub open spec fn scores_above(score: u32) -> spec_fn(PrivateLeaderboardMember) -> bool {
    |m: PrivateLeaderboardMember| m.local_score > score
}

/// What a count over the members looks for.
enum Criterion<'a> {
    FinishedBy { day: u32, part2: bool, ts: Timestamp },
    FinishedAhead { day: u32, part2: bool, of: &'a PrivateLeaderboardMember },
    NotAfter { of: &'a PrivateLeaderboardMember },
}

impl<'a> Criterion<'a> {
    spec fn pred(self) -> spec_fn(PrivateLeaderboardMember) -> bool {
        match self {
            Criterion::FinishedBy { day, part2, ts } => finished_by(day, part2, ts),
            Criterion::FinishedAhead { day, part2, of } => finished_ahead(day, part2, *of),
            Criterion::NotAfter { of } => not_after(*of),
        }
    }

    fn meets(&self, m: &PrivateLeaderboardMember) -> (b: bool)
        ensures
            b == (self.pred())(*m),
    {
        match self {
            Criterion::FinishedBy { day, part2, ts } => {
                match m.part_ts(*day, *part2) {
                    Some(t) => t.is_at_or_before(*ts),
                    None => false,
                }
            },
            Criterion::FinishedAhead { day, part2, of } => {
                match m.part_ts(*day, *part2) {
                    Some(t) => match of.part_ts(*day, *part2) {
                        Some(u) => t.is_before(u) || (!u.is_before(t) && m.precedes(of)),
                        None => false,
                    },
                    None => false,
                }
            },
            Criterion::NotAfter { of } => !of.precedes(m),
        }
    }
}

/// How many of the listed members meet the criterion.
fn count_members(list: &Vec<(u64, &PrivateLeaderboardMember)>, criterion: &Criterion) -> (n: usize)
    ensures
        n == count_where(list@, criterion.pred()),
        n <= list@.len(),
{
    let mut n: usize = 0;
    let mut i: usize = 0;
    while i < list.len()
        invariant
            i <= list.len(),
            n <= i,
            n == count_where(list@.take(i as int), criterion.pred()),
        decreases list.len() - i,
    {
        proof {
            lemma_count_step(list@, i as int, criterion.pred());
        }
        if criterion.meets(list[i].1) {
            n += 1;
        }
        i += 1;
    }
    proof {
        assert(list@.take(i as int) =~= list@);
    }
    n
}

/// The place of a finisher: how many members earned the star of the given part of the given
/// day's puzzle at `ts` or before.
pub fn finisher_rank(members: &PrivateLeaderboardMembers, day: u32, part2: bool, ts: Timestamp) -> (rank:
    usize)
    ensures
        rank == keys_where(members@, finished_by(day, part2, ts)).len(),
{
    let list = entries(members);
    let criterion = Criterion::FinishedBy { day, part2, ts };
    proof {
        lemma_count_where(list@, members@, criterion.pred());
    }
    count_members(&list, &criterion)
}

/// The place of `member` on the leaderboard: how many members it does not come before,
/// itself included where it is one of them.
pub fn member_rank(members: &PrivateLeaderboardMembers, member: &PrivateLeaderboardMember) -> (rank:
    usize)
    ensures
        rank == keys_where(members@, not_after(*member)).len(),
{
    let list = entries(members);
    let criterion = Criterion::NotAfter { of: member };
    proof {
        lemma_count_where(list@, members@, criterion.pred());
    }
    count_members(&list, &criterion)
}

/// One row of the leaderboard: a member, the id it is listed under, and its rank.
#[derive(Debug, Clone, Copy)]
pub struct RankedMember<'a> {
    pub rank: usize,
    pub id: u64,
    pub member: &'a PrivateLeaderboardMember,
}

/// The members of the rows with the ids they are listed under.
pub open spec fn row_entries<'a>(rows: Seq<RankedMember<'a>>) -> Seq<
    (u64, &'a PrivateLeaderboardMember),
> {
    rows.map_values(|row: RankedMember<'a>| (row.id, row.member))
}

/// In leaderboard order: no entry comes before one that stands earlier.
pub open spec fn in_order(list: Seq<(u64, &PrivateLeaderboardMember)>) -> bool {
    forall|i: int, j: int|
        0 <= i < j < list.len() ==> !(#[trigger] list[j]).1.precedes_spec(*(#[trigger] list[i]).1)
}

/// Counting a criterion that holds of exactly the first `n` entries gives `n`.
proof fn lemma_count_leading(
    list: Seq<(u64, &PrivateLeaderboardMember)>,
    n: int,
    pred: spec_fn(PrivateLeaderboardMember) -> bool,
)
    requires
        0 <= n <= list.len(),
        forall|i: int| 0 <= i < n ==> pred(*(#[trigger] list[i]).1),
        forall|i: int| n <= i < list.len() ==> !pred(*(#[trigger] list[i]).1),
    ensures
        count_where(list, pred) == n,
    decreases list.len(),
{
    if list.len() > 0 {
        let init = list.drop_last();
        let m = if n == list.len() {
            n - 1
        } else {
            n
        };
        assert forall|i: int| 0 <= i < m implies pred(*(#[trigger] init[i]).1) by {
            assert(init[i] == list[i]);
        }
        assert forall|i: int| m <= i < init.len() implies !pred(*(#[trigger] init[i]).1) by {
            assert(init[i] == list[i]);
        }
        lemma_count_leading(init, m, pred);
        assert(list.last() == list[list.len() - 1]);
    }
}

/// Puts `entry` into a list in leaderboard order, behind every entry that it does not come
/// before, and says where.
fn insert_in_order<'a>(
    sorted: &mut Vec<(u64, &'a PrivateLeaderboardMember)>,
    entry: (u64, &'a PrivateLeaderboardMember),
) -> (p: usize)
    requires
        in_order(old(sorted)@),
    ensures
        p <= old(sorted)@.len(),
        final(sorted)@ == old(sorted)@.insert(p as int, entry),
        in_order(final(sorted)@),
{
    let ghost before = sorted@;
    let mut p: usize = 0;
    while p < sorted.len() && !entry.1.precedes(sorted[p].1)
        invariant
            p <= sorted.len(),
            sorted@ == before,
            forall|a: int| 0 <= a < p ==> !entry.1.precedes_spec(*(#[trigger] sorted@[a]).1),
        decreases sorted.len() - p,
    {
        p += 1;
    }
    sorted.insert(p, entry);
    proof {
        let after = sorted@;
        assert forall|a: int, b: int| 0 <= a < b < after.len() implies !(
        #[trigger] after[b]).1.precedes_spec(*(#[trigger] after[a]).1) by {
            let pa = if a < p { a } else { a - 1 };
            let pb = if b < p { b } else { b - 1 };
            if a != p && b != p {
                assert(after[a] == before[pa] && after[b] == before[pb]);
            } else if b == p {
                assert(after[a] == before[pa]);
            } else {
                assert(after[b] == before[pb]);
                assert(entry.1.precedes_spec(*before[p as int].1));
                if pb > p {
                    assert(!before[pb].1.precedes_spec(*before[p as int].1));
                }
                if before[pb].1.precedes_spec(*entry.1) {
                    lemma_precedes_transitive(*before[pb].1, *entry.1, *before[p as int].1);
                }
            }
        }
    }
    p
}

/// The entries of `members` in leaderboard order.
fn sorted_entries<'a>(members: &'a PrivateLeaderboardMembers) -> (sorted: Vec<
    (u64, &'a PrivateLeaderboardMember),
>)
    ensures
        is_listing(sorted@, members@),
        in_order(sorted@),
{
    let list = entries(members);
    let mut sorted: Vec<(u64, &'a PrivateLeaderboardMember)> = Vec::new();
    let ghost mut place: Seq<int> = Seq::empty();
    let ghost mut origin: Seq<int> = Seq::empty();
    let mut i: usize = 0;
    while i < list.len()
        invariant
            i <= list.len(),
            in_order(sorted@),
            rearranges(sorted@, list@, i as int, place, origin),
        decreases list.len() - i,
    {
        let ghost before = sorted@;
        let p = insert_in_order(&mut sorted, list[i]);
        proof {
            lemma_rearranges_insert(before, list@, i as int, place, origin, p as int);
            place = place_after_insert(place, i as int, p as int);
            origin = origin.insert(p as int, i as int);
        }
        i += 1;
    }
    proof {
        lemma_rearranged_listing(sorted@, list@, members@, place, origin);
    }
    sorted
}

/// The leaderboard: every member once, in leaderboard order, each with its rank. The rank
/// of a member is one more than the number of members with a higher local score, so members
/// with one score share a rank and the next score takes the rank of its place in the list.
pub fn ranking<'a>(members: &'a PrivateLeaderboardMembers) -> (rows: Vec<RankedMember<'a>>)
    ensures
        is_listing(row_entries(rows@), members@),
        in_order(row_entries(rows@)),
        forall|i: int|
            0 <= i < rows@.len() ==> (#[trigger] rows@[i]).rank == 1 + keys_where(
                members@,
                scores_above(rows@[i].member.local_score),
            ).len(),
{
    let sorted = sorted_entries(members);
    let mut rows: Vec<RankedMember<'a>> = Vec::new();
    let mut rank: usize = 0;
    let mut i: usize = 0;
    while i < sorted.len()
        invariant
            i <= sorted.len(),
            is_listing(sorted@, members@),
            in_order(sorted@),
            rows@.len() == i,
            row_entries(rows@) == sorted@.take(i as int),
            i > 0 ==> 1 <= rank <= i && rank == 1 + count_where(
                sorted@,
                scores_above(sorted@[i - 1].1.local_score),
            ),
            forall|k: int|
                0 <= k < i ==> (#[trigger] rows@[k]).rank == 1 + keys_where(
                    members@,
                    scores_above(rows@[k].member.local_score),
                ).len(),
        decreases sorted.len() - i,
    {
        let (id, member) = sorted[i];
        if i == 0 || member.local_score != sorted[i - 1].1.local_score {
            proof {
                let pred = scores_above(member.local_score);
                assert forall|a: int| 0 <= a < i implies pred(*(#[trigger] sorted@[a]).1) by {
                    if a < i - 1 {
                        assert(!sorted@[i - 1].1.precedes_spec(*sorted@[a].1));
                    }
                    assert(!sorted@[i as int].1.precedes_spec(*sorted@[i - 1].1));
                }
                assert forall|a: int| i <= a < sorted@.len() implies !pred(
                    *(#[trigger] sorted@[a]).1,
                ) by {
                    if a > i {
                        assert(!sorted@[a].1.precedes_spec(*sorted@[i as int].1));
                    }
                }
                lemma_count_leading(sorted@, i as int, pred);
            }
            rank = i + 1;
        }
        proof {
            lemma_count_where(sorted@, members@, scores_above(member.local_score));
        }
        rows.push(RankedMember { rank, id, member });
        proof {
            assert(row_entries(rows@) =~= sorted@.take(i + 1));
        }
        i += 1;
    }
    proof {
        assert(sorted@.take(i as int) =~= sorted@);
    }
    rows
}

/// At most `rows` of the items of `list`, starting `offset` items in.
pub fn page<T: Copy>(list: &Vec<T>, offset: usize, rows: usize) -> (shown: Vec<T>)
    ensures
        shown@ == list@.subrange(
            if offset <= list@.len() { offset as int } else { list@.len() as int },
            if offset + rows <= list@.len() { offset + rows } else { list@.len() as int },
        ),
{
    let start = if offset <= list.len() { offset } else { list.len() };
    let end = if rows <= list.len() - start { start + rows } else { list.len() };
    let mut shown: Vec<T> = Vec::new();
    let mut i: usize = start;
    while i < end
        invariant
            start <= i <= end <= list.len(),
            shown@ == list@.subrange(start as int, i as int),
        decreases end - i,
    {
        shown.push(list[i]);
        proof {
            assert(shown@ =~= list@.subrange(start as int, i + 1));
        }
        i += 1;
    }
    shown
}

/// The larger of two numbers.
pub open spec fn later_of(a: int, b: int) -> int {
    if a >= b {
        a
    } else {
        b
    }
}

/// When `member` earned the star of a part that the daily leaderboard counts.
pub open spec fn counted_ts(
    member: PrivateLeaderboardMember,
    day: u32,
    parts: Parts,
    part2: bool,
) -> Option<Timestamp> {
    if parts.includes_spec(part2) {
        member.part_ts_spec(day, part2)
    } else {
        None
    }
}

/// The points that one part of the day's puzzle brings `member`: among `n` members the
/// first to finish the part gets `n` points, the next `n - 1`, and so on; who has not
/// finished it gets none. Who finished at the same instant is taken in leaderboard order.
pub open spec fn part_points(
    members: Map<u64, PrivateLeaderboardMember>,
    day: u32,
    part2: bool,
    member: PrivateLeaderboardMember,
) -> int {
    if member.part_ts_spec(day, part2) is Some {
        members.len() - keys_where(members, finished_ahead(day, part2, member)).len()
    } else {
        0
    }
}

/// The points that `member` has on the daily leaderboard.
pub open spec fn daily_points(
    members: Map<u64, PrivateLeaderboardMember>,
    day: u32,
    parts: Parts,
    member: PrivateLeaderboardMember,
) -> int {
    (if parts.includes_spec(false) {
        part_points(members, day, false, member)
    } else {
        0
    }) + (if parts.includes_spec(true) {
        part_points(members, day, true, member)
    } else {
        0
    })
}

/// `daily` is `member` as the daily leaderboard shows it: who they are and what they have
/// solved is unchanged, the scores are those of the day alone.
pub open spec fn is_daily_member(
    members: Map<u64, PrivateLeaderboardMember>,
    day: u32,
    parts: Parts,
    member: PrivateLeaderboardMember,
    daily: PrivateLeaderboardMember,
) -> bool {
    let first = counted_ts(member, day, parts, false);
    let second = counted_ts(member, day, parts, true);
    &&& daily.id == member.id
    &&& daily.name == member.name
    &&& daily.completion_day_level@ == member.completion_day_level@
    &&& daily.global_score == 0
    &&& daily.local_score == daily_points(members, day, parts, member)
    &&& daily.stars == (if first is Some { 1int } else { 0 }) + (if second is Some { 1int } else { 0 })
    &&& daily.last_star_ts@ == later_of(
        later_of(0, if first is Some { first->0@ } else { 0 }),
        if second is Some { second->0@ } else { 0 },
    )
}

/// The points that one part of the day's puzzle brings `member`.
fn points_for_part(
    list: &Vec<(u64, &PrivateLeaderboardMember)>,
    day: u32,
    part2: bool,
    member: &PrivateLeaderboardMember,
    Ghost(members): Ghost<Map<u64, PrivateLeaderboardMember>>,
) -> (points: u32)
    requires
        is_listing(list@, members),
        list@.len() <= 0x7fff_ffff,
        member.part_ts_spec(day, part2) is Some,
    ensures
        points == part_points(members, day, part2, *member),
        points <= list@.len(),
{
    let criterion = Criterion::FinishedAhead { day, part2, of: member };
    proof {
        lemma_count_where(list@, members, criterion.pred());
        lemma_listing_len(list@, members);
    }
    let ahead = count_members(list, &criterion);
    (list.len() - ahead) as u32
}

/// The leaderboard of one day: the members of `leaderboard` with the scores they would
/// have if only the counted parts of that day's puzzle had ever been solved. Each counted
/// part that a member has solved gives one star and, among `n` members, `n` points to the
/// first who solved it, `n - 1` to the next and so on; the last star is the latest of the
/// counted ones, and the global score is left out.
pub fn daily_leaderboard(leaderboard: &PrivateLeaderboard, day: u32, parts: Parts) -> (daily:
    PrivateLeaderboard)
    requires
        leaderboard.members@.len() <= 0x7fff_ffff,
    ensures
        daily.event == leaderboard.event,
        daily.owner_id == leaderboard.owner_id,
        daily.members@.dom() == leaderboard.members@.dom(),
        forall|id: u64| #[trigger]
            leaderboard.members@.contains_key(id) ==> is_daily_member(
                leaderboard.members@,
                day,
                parts,
                leaderboard.members@[id],
                daily.members@[id],
            ),
{
    let list = entries(&leaderboard.members);
    let ghost members = leaderboard.members@;
    proof {
        lemma_listing_len(list@, members);
    }
    let mut rebuilt: HashMap<u64, PrivateLeaderboardMember> = HashMap::new();
    let mut i: usize = 0;
    while i < list.len()
        invariant
            i <= list.len(),
            is_listing(list@, members),
            list@.len() <= 0x7fff_ffff,
            forall|id: u64| #[trigger]
                rebuilt@.contains_key(id) <==> exists|b: int| 0 <= b < i && (#[trigger] list@[b]).0 == id,
            forall|b: int|
                0 <= b < i ==> is_daily_member(
                    members,
                    day,
                    parts,
                    *(#[trigger] list@[b]).1,
                    rebuilt@[list@[b].0],
                ),
        decreases list.len() - i,
    {
        let (id, member) = list[i];
        let mut local_score: u32 = 0;
        let mut stars: u32 = 0;
        let mut last_star_ts = Timestamp::epoch();
        if parts.includes(false) {
            if let Some(ts) = member.part_ts(day, false) {
                local_score = local_score + points_for_part(&list, day, false, member, Ghost(members));
                stars = stars + 1;
                last_star_ts = last_star_ts.max(ts);
            }
        }
        if parts.includes(true) {
            if let Some(ts) = member.part_ts(day, true) {
                local_score = local_score + points_for_part(&list, day, true, member, Ghost(members));
                stars = stars + 1;
                last_star_ts = last_star_ts.max(ts);
            }
        }
        let name = match &member.name {
            Some(name) => Some(name.clone()),
            None => None,
        };
        let daily = PrivateLeaderboardMember {
            id: member.id,
            name,
            global_score: 0,
            local_score,
            stars,
            last_star_ts,
            completion_day_level: member.completion_day_level.clone(),
        };
        assert(is_daily_member(members, day, parts, *member, daily));
        let ghost before = rebuilt@;
        rebuilt.insert(id, daily);
        proof {
            assert forall|b: int| 0 <= b < i + 1 implies is_daily_member(
                members,
                day,
                parts,
                *(#[trigger] list@[b]).1,
                rebuilt@[list@[b].0],
            ) by {
                if b < i {
                    assert(list@[b].0 != list@[i as int].0);
                    assert(rebuilt@[list@[b].0] == before[list@[b].0]);
                }
            }
            assert forall|k: u64| #[trigger]
                rebuilt@.contains_key(k) <==> exists|b: int|
                    0 <= b < i + 1 && (#[trigger] list@[b]).0 == k by {
                if rebuilt@.contains_key(k) {
                    if k == id {
                        assert(list@[i as int].0 == k);
                    } else {
                        let b = choose|b: int| 0 <= b < i && (#[trigger] list@[b]).0 == k;
                        assert(0 <= b < i + 1);
                    }
                }
            }
        }
        i += 1;
    }
    proof {
        assert(rebuilt@.dom() =~= members.dom()) by {
            assert forall|k: u64| rebuilt@.dom().contains(k) <==> members.dom().contains(k) by {
                if rebuilt@.contains_key(k) {
                    let b = choose|b: int| 0 <= b < i && (#[trigger] list@[b]).0 == k;
                    assert(members.contains_key(list@[b].0));
                }
                if members.contains_key(k) {
                    let b = choose|b: int| 0 <= b < list@.len() && (#[trigger] list@[b]).0 == k;
                    assert(rebuilt@.contains_key(k));
                }
            }
        }
        assert forall|k: u64| #[trigger] members.contains_key(k) implies is_daily_member(
            members,
            day,
            parts,
            members[k],
            rebuilt@[k],
        ) by {
            let b = choose|b: int| 0 <= b < list@.len() && (#[trigger] list@[b]).0 == k;
            assert(members[list@[b].0] == *list@[b].1);
        }
    }
    PrivateLeaderboard {
        event: leaderboard.event.clone(),
        owner_id: leaderboard.owner_id,
        members: rebuilt,
    }
}

/// The order of the rows of a list of people, of whom some are members of the leaderboard:
/// members come before everyone else, in leaderboard order.
pub open spec fn row_precedes(
    a: Option<&PrivateLeaderboardMember>,
    b: Option<&PrivateLeaderboardMember>,
) -> bool {
    match (a, b) {
        (Some(x), Some(y)) => x.precedes_spec(*y),
        (Some(_), None) => true,
        _ => false,
    }
}

/// Whether row `a` comes strictly before row `b`.
fn row_comes_first(a: Option<&PrivateLeaderboardMember>, b: Option<&PrivateLeaderboardMember>) -> (first:
    bool)
    ensures
        first == row_precedes(a, b),
{
    match (a, b) {
        (Some(x), Some(y)) => x.precedes(y),
        (Some(_), None) => true,
        _ => false,
    }
}

/// The places of `rows` in order: no row comes before one whose place stands earlier.
pub open spec fn rows_in_order(rows: Seq<Option<&PrivateLeaderboardMember>>, order: Seq<usize>) -> bool {
    forall|i: int, j: int|
        0 <= i < j < order.len() ==> !row_precedes(
            rows[(#[trigger] order[j]) as int],
            rows[(#[trigger] order[i]) as int],
        )
}

/// The order in which to show `rows`: the places of the rows, each once, those of members
/// first and in leaderboard order, then those of everyone else.
pub fn members_first(rows: &Vec<Option<&PrivateLeaderboardMember>>) -> (order: Vec<usize>)
    ensures
        order@.len() == rows@.len(),
        forall|i: int| 0 <= i < order@.len() ==> (#[trigger] order@[i]) < rows@.len(),
        forall|i: int, j: int| 0 <= i < j < order@.len() ==> #[trigger] order@[i] != #[trigger] order@[j],
        forall|k: usize| k < rows@.len() ==> #[trigger] order@.contains(k),
        rows_in_order(rows@, order@),
{
    let mut order: Vec<usize> = Vec::new();
    let ghost places: Seq<usize> = Seq::new(rows@.len(), |k: int| k as usize);
    let ghost mut place: Seq<int> = Seq::empty();
    let ghost mut origin: Seq<int> = Seq::empty();
    let mut i: usize = 0;
    while i < rows.len()
        invariant
            i <= rows@.len(),
            places == Seq::new(rows@.len(), |k: int| k as usize),
            rearranges(order@, places, i as int, place, origin),
            rows_in_order(rows@, order@),
        decreases rows@.len() - i,
    {
        let ghost before = order@;
        let mut p: usize = 0;
        proof {
            assert forall|a: int| 0 <= a < before.len() implies (#[trigger] before[a]) < rows@.len() by {
                assert(before[a] == places[origin[a]]);
            }
        }
        while p < order.len() && !row_comes_first(rows[i], rows[order[p]])
            invariant
                p <= order@.len(),
                i < rows@.len(),
                order@ == before,
                forall|a: int| 0 <= a < before.len() ==> (#[trigger] before[a]) < rows@.len(),
                forall|a: int|
                    0 <= a < p ==> !row_precedes(rows@[i as int], rows@[(#[trigger] order@[a]) as int]),
            decreases order@.len() - p,
        {
            p += 1;
        }
        order.insert(p, i);
        proof {
            let after = order@;
            assert(places[i as int] == i);
            lemma_rearranges_insert(before, places, i as int, place, origin, p as int);
            place = place_after_insert(place, i as int, p as int);
            origin = origin.insert(p as int, i as int);
            assert forall|a: int, b: int| 0 <= a < b < after.len() implies !row_precedes(
                rows@[(#[trigger] after[b]) as int],
                rows@[(#[trigger] after[a]) as int],
            ) by {
                let pa = if a < p { a } else { a - 1 };
                let pb = if b < p { b } else { b - 1 };
                if a != p && b != p {
                    assert(after[a] == before[pa] && after[b] == before[pb]);
                } else if b == p {
                    assert(after[a] == before[pa]);
                } else {
                    assert(after[b] == before[pb]);
                    let new_row = rows@[i as int];
                    let at_p = rows@[before[p as int] as int];
                    let later = rows@[before[pb] as int];
                    assert(row_precedes(new_row, at_p));
                    if pb > p {
                        assert(!row_precedes(later, at_p));
                    }
                    if row_precedes(later, new_row) {
                        lemma_precedes_transitive(*later->0, *new_row->0, *at_p->0);
                    }
                }
            }
        }
        i += 1;
    }
    proof {
        assert forall|a: int| 0 <= a < order@.len() implies (#[trigger] order@[a]) < rows@.len() by {
            assert(order@[a] == places[origin[a]]);
        }
        assert forall|a: int, b: int| 0 <= a < b < order@.len() implies #[trigger] order@[a]
            != #[trigger] order@[b] by {
            assert(order@[a] == places[origin[a]] && place[origin[a]] == a);
            assert(order@[b] == places[origin[b]] && place[origin[b]] == b);
        }
        assert forall|k: usize| k < rows@.len() implies #[trigger] order@.contains(k) by {
            assert(order@[place[k as int]] == places[k as int]);
        }
    }
    order
}

} // verus!
