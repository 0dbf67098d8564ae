//! How long a cached leaderboard stays fresh: shorter while a puzzle has just unlocked.

use crate::day::AocDay;
use crate::time::Timestamp;
use vstd::prelude::*;

verus! {

/// One line of the rule table: until `minutes_after_unlock` whole minutes have passed since
/// the day's puzzle unlocked, a cached leaderboard stays fresh for `ttl` seconds.
#[derive(Debug, Clone, Copy, PartialEq, Eq, Structural)]
pub struct CacheTtlRule {
    pub minutes_after_unlock: i64,
    pub ttl: u64,
}

/// The table that a list of rules stands for: threshold (minutes) to time to live (seconds).
/// Of two rules with one threshold the later one counts.
pub open spec fn table_of(rules: Seq<CacheTtlRule>) -> Map<int, nat>
    decreases rules.len(),
{
    if rules.len() == 0 {
        Map::empty()
    } else {
        table_of(rules.drop_last()).insert(
            rules.last().minutes_after_unlock as int,
            rules.last().ttl as nat,
        )
    }
}

/// `threshold` is the smallest threshold of `table` that is strictly greater than `elapsed`.
pub open spec fn is_next_threshold(table: Map<int, nat>, elapsed: int, threshold: int) -> bool {
    &&& table.contains_key(threshold)
    &&& elapsed < threshold
    &&& forall|other: int| #[trigger] table.contains_key(other) && elapsed < other ==> threshold <= other
}

/// The time to live that `table` gives `elapsed` minutes after the unlock: that of the
/// smallest threshold strictly greater than `elapsed`, or `default_ttl` where there is none.
pub open spec fn ttl_after(table: Map<int, nat>, default_ttl: nat, elapsed: int) -> nat {
    if exists|t: int| is_next_threshold(table, elapsed, t) {
        table[choose|t: int| is_next_threshold(table, elapsed, t)]
    } else {
        default_ttl
    }
}

/// The whole minutes in `nanos` nanoseconds, rounded towards zero.
pub open spec fn whole_minutes(nanos: int) -> int {
    if nanos >= 0 {
        nanos / 60_000_000_000
    } else {
        -((-nanos) / 60_000_000_000)
    }
}

/// Whole minutes from `earlier` to `later`, rounded towards zero; negative where `later`
/// comes first.
pub fn minutes_between(earlier: Timestamp, later: Timestamp) -> (minutes: i64)
    ensures
        minutes == whole_minutes(later@ - earlier@),
{
    let delta: i128 = later.as_nanos() - earlier.as_nanos();
    if delta >= 0 {
        (delta / 60_000_000_000) as i64
    } else {
        let back: i128 = -delta;
        -((back / 60_000_000_000) as i64)
    }
}

/// Thresholds strictly ascending: the table is sorted and no threshold occurs twice.
pub open spec fn strictly_ascending(rules: Seq<CacheTtlRule>) -> bool {
    forall|i: int, j: int|
        0 <= i < j < rules.len() ==> (#[trigger] rules[i]).minutes_after_unlock < (
        #[trigger] rules[j]).minutes_after_unlock
}

/// The table of a list holds exactly the thresholds of the list.
proof fn lemma_table_keys(rules: Seq<CacheTtlRule>, threshold: int)
    ensures
        table_of(rules).contains_key(threshold) <==> exists|i: int|
            0 <= i < rules.len() && (#[trigger] rules[i]).minutes_after_unlock == threshold,
    decreases rules.len(),
{
    if rules.len() > 0 {
        let init = rules.drop_last();
        lemma_table_keys(init, threshold);
        if table_of(rules).contains_key(threshold) {
            if rules.last().minutes_after_unlock == threshold {
                assert(rules[rules.len() - 1].minutes_after_unlock == threshold);
            } else {
                let i = choose|i: int|
                    0 <= i < init.len() && (#[trigger] init[i]).minutes_after_unlock == threshold;
                assert(rules[i] == init[i]);
            }
        }
        if exists|i: int|
            0 <= i < rules.len() && (#[trigger] rules[i]).minutes_after_unlock == threshold {
            let i = choose|i: int|
                0 <= i < rules.len() && (#[trigger] rules[i]).minutes_after_unlock == threshold;
            if i < rules.len() - 1 {
                assert(init[i] == rules[i]);
            }
        }
    }
}

/// Where no threshold occurs twice, the table gives each rule's threshold that rule's
/// time to live.
proof fn lemma_table_value(rules: Seq<CacheTtlRule>, i: int)
    requires
        strictly_ascending(rules),
        0 <= i < rules.len(),
    ensures
        table_of(rules).contains_key(rules[i].minutes_after_unlock as int),
        table_of(rules)[rules[i].minutes_after_unlock as int] == rules[i].ttl,
    decreases rules.len(),
{
    let init = rules.drop_last();
    if i < rules.len() - 1 {
        assert(strictly_ascending(init)) by {
            assert forall|a: int, b: int| 0 <= a < b < init.len() implies (
            #[trigger] init[a]).minutes_after_unlock < (#[trigger] init[b]).minutes_after_unlock by {
                assert(init[a] == rules[a] && init[b] == rules[b]);
            }
        }
        lemma_table_value(init, i);
        assert(init[i] == rules[i]);
        assert(rules[i].minutes_after_unlock < rules[rules.len() - 1].minutes_after_unlock);
    }
}

/// The freshness policy: a default time to live and the rule table, kept sorted by threshold.
#[derive(Debug)]
pub struct TtlPolicy {
    default_ttl: u64,
    rules: Vec<CacheTtlRule>,
}

impl TtlPolicy {
    #[verifier::type_invariant]
    pub closed spec fn inv(self) -> bool {
        strictly_ascending(self.rules@)
    }

    /// Time to live, in seconds, where no rule applies.
    pub closed spec fn default_ttl(self) -> nat {
        self.default_ttl as nat
    }

    /// The rule table: threshold (minutes after the unlock) to time to live (seconds).
    pub closed spec fn table(self) -> Map<int, nat> {
        table_of(self.rules@)
    }

    /// The time to live `elapsed` whole minutes after the unlock of the day in progress;
    /// `None` stands for no puzzle day in progress.
    pub open spec fn ttl_spec(self, elapsed: Option<int>) -> nat {
        match elapsed {
            Some(elapsed) => ttl_after(self.table(), self.default_ttl(), elapsed),
            None => self.default_ttl(),
        }
    }

    /// Whole minutes from the unlock of the puzzle day in progress at `now` to `now`;
    /// `None` where no puzzle day is in progress or the day is not on the calendar.
    pub open spec fn elapsed_spec(now: Timestamp) -> Option<int> {
        match AocDay::current_on_spec(AocDay::today(now)) {
            Some(day) => if day.on_calendar() {
                Some(whole_minutes(now@ - day.unlock_secs() * 1_000_000_000))
            } else {
                None
            },
            None => None,
        }
    }

    /// The policy with the given default and rules. The rules may come in any order; of two
    /// with one threshold the later one counts.
    pub fn new(default_ttl: u64, rules: Vec<CacheTtlRule>) -> (policy: TtlPolicy)
        ensures
            policy.default_ttl() == default_ttl,
            policy.table() == table_of(rules@),
    {
        let mut sorted: Vec<CacheTtlRule> = Vec::new();
        let mut i: usize = 0;
        while i < rules.len()
            invariant
                i <= rules.len(),
                strictly_ascending(sorted@),
                table_of(sorted@) == table_of(rules@.take(i as int)),
            decreases rules.len() - i,
        {
            let rule = rules[i];
            insert_rule(&mut sorted, rule);
            proof {
                assert(rules@.take(i + 1).drop_last() == rules@.take(i as int));
                assert(rules@.take(i + 1).last() == rule);
            }
            i += 1;
        }
        proof {
            assert(rules@.take(i as int) == rules@);
        }
        TtlPolicy { default_ttl, rules: sorted }
    }

    /// The time to live `elapsed` whole minutes after the unlock: that of the smallest
    /// threshold strictly greater than `elapsed`, the default where `elapsed` is at or past
    /// every threshold.
    pub fn ttl_after_minutes(&self, elapsed: i64) -> (ttl: u64)
        ensures
            ttl == ttl_after(self.table(), self.default_ttl(), elapsed as int),
            forall|t: int|
                is_next_threshold(self.table(), elapsed as int, t) ==> ttl == self.table()[t],
            (forall|t: int| #[trigger] self.table().contains_key(t) ==> t <= elapsed) ==> ttl
                == self.default_ttl(),
    {
        proof {
            use_type_invariant(self);
        }
        let mut i: usize = 0;
        while i < self.rules.len()
            invariant
                i <= self.rules.len(),
                strictly_ascending(self.rules@),
                forall|j: int| 0 <= j < i ==> (#[trigger] self.rules@[j]).minutes_after_unlock <= elapsed,
            decreases self.rules.len() - i,
        {
            if self.rules[i].minutes_after_unlock > elapsed {
                proof {
                    let found = self.rules@[i as int].minutes_after_unlock as int;
                    lemma_table_value(self.rules@, i as int);
                    assert forall|other: int| #[trigger]
                        self.table().contains_key(other) && elapsed < other implies found
                        <= other by {
                        lemma_table_keys(self.rules@, other);
                        let k = choose|k: int|
                            0 <= k < self.rules@.len() && (
                            #[trigger] self.rules@[k]).minutes_after_unlock == other;
                        if k < i {
                            assert(self.rules@[k].minutes_after_unlock <= elapsed);
                        } else if k > i {
                            assert(self.rules@[i as int].minutes_after_unlock
                                < self.rules@[k].minutes_after_unlock);
                        }
                    }
                    assert(is_next_threshold(self.table(), elapsed as int, found));
                    lemma_next_threshold_unique(self.table(), elapsed as int, found);
                }
                return self.rules[i].ttl;
            }
            i += 1;
        }
        proof {
            assert forall|t: int| !is_next_threshold(self.table(), elapsed as int, t) by {
                if self.table().contains_key(t) {
                    lemma_table_keys(self.rules@, t);
                    let k = choose|k: int|
                        0 <= k < self.rules@.len() && (
                        #[trigger] self.rules@[k]).minutes_after_unlock == t;
                    assert(self.rules@[k].minutes_after_unlock <= elapsed);
                }
            }
        }
        self.default_ttl
    }

    /// The time to live at `now`: the default where no puzzle day is in progress, otherwise
    /// what the rule table gives for the whole minutes since the day's unlock.
    pub fn resolve(&self, now: Timestamp) -> (ttl: u64)
        ensures
            ttl == self.ttl_spec(Self::elapsed_spec(now)),
    {
        match AocDay::current(now) {
            Some(day) => match day.checked_unlock_datetime() {
                Some(unlock) => {
                    proof {
                        assert(unlock@ == day.unlock_secs() * 1_000_000_000);
                    }
                    self.ttl_after_minutes(minutes_between(unlock, now))
                },
                None => self.default_ttl,
            },
            None => self.default_ttl,
        }
    }

    /// Time to live, in seconds, where no rule applies.
    pub fn get_default_ttl(&self) -> (ttl: u64)
        ensures
            ttl == self.default_ttl(),
    {
        self.default_ttl
    }
}

/// At most one threshold is the next one.
pub proof fn lemma_next_threshold_unique(table: Map<int, nat>, elapsed: int, threshold: int)
    requires
        is_next_threshold(table, elapsed, threshold),
    ensures
        forall|default_ttl: nat| #[trigger] ttl_after(table, default_ttl, elapsed) == table[threshold],
        forall|t: int| is_next_threshold(table, elapsed, t) ==> t == threshold,
{
    assert forall|t: int| is_next_threshold(table, elapsed, t) implies t == threshold by {
        assert(table.contains_key(t) && elapsed < t);
        assert(table.contains_key(threshold) && elapsed < threshold);
    }
}

/// Puts `rule` into a sorted table, in place of the rule with the same threshold if there
/// is one.
fn insert_rule(sorted: &mut Vec<CacheTtlRule>, rule: CacheTtlRule)
    requires
        strictly_ascending(old(sorted)@),
    ensures
        strictly_ascending(final(sorted)@),
        table_of(final(sorted)@) == table_of(old(sorted)@).insert(
            rule.minutes_after_unlock as int,
            rule.ttl as nat,
        ),
{
    let ghost before = sorted@;
    let mut j: usize = 0;
    while j < sorted.len() && sorted[j].minutes_after_unlock < rule.minutes_after_unlock
        invariant
            j <= sorted.len(),
            sorted@ == before,
            forall|k: int| 0 <= k < j ==> (#[trigger] sorted@[k]).minutes_after_unlock
                < rule.minutes_after_unlock,
        decreases sorted.len() - j,
    {
        j += 1;
    }
    if j < sorted.len() && sorted[j].minutes_after_unlock == rule.minutes_after_unlock {
        sorted.set(j, rule);
    } else {
        sorted.insert(j, rule);
    }
    proof {
        let after = sorted@;
        assert(strictly_ascending(after)) by {
            assert forall|a: int, b: int| 0 <= a < b < after.len() implies (
            #[trigger] after[a]).minutes_after_unlock < (#[trigger] after[b]).minutes_after_unlock by {
                if after.len() == before.len() {
                    if a != j && b != j {
                        assert(after[a] == before[a] && after[b] == before[b]);
                    } else if a == j {
                        assert(after[b] == before[b]);
                        assert(before[j as int].minutes_after_unlock < before[b].minutes_after_unlock);
                    } else {
                        assert(after[a] == before[a]);
                    }
                } else {
                    let pa = if a < j { a } else { a - 1 };
                    let pb = if b < j { b } else { b - 1 };
                    if a != j && b != j {
                        assert(after[a] == before[pa] && after[b] == before[pb]);
                    } else if a == j {
                        assert(after[b] == before[pb]);
                        if j < before.len() {
                            assert(before[j as int].minutes_after_unlock <= before[pb].minutes_after_unlock);
                        }
                    } else {
                        assert(after[a] == before[pa]);
                    }
                }
            }
        }
        let want = table_of(before).insert(rule.minutes_after_unlock as int, rule.ttl as nat);
        assert forall|t: int| table_of(after).contains_key(t) <==> want.contains_key(t) by {
            lemma_table_keys(after, t);
            lemma_table_keys(before, t);
            if table_of(after).contains_key(t) {
                let k = choose|k: int|
                    0 <= k < after.len() && (#[trigger] after[k]).minutes_after_unlock == t;
                if k != j {
                    let pk = if after.len() == before.len() || k < j { k } else { k - 1 };
                    assert(before[pk] == after[k]);
                }
            }
            if want.contains_key(t) {
                if t == rule.minutes_after_unlock {
                    assert(after[j as int] == rule);
                } else {
                    let k = choose|k: int|
                        0 <= k < before.len() && (#[trigger] before[k]).minutes_after_unlock == t;
                    let nk = if after.len() == before.len() || k < j { k } else { k + 1 };
                    assert(after[nk] == before[k]);
                }
            }
        }
        assert forall|t: int| table_of(after).contains_key(t) implies table_of(after)[t]
            == want[t] by {
            lemma_table_keys(after, t);
            let k = choose|k: int|
                0 <= k < after.len() && (#[trigger] after[k]).minutes_after_unlock == t;
            lemma_table_value(after, k);
            if k == j {
                assert(after[k] == rule);
            } else {
                let pk = if after.len() == before.len() || k < j { k } else { k - 1 };
                assert(before[pk] == after[k]);
                lemma_table_value(before, pk);
                if t == rule.minutes_after_unlock {
                    assert(after[j as int] == rule);
                    assert(false);
                }
            }
        }
        assert(table_of(after) =~= want);
    }
}

} // verus!
