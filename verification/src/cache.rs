//! The leaderboards that have been fetched, one per year, and the decisions of a read
//! through them: when a cached leaderboard is served and when it is fetched anew.

use crate::models::PrivateLeaderboard;
use crate::time::Timestamp;
use std::collections::HashMap;
use vstd::prelude::*;

verus! {

/// A leaderboard together with the instant at which it was fetched.
pub type CacheEntry = (PrivateLeaderboard, Timestamp);

/// Whether an entry fetched at `fetched_at` is still fresh at `now`, given a time to live of
/// `ttl` seconds: `now` is strictly before `fetched_at + ttl`.
pub open spec fn is_fresh(fetched_at: Timestamp, now: Timestamp, ttl: u64) -> bool {
    now@ < fetched_at@ + ttl * 1_000_000_000
}

/// Whether `entries` holds a fresh leaderboard of `year`.
pub open spec fn has_fresh(entries: Map<i32, CacheEntry>, year: i32, now: Timestamp, ttl: u64) -> bool {
    entries.contains_key(year) && is_fresh(entries[year].1, now, ttl)
}

/// Where a read stands: it holds the cache for reading together with other readers, or it
/// holds the cache alone for writing.
#[derive(Debug, Clone, Copy, PartialEq, Eq, Structural)]
pub enum GetPhase {
    Shared,
    Exclusive,
}

/// What a read does next.
#[derive(Debug, Clone, Copy)]
pub enum GetDecision<'a> {
    /// Serve this entry; nothing is fetched.
    Serve(&'a CacheEntry),
    /// Give up shared access, wait for exclusive access, and decide again.
    Upgrade,
    /// Fetch the leaderboard, while holding the cache exclusively.
    Fetch,
}

/// The decision of a read of `year` at `now`. A fresh entry is served, in either phase,
/// unless the read is forced. Otherwise a read in the shared phase upgrades, and a read
/// in the exclusive phase fetches.
pub open spec fn decide_spec(
    entries: Map<i32, CacheEntry>,
    phase: GetPhase,
    year: i32,
    now: Timestamp,
    ttl: u64,
    force_refresh: bool,
) -> GetDecision<'static> {
    if !force_refresh && has_fresh(entries, year, now, ttl) {
        GetDecision::Serve(&entries[year])
    } else if phase == GetPhase::Shared {
        GetDecision::Upgrade
    } else {
        GetDecision::Fetch
    }
}

/// Why a leaderboard could not be fetched: the source answered with a status that is not a
/// success, or could not be reached at all.
#[derive(Debug, Clone, Copy, PartialEq, Eq, Structural)]
pub struct TransportError {
    /// The status the source answered with, if it answered.
    pub status: Option<u16>,
}

/// The fetched leaderboards, at most one per year.
#[derive(Debug)]
pub struct LeaderboardCache {
    entries: HashMap<i32, CacheEntry>,
}

impl View for LeaderboardCache {
    type V = Map<i32, CacheEntry>;

    closed spec fn view(&self) -> Map<i32, CacheEntry> {
        self.entries@
    }
}

impl LeaderboardCache {
    /// A cache that holds nothing.
    pub fn new() -> (cache: LeaderboardCache)
        ensures
            cache@ == Map::<i32, CacheEntry>::empty(),
    {
        LeaderboardCache { entries: HashMap::new() }
    }

    /// The cache as it was last stored; what could not be read back counts as empty.
    pub fn restore(stored: Option<HashMap<i32, CacheEntry>>) -> (cache: LeaderboardCache)
        ensures
            cache@ == match stored {
                Some(entries) => entries@,
                None => Map::<i32, CacheEntry>::empty(),
            },
    {
        match stored {
            Some(entries) => LeaderboardCache { entries },
            None => LeaderboardCache::new(),
        }
    }

    /// Everything the cache holds: what is written to the store, as a whole, after every
    /// change.
    pub fn entries(&self) -> (entries: &HashMap<i32, CacheEntry>)
        ensures
            entries@ == self@,
    {
        &self.entries
    }

    /// The entry of `year`, fresh or not, if there is one. Nothing is ever fetched for this.
    pub fn get_cached(&self, year: i32) -> (entry: Option<&CacheEntry>)
        ensures
            entry is Some <==> self@.contains_key(year),
            entry matches Some(e) ==> *e == self@[year],
    {
        self.entries.get(&year)
    }

    /// What a read of `year` at `now` does next.
    pub fn decide(&self, phase: GetPhase, year: i32, now: Timestamp, ttl: u64, force_refresh: bool) -> (decision:
        GetDecision<'_>)
        ensures
            decision == decide_spec(self@, phase, year, now, ttl, force_refresh),
    {
        if !force_refresh {
            match self.entries.get(&year) {
                Some(entry) => {
                    if fresh(entry.1, now, ttl) {
                        return GetDecision::Serve(entry);
                    }
                },
                None => {},
            }
        }
        match phase {
            GetPhase::Shared => GetDecision::Upgrade,
            GetPhase::Exclusive => GetDecision::Fetch,
        }
    }

    /// Puts the leaderboard of `year` fetched at `now` in place of the one held before.
    pub fn store(&mut self, year: i32, leaderboard: PrivateLeaderboard, now: Timestamp)
        ensures
            final(self)@ == old(self)@.insert(year, (leaderboard, now)),
    {
        self.entries.insert(year, (leaderboard, now));
    }

    /// Takes in what a fetch of `year` at `now` gave. A fetched leaderboard replaces the
    /// entry of `year`; a failure leaves the cache as it was and is handed on as it came.
    pub fn complete_fetch(
        &mut self,
        year: i32,
        fetched: Result<PrivateLeaderboard, TransportError>,
        now: Timestamp,
    ) -> (outcome: Result<(), TransportError>)
        ensures
            fetched matches Ok(leaderboard) ==> outcome is Ok && final(self)@ == old(self)@.insert(
                year,
                (leaderboard, now),
            ),
            fetched matches Err(error) ==> outcome == Err::<(), TransportError>(error) && final(self)@
                == old(self)@,
    {
        match fetched {
            Ok(leaderboard) => {
                self.store(year, leaderboard, now);
                Ok(())
            },
            Err(error) => Err(error),
        }
    }

    /// Empties the cache.
    pub fn clear(&mut self)
        ensures
            final(self)@ == Map::<i32, CacheEntry>::empty(),
    {
        self.entries.clear();
    }
}

/// Whether an entry fetched at `fetched_at` is still fresh at `now`, given a time to live of
/// `ttl` seconds.
pub fn fresh(fetched_at: Timestamp, now: Timestamp, ttl: u64) -> (b: bool)
    ensures
        b == is_fresh(fetched_at, now, ttl),
{
    now.as_nanos() < fetched_at.as_nanos() + (ttl as i128) * 1_000_000_000
}

/// Within the freshness window of a fetch, a read that is not forced is served what was
/// fetched, in either phase: it fetches nothing, and a reader that had missed before the
/// fetch and decides again under exclusive access does not fetch a second time.
pub proof fn lemma_fresh_entry_is_served(
    entries: Map<i32, CacheEntry>,
    year: i32,
    leaderboard: PrivateLeaderboard,
    fetched_at: Timestamp,
    phase: GetPhase,
    now: Timestamp,
    ttl: u64,
)
    requires
        is_fresh(fetched_at, now, ttl),
    ensures
        decide_spec(entries.insert(year, (leaderboard, fetched_at)), phase, year, now, ttl, false)
            == GetDecision::Serve(&(leaderboard, fetched_at)),
{
}

/// Two reads that are not forced and fall into the freshness window of one entry are served
/// the same leaderboard.
pub proof fn lemma_repeated_reads_agree(
    entries: Map<i32, CacheEntry>,
    year: i32,
    phase1: GetPhase,
    now1: Timestamp,
    ttl1: u64,
    phase2: GetPhase,
    now2: Timestamp,
    ttl2: u64,
)
    requires
        has_fresh(entries, year, now1, ttl1),
        has_fresh(entries, year, now2, ttl2),
    ensures
        decide_spec(entries, phase1, year, now1, ttl1, false) == decide_spec(
            entries,
            phase2,
            year,
            now2,
            ttl2,
            false,
        ),
        decide_spec(entries, phase1, year, now1, ttl1, false) == GetDecision::Serve(&entries[year]),
{
}

/// A forced read is never served from the cache: it upgrades and then fetches, however
/// fresh the entry is.
pub proof fn lemma_forced_read_fetches(
    entries: Map<i32, CacheEntry>,
    year: i32,
    now: Timestamp,
    ttl: u64,
)
    ensures
        decide_spec(entries, GetPhase::Shared, year, now, ttl, true) == GetDecision::Upgrade,
        decide_spec(entries, GetPhase::Exclusive, year, now, ttl, true) == GetDecision::Fetch,
{
}

/// A read that finds no fresh entry fetches once it holds the cache exclusively.
pub proof fn lemma_stale_read_fetches(
    entries: Map<i32, CacheEntry>,
    year: i32,
    now: Timestamp,
    ttl: u64,
)
    requires
        !has_fresh(entries, year, now, ttl),
    ensures
        decide_spec(entries, GetPhase::Shared, year, now, ttl, false) == GetDecision::Upgrade,
        decide_spec(entries, GetPhase::Exclusive, year, now, ttl, false) == GetDecision::Fetch,
{
}

/// A read that has come to hold the cache exclusively: when it started, the time to live
/// it goes by, whether it is forced, and what the source would hand out if asked now.
pub ghost struct Read {
    pub now: Timestamp,
    pub ttl: u64,
    pub force_refresh: bool,
    pub source: PrivateLeaderboard,
}

/// Whether a read of `year` that holds the cache exclusively fetches.
pub open spec fn read_fetches(entries: Map<i32, CacheEntry>, year: i32, read: Read) -> bool {
    decide_spec(entries, GetPhase::Exclusive, year, read.now, read.ttl, read.force_refresh)
        is Fetch
}

/// What the cache holds once a read of `year` is through, given that a fetch succeeds.
pub open spec fn entries_after(entries: Map<i32, CacheEntry>, year: i32, read: Read) -> Map<
    i32,
    CacheEntry,
> {
    if read_fetches(entries, year, read) {
        entries.insert(year, (read.source, read.now))
    } else {
        entries
    }
}

/// How many fetches take place while `reads` of `year` hold the cache exclusively one
/// after the other.
pub open spec fn fetches(entries: Map<i32, CacheEntry>, year: i32, reads: Seq<Read>) -> nat
    decreases reads.len(),
{
    if reads.len() == 0 {
        0
    } else {
        (if read_fetches(entries, year, reads[0]) {
            1nat
        } else {
            0nat
        }) + fetches(entries_after(entries, year, reads[0]), year, reads.drop_first())
    }
}

/// What each of `reads` of `year` is handed, in the order in which they hold the cache
/// exclusively.
pub open spec fn results(entries: Map<i32, CacheEntry>, year: i32, reads: Seq<Read>) -> Seq<
    CacheEntry,
>
    decreases reads.len(),
{
    if reads.len() == 0 {
        Seq::empty()
    } else {
        seq![entries_after(entries, year, reads[0])[year]] + results(
            entries_after(entries, year, reads[0]),
            year,
            reads.drop_first(),
        )
    }
}

/// Reads that are not forced and fall into the freshness window of the entry that the
/// cache holds fetch nothing and leave the cache as it is, however many they are, and
/// each of them is handed that entry.
pub proof fn lemma_fresh_reads_fetch_nothing(
    entries: Map<i32, CacheEntry>,
    year: i32,
    reads: Seq<Read>,
)
    requires
        entries.contains_key(year),
        forall|i: int|
            0 <= i < reads.len() ==> !(#[trigger] reads[i]).force_refresh && is_fresh(
                entries[year].1,
                reads[i].now,
                reads[i].ttl,
            ),
    ensures
        fetches(entries, year, reads) == 0,
        results(entries, year, reads).len() == reads.len(),
        forall|i: int| 0 <= i < reads.len() ==> #[trigger] results(entries, year, reads)[i] == entries[year],
    decreases reads.len(),
{
    if reads.len() > 0 {
        let rest = reads.drop_first();
        assert(!read_fetches(entries, year, reads[0]));
        assert forall|i: int| 0 <= i < rest.len() implies !(#[trigger] rest[i]).force_refresh
            && is_fresh(entries[year].1, rest[i].now, rest[i].ttl) by {
            assert(rest[i] == reads[i + 1]);
        }
        lemma_fresh_reads_fetch_nothing(entries, year, rest);
        assert forall|i: int| 0 <= i < reads.len() implies #[trigger] results(
            entries,
            year,
            reads,
        )[i] == entries[year] by {
            if i > 0 {
                assert(results(entries, year, reads)[i] == results(entries, year, rest)[i - 1]);
            }
        }
    }
}

/// Readers that all missed, and then come to hold the cache exclusively one after the other
/// within the freshness window of the first one's fetch, cause exactly one fetch between
/// them: the first one fetches, and every one of them is handed what the first one fetched.
pub proof fn lemma_missed_reads_fetch_once(
    entries: Map<i32, CacheEntry>,
    year: i32,
    reads: Seq<Read>,
)
    requires
        reads.len() >= 1,
        forall|i: int| 0 <= i < reads.len() ==> !(#[trigger] reads[i]).force_refresh,
        !has_fresh(entries, year, reads[0].now, reads[0].ttl),
        forall|i: int|
            1 <= i < reads.len() ==> is_fresh(reads[0].now, (#[trigger] reads[i]).now, reads[i].ttl),
    ensures
        fetches(entries, year, reads) == 1,
        results(entries, year, reads).len() == reads.len(),
        forall|i: int|
            0 <= i < reads.len() ==> #[trigger] results(entries, year, reads)[i] == (
                reads[0].source,
                reads[0].now,
            ),
{
    let rest = reads.drop_first();
    let fetched = entries_after(entries, year, reads[0]);
    assert(read_fetches(entries, year, reads[0]));
    assert(fetched[year] == (reads[0].source, reads[0].now));
    assert forall|i: int| 0 <= i < rest.len() implies !(#[trigger] rest[i]).force_refresh
        && is_fresh(fetched[year].1, rest[i].now, rest[i].ttl) by {
        assert(rest[i] == reads[i + 1]);
    }
    lemma_fresh_reads_fetch_nothing(fetched, year, rest);
    assert forall|i: int| 0 <= i < reads.len() implies #[trigger] results(entries, year, reads)[i]
        == (reads[0].source, reads[0].now) by {
        if i > 0 {
            assert(results(entries, year, reads)[i] == results(fetched, year, rest)[i - 1]);
        }
    }
}

/// Forced reads fetch every time: as many fetches take place as there are reads, and each
/// read is handed what it fetched itself.
pub proof fn lemma_forced_reads_fetch_each(
    entries: Map<i32, CacheEntry>,
    year: i32,
    reads: Seq<Read>,
)
    requires
        forall|i: int| 0 <= i < reads.len() ==> (#[trigger] reads[i]).force_refresh,
    ensures
        fetches(entries, year, reads) == reads.len(),
        results(entries, year, reads).len() == reads.len(),
        forall|i: int|
            0 <= i < reads.len() ==> #[trigger] results(entries, year, reads)[i] == (
                reads[i].source,
                reads[i].now,
            ),
    decreases reads.len(),
{
    if reads.len() > 0 {
        let rest = reads.drop_first();
        let fetched = entries_after(entries, year, reads[0]);
        assert(read_fetches(entries, year, reads[0]));
        assert forall|i: int| 0 <= i < rest.len() implies (#[trigger] rest[i]).force_refresh by {
            assert(rest[i] == reads[i + 1]);
        }
        lemma_forced_reads_fetch_each(fetched, year, rest);
        assert forall|i: int| 0 <= i < reads.len() implies #[trigger] results(
            entries,
            year,
            reads,
        )[i] == (reads[i].source, reads[i].now) by {
            if i > 0 {
                assert(results(entries, year, reads)[i] == results(fetched, year, rest)[i - 1]);
                assert(rest[i - 1] == reads[i]);
            }
        }
    }
}

} // verus!
