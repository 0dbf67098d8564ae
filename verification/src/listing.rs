//! A map walked once: its entries as a sequence in which every key occurs exactly once.

use std::collections::HashMap;
use vstd::prelude::*;
use vstd::std_specs::hash::obeys_key_model;
use vstd::std_specs::iter::IteratorSpec;

verus! {

/// `entries` holds each entry of `map` exactly once.
pub open spec fn is_listing<K, V>(entries: Seq<(K, &V)>, map: Map<K, V>) -> bool {
    &&& forall|i: int|
        0 <= i < entries.len() ==> map.contains_key((#[trigger] entries[i]).0) && map[entries[i].0]
            == *entries[i].1
    &&& forall|i: int, j: int|
        0 <= i < j < entries.len() ==> (#[trigger] entries[i]).0 != (#[trigger] entries[j]).0
    &&& forall|k: K| #[trigger]
        map.contains_key(k) ==> exists|i: int| 0 <= i < entries.len() && (#[trigger] entries[i]).0 == k
}

/// The keys of `map` whose value meets `pred`.
pub open spec fn keys_where<K, V>(map: Map<K, V>, pred: spec_fn(V) -> bool) -> Set<K> {
    Set::new(|k: K| map.contains_key(k) && pred(map[k]))
}

/// How many of `entries` hold a value that meets `pred`.
pub open spec fn count_where<K, V>(entries: Seq<(K, &V)>, pred: spec_fn(V) -> bool) -> nat
    decreases entries.len(),
{
    if entries.len() == 0 {
        0
    } else {
        count_where(entries.drop_last(), pred) + if pred(*entries.last().1) {
            1nat
        } else {
            0nat
        }
    }
}

/// The keys among the first `n` of `entries` whose value meets `pred`.
spec fn keys_in_prefix<K, V>(entries: Seq<(K, &V)>, n: int, pred: spec_fn(V) -> bool) -> Set<K> {
    Set::new(|k: K| exists|i: int| 0 <= i < n && (#[trigger] entries[i]).0 == k && pred(*entries[i].1))
}

proof fn lemma_count_prefix<K, V>(entries: Seq<(K, &V)>, n: int, pred: spec_fn(V) -> bool)
    requires
        0 <= n <= entries.len(),
        forall|i: int, j: int|
            0 <= i < j < entries.len() ==> (#[trigger] entries[i]).0 != (#[trigger] entries[j]).0,
    ensures
        keys_in_prefix(entries, n, pred).finite(),
        keys_in_prefix(entries, n, pred).len() == count_where(entries.take(n), pred),
    decreases n,
{
    if n == 0 {
        assert(keys_in_prefix(entries, n, pred) =~= Set::empty());
    } else {
        lemma_count_prefix(entries, n - 1, pred);
        let before = keys_in_prefix(entries, n - 1, pred);
        let now = keys_in_prefix(entries, n, pred);
        let last = entries[n - 1];
        assert(entries.take(n).drop_last() =~= entries.take(n - 1));
        assert(entries.take(n).last() == last);
        if pred(*last.1) {
            assert(!before.contains(last.0));
            assert(now =~= before.insert(last.0)) by {
                assert forall|k: K| now.contains(k) <==> before.insert(last.0).contains(k) by {
                    if now.contains(k) {
                        let i = choose|i: int|
                            0 <= i < n && (#[trigger] entries[i]).0 == k && pred(*entries[i].1);
                        if i < n - 1 {
                            assert(before.contains(k));
                        }
                    }
                    if before.contains(k) {
                        let i = choose|i: int|
                            0 <= i < n - 1 && (#[trigger] entries[i]).0 == k && pred(
                                *entries[i].1,
                            );
                        assert(0 <= i < n);
                    }
                    if k == last.0 {
                        assert(entries[n - 1].0 == k);
                    }
                }
            }
        } else {
            assert(now =~= before) by {
                assert forall|k: K| now.contains(k) <==> before.contains(k) by {
                    if now.contains(k) {
                        let i = choose|i: int|
                            0 <= i < n && (#[trigger] entries[i]).0 == k && pred(*entries[i].1);
                        assert(i < n - 1);
                    }
                    if before.contains(k) {
                        let i = choose|i: int|
                            0 <= i < n - 1 && (#[trigger] entries[i]).0 == k && pred(
                                *entries[i].1,
                            );
                        assert(0 <= i < n);
                    }
                }
            }
        }
    }
}

/// Counting along a listing of a map counts the keys of the map.
pub proof fn lemma_count_where<K, V>(entries: Seq<(K, &V)>, map: Map<K, V>, pred: spec_fn(V) -> bool)
    requires
        is_listing(entries, map),
    ensures
        keys_where(map, pred).finite(),
        keys_where(map, pred).len() == count_where(entries, pred),
{
    lemma_count_prefix(entries, entries.len() as int, pred);
    assert(entries.take(entries.len() as int) =~= entries);
    let walked = keys_in_prefix(entries, entries.len() as int, pred);
    assert(walked =~= keys_where(map, pred)) by {
        assert forall|k: K| walked.contains(k) <==> keys_where(map, pred).contains(k) by {
            if walked.contains(k) {
                let i = choose|i: int|
                    0 <= i < entries.len() && (#[trigger] entries[i]).0 == k && pred(
                        *entries[i].1,
                    );
                assert(map.contains_key(entries[i].0));
            }
            if keys_where(map, pred).contains(k) {
                let i = choose|i: int| 0 <= i < entries.len() && (#[trigger] entries[i]).0 == k;
                assert(map[entries[i].0] == *entries[i].1);
            }
        }
    }
}

/// A listing of a map is as long as the map is large.
pub proof fn lemma_listing_len<K, V>(entries: Seq<(K, &V)>, map: Map<K, V>)
    requires
        is_listing(entries, map),
    ensures
        map.dom().finite(),
        entries.len() == map.len(),
{
    let all = |v: V| true;
    lemma_count_where(entries, map, all);
    assert(keys_where(map, all) =~= map.dom());
    lemma_count_all(entries, all);
}

proof fn lemma_count_all<K, V>(entries: Seq<(K, &V)>, all: spec_fn(V) -> bool)
    requires
        forall|v: V| #[trigger] all(v),
    ensures
        count_where(entries, all) == entries.len(),
    decreases entries.len(),
{
    if entries.len() > 0 {
        lemma_count_all(entries.drop_last(), all);
    }
}

/// Counting one entry further.
pub proof fn lemma_count_step<K, V>(entries: Seq<(K, &V)>, n: int, pred: spec_fn(V) -> bool)
    requires
        0 <= n < entries.len(),
    ensures
        count_where(entries.take(n + 1), pred) == count_where(entries.take(n), pred) + if pred(
            *entries[n].1,
        ) {
            1nat
        } else {
            0nat
        },
        count_where(entries.take(n + 1), pred) <= n + 1,
    decreases n,
{
    assert(entries.take(n + 1).drop_last() =~= entries.take(n));
    assert(entries.take(n + 1).last() == entries[n]);
    lemma_count_bound(entries.take(n), pred);
}

/// No more entries are counted than there are.
pub proof fn lemma_count_bound<K, V>(entries: Seq<(K, &V)>, pred: spec_fn(V) -> bool)
    ensures
        count_where(entries, pred) <= entries.len(),
    decreases entries.len(),
{
    if entries.len() > 0 {
        lemma_count_bound(entries.drop_last(), pred);
    }
}

/// The entries of `map`, each once, in the order in which the map hands them out.
pub fn entries<'a, K: Copy, V>(map: &'a HashMap<K, V>) -> (list: Vec<(K, &'a V)>)
    requires
        obeys_key_model::<K>(),
    ensures
        is_listing(list@, map@),
{
    let mut list: Vec<(K, &'a V)> = Vec::new();
    let ghost walked = map.iter().remaining();
    for pair in it: map.iter()
        invariant
            it.seq() == walked,
            walked.no_duplicates(),
            list@.len() == it.index(),
            forall|i: int|
                0 <= i < list@.len() ==> (#[trigger] list@[i]).0 == *walked[i].0 && list@[i].1
                    == walked[i].1,
    {
        let (k, v) = pair;
        list.push((*k, v));
    }
    proof {
        assert(list@.len() == walked.len());
        assert forall|i: int, j: int| 0 <= i < j < list@.len() implies (#[trigger] list@[i]).0 != (
        #[trigger] list@[j]).0 by {
            if list@[i].0 == list@[j].0 {
                assert(map@.contains_key(*walked[i].0));
                assert(map@.contains_key(*walked[j].0));
                assert(walked[i] == walked[j]);
            }
        }
        assert forall|k: K| #[trigger] map@.contains_key(k) implies exists|i: int|
            0 <= i < list@.len() && (#[trigger] list@[i]).0 == k by {
            assert(walked.contains((&k, &map@[k])));
            let i = choose|i: int| 0 <= i < walked.len() && walked[i] == (&k, &map@[k]);
            assert(list@[i].0 == k);
        }
    }
    list
}

/// `sorted` holds the first `n` items of `list`, each once: item `b` of `list` stands at
/// `place[b]` in `sorted`, and at `a` in `sorted` stands item `origin[a]` of `list`.
pub open spec fn rearranges<T>(
    sorted: Seq<T>,
    list: Seq<T>,
    n: int,
    place: Seq<int>,
    origin: Seq<int>,
) -> bool {
    &&& sorted.len() == n
    &&& place.len() == n
    &&& origin.len() == n
    &&& forall|b: int| 0 <= b < n ==> 0 <= #[trigger] place[b] < n && sorted[place[b]] == list[b]
    &&& forall|a: int|
        0 <= a < n ==> 0 <= #[trigger] origin[a] < n && sorted[a] == list[origin[a]]
            && place[origin[a]] == a
}

/// Where the items stand once one more item has been put in at `p`.
pub open spec fn place_after_insert(place: Seq<int>, n: int, p: int) -> Seq<int> {
    Seq::new(
        (n + 1) as nat,
        |b: int|
            if b == n {
                p
            } else if place[b] < p {
                place[b]
            } else {
                place[b] + 1
            },
    )
}

/// Putting the next item of `list` in at `p` keeps the rearrangement.
pub proof fn lemma_rearranges_insert<T>(
    sorted: Seq<T>,
    list: Seq<T>,
    n: int,
    place: Seq<int>,
    origin: Seq<int>,
    p: int,
)
    requires
        rearranges(sorted, list, n, place, origin),
        0 <= p <= n < list.len(),
    ensures
        rearranges(
            sorted.insert(p, list[n]),
            list,
            n + 1,
            place_after_insert(place, n, p),
            origin.insert(p, n),
        ),
{
    let after = sorted.insert(p, list[n]);
    let new_place = place_after_insert(place, n, p);
    let new_origin = origin.insert(p, n);
    assert forall|b: int| 0 <= b < n + 1 implies 0 <= #[trigger] new_place[b] < n + 1
        && after[new_place[b]] == list[b] by {
        if b < n {
            assert(sorted[place[b]] == list[b]);
        }
    }
    assert forall|a: int| 0 <= a < n + 1 implies 0 <= #[trigger] new_origin[a] < n + 1 && after[a]
        == list[new_origin[a]] && new_place[new_origin[a]] == a by {
        if a < p {
            assert(sorted[a] == list[origin[a]] && place[origin[a]] == a);
        } else if a > p {
            assert(sorted[a - 1] == list[origin[a - 1]] && place[origin[a - 1]] == a - 1);
        }
    }
}

/// A rearrangement of a listing is a listing.
pub proof fn lemma_rearranged_listing<K, V>(
    sorted: Seq<(K, &V)>,
    list: Seq<(K, &V)>,
    map: Map<K, V>,
    place: Seq<int>,
    origin: Seq<int>,
)
    requires
        is_listing(list, map),
        rearranges(sorted, list, list.len() as int, place, origin),
    ensures
        is_listing(sorted, map),
{
    assert forall|a: int| 0 <= a < sorted.len() implies map.contains_key((#[trigger] sorted[a]).0)
        && map[sorted[a].0] == *sorted[a].1 by {
        assert(sorted[a] == list[origin[a]]);
    }
    assert forall|k: K| #[trigger] map.contains_key(k) implies exists|a: int|
        0 <= a < sorted.len() && (#[trigger] sorted[a]).0 == k by {
        let b = choose|b: int| 0 <= b < list.len() && (#[trigger] list[b]).0 == k;
        assert(sorted[place[b]].0 == k);
    }
    assert forall|i: int, j: int| 0 <= i < j < sorted.len() implies (#[trigger] sorted[i]).0 != (
    #[trigger] sorted[j]).0 by {
        assert(sorted[i] == list[origin[i]] && place[origin[i]] == i);
        assert(sorted[j] == list[origin[j]] && place[origin[j]] == j);
        if origin[i] < origin[j] {
            assert(list[origin[i]].0 != list[origin[j]].0);
        } else if origin[j] < origin[i] {
            assert(list[origin[j]].0 != list[origin[i]].0);
        }
    }
}

} // verus!
