//! Tallies (maps from keys to counts) and their sums over a ring of buckets.

use vstd::prelude::*;
use vstd::laws_cmp::obeys_cmp;
use std::collections::BTreeMap;

verus! {

/// How many times `k` is counted in `m` (zero where `m` has no entry for it).
pub open spec fn count_in<K>(m: Map<K, usize>, k: K) -> nat {
    if m.contains_key(k) {
        m[k] as nat
    } else {
        0
    }
}

/// How many times `k` is counted over all the tallies of `bs`.
pub open spec fn sum_at<K>(bs: Seq<Map<K, usize>>, k: K) -> nat
    decreases bs.len(),
{
    if bs.len() == 0 {
        0
    } else {
        sum_at(bs.drop_last(), k) + count_in(bs.last(), k)
    }
}

/// `total` holds, for each key, the sum of its counts over `bs`, and has no
/// entry for a key whose sum is zero.
pub open spec fn is_total_of<K>(total: Map<K, usize>, bs: Seq<Map<K, usize>>) -> bool {
    &&& forall|k: K| #[trigger] count_in(total, k) == sum_at(bs, k)
    &&& forall|k: K| #[trigger] total.contains_key(k) ==> total[k] > 0
}

/// The tally that holds, for each key, its sum over `bs`.
pub open spec fn total_of<K>(bs: Seq<Map<K, usize>>) -> Map<K, usize> {
    Map::new(|k: K| sum_at(bs, k) > 0, |k: K| sum_at(bs, k) as usize)
}

/// A tally that is the total of `bs` is the map `total_of(bs)`.
pub proof fn lemma_total_is_total_of<K>(total: Map<K, usize>, bs: Seq<Map<K, usize>>)
    requires
        is_total_of(total, bs),
    ensures
        total == total_of(bs),
{
    assert forall|k: K| #[trigger] total.contains_key(k) <==> total_of(bs).contains_key(k) by {
        assert(count_in(total, k) == sum_at(bs, k));
    }
    assert forall|k: K| total.contains_key(k) implies #[trigger] total[k] == total_of(bs)[k] by {
        assert(count_in(total, k) == sum_at(bs, k));
    }
    assert(total =~= total_of(bs));
}

/// Replacing one tally of `bs` changes each sum by the difference of the
/// counts in the old and the new tally.
pub proof fn lemma_sum_update<K>(bs: Seq<Map<K, usize>>, i: int, m: Map<K, usize>, k: K)
    requires
        0 <= i < bs.len(),
    ensures
        sum_at(bs.update(i, m), k) + count_in(bs[i], k) == sum_at(bs, k) + count_in(m, k),
    decreases bs.len(),
{
    let bu = bs.update(i, m);
    if i == bs.len() - 1 {
        assert(bu.drop_last() =~= bs.drop_last());
    } else {
        assert(bu.drop_last() =~= bs.drop_last().update(i, m));
        lemma_sum_update(bs.drop_last(), i, m, k);
    }
}

/// Each tally's count of a key is at most its sum.
pub proof fn lemma_count_le_sum<K>(bs: Seq<Map<K, usize>>, i: int, k: K)
    requires
        0 <= i < bs.len(),
    ensures
        count_in(bs[i], k) <= sum_at(bs, k),
{
    lemma_sum_update(bs, i, Map::empty(), k);
}

/// Tallies with no entries sum to zero.
pub proof fn lemma_sum_of_empty<K>(bs: Seq<Map<K, usize>>, k: K)
    requires
        forall|i: int| 0 <= i < bs.len() ==> #[trigger] bs[i] == Map::<K, usize>::empty(),
    ensures
        sum_at(bs, k) == 0,
    decreases bs.len(),
{
    if bs.len() > 0 {
        lemma_sum_of_empty(bs.drop_last(), k);
    }
}

/// Emptying some of the tallies of `bs1` can only lower each sum.
pub proof fn lemma_sum_le_when_emptied<K>(bs1: Seq<Map<K, usize>>, bs2: Seq<Map<K, usize>>, k: K)
    requires
        bs1.len() == bs2.len(),
        forall|i: int|
            0 <= i < bs1.len() ==> #[trigger] bs2[i] == bs1[i] || bs2[i] == Map::<
                K,
                usize,
            >::empty(),
    ensures
        sum_at(bs2, k) <= sum_at(bs1, k),
    decreases bs1.len(),
{
    if bs1.len() > 0 {
        assert(bs2[bs2.len() - 1] == bs1[bs1.len() - 1] || bs2.last() == Map::<K, usize>::empty());
        lemma_sum_le_when_emptied(bs1.drop_last(), bs2.drop_last(), k);
    }
}

/// The length of `s`, as an integer.
pub open spec fn seq_len<A>(s: Seq<A>) -> int {
    s.len() as int
}

/// `m` with the count of `k` raised by one.
pub open spec fn add_one<K>(m: Map<K, usize>, k: K) -> Map<K, usize> {
    m.insert(k, (count_in(m, k) + 1) as usize)
}

/// Counting `key` once more in tally `i` of `bs`, and in its total, keeps
/// the total the total of the tallies.
pub proof fn lemma_count_one_more<K>(total: Map<K, usize>, bs: Seq<Map<K, usize>>, i: int, key: K)
    requires
        is_total_of(total, bs),
        0 <= i < bs.len(),
        count_in(total, key) < usize::MAX,
    ensures
        is_total_of(add_one(total, key), bs.update(i, add_one(bs[i], key))),
{
    let nb = add_one(bs[i], key);
    lemma_count_le_sum(bs, i, key);
    assert forall|k: K| #[trigger] count_in(add_one(total, key), k) == sum_at(bs.update(i, nb), k) by {
        lemma_sum_update(bs, i, nb, k);
        assert(count_in(total, k) == sum_at(bs, k));
    }
}

/// Adds one to the count of `k` in `m`.
pub fn increment<K: Ord + Copy>(m: &mut BTreeMap<K, usize>, k: K)
    requires
        obeys_cmp::<K>(),
        count_in(old(m)@, k) < usize::MAX,
    ensures
        final(m)@ == add_one(old(m)@, k),
{
    let c = match m.get(&k) {
        Some(c) => *c,
        None => 0,
    };
    m.insert(k, c + 1);
}

} // verus!
