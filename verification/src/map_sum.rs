//! The sum of the values of a finite map, with the lemmas that relate it to
//! `insert` and `remove`.
use vstd::prelude::*;

verus! {

/// Sum of all values of `m` (zero for an empty or infinite map).
pub open spec fn map_sum(m: Map<u64, u128>) -> int
    decreases m.dom().len(),
{
    if m.dom().finite() && m.dom().len() > 0 {
        let k = m.dom().choose();
        m[k] + map_sum(m.remove(k))
    } else {
        0
    }
}

/// The value stored under `k`, or zero when `k` is absent.
pub open spec fn value_or_zero(m: Map<u64, u128>, k: u64) -> int {
    if m.contains_key(k) {
        m[k] as int
    } else {
        0
    }
}

/// Taking any key out of a finite map takes its value out of the sum.
pub proof fn lemma_map_sum_remove(m: Map<u64, u128>, k: u64)
    requires
        m.dom().finite(),
        m.contains_key(k),
    ensures
        map_sum(m) == m[k] + map_sum(m.remove(k)),
    decreases m.dom().len(),
{
    let c = m.dom().choose();
    if c != k {
        lemma_map_sum_remove(m.remove(c), k);
        lemma_map_sum_remove(m.remove(k), c);
        assert(m.remove(c).remove(k) =~= m.remove(k).remove(c));
    }
}

/// Sums of `u128` values are never negative.
pub proof fn lemma_map_sum_nonneg(m: Map<u64, u128>)
    ensures
        map_sum(m) >= 0,
    decreases m.dom().len(),
{
    if m.dom().finite() && m.dom().len() > 0 {
        let k = m.dom().choose();
        lemma_map_sum_nonneg(m.remove(k));
    }
}

/// Every single value is bounded by the sum.
pub proof fn lemma_map_sum_bounds_value(m: Map<u64, u128>, k: u64)
    requires
        m.dom().finite(),
    ensures
        value_or_zero(m, k) <= map_sum(m),
{
    lemma_map_sum_nonneg(m);
    if m.contains_key(k) {
        lemma_map_sum_remove(m, k);
        lemma_map_sum_nonneg(m.remove(k));
    }
}

/// Two distinct values together are bounded by the sum.
pub proof fn lemma_map_sum_bounds_pair(m: Map<u64, u128>, a: u64, b: u64)
    requires
        m.dom().finite(),
        a != b,
    ensures
        value_or_zero(m, a) + value_or_zero(m, b) <= map_sum(m),
{
    lemma_map_sum_nonneg(m);
    if m.contains_key(a) {
        lemma_map_sum_remove(m, a);
        lemma_map_sum_bounds_value(m.remove(a), b);
        assert(value_or_zero(m.remove(a), b) == value_or_zero(m, b));
    } else {
        lemma_map_sum_bounds_value(m, b);
    }
}

/// Overwriting the value under `k` changes the sum by the difference.
pub proof fn lemma_map_sum_insert(m: Map<u64, u128>, k: u64, v: u128)
    requires
        m.dom().finite(),
    ensures
        map_sum(m.insert(k, v)) == map_sum(m) - value_or_zero(m, k) + v,
{
    let m2 = m.insert(k, v);
    lemma_map_sum_remove(m2, k);
    assert(m2.remove(k) =~= m.remove(k));
    if m.contains_key(k) {
        lemma_map_sum_remove(m, k);
    } else {
        assert(m.remove(k) =~= m);
    }
}

/// The values under the keys `ks`, summed.
pub open spec fn sum_at(m: Map<u64, u128>, ks: Seq<u64>) -> int
    decreases ks.len(),
{
    if ks.len() == 0 {
        0
    } else {
        sum_at(m, ks.drop_last()) + value_or_zero(m, ks.last())
    }
}

/// The values under distinct keys sum to at most the sum of the map.
pub proof fn lemma_sum_at_bounded(m: Map<u64, u128>, ks: Seq<u64>)
    requires
        m.dom().finite(),
        ks.no_duplicates(),
    ensures
        0 <= sum_at(m, ks) <= map_sum(m),
    decreases ks.len(),
{
    lemma_map_sum_nonneg(m);
    if ks.len() > 0 {
        let k = ks.last();
        let rest = ks.drop_last();
        assert(rest.no_duplicates());
        if m.contains_key(k) {
            let m2 = m.remove(k);
            lemma_map_sum_remove(m, k);
            lemma_sum_at_bounded(m2, rest);
            lemma_sum_at_same(m, m2, rest, k);
        } else {
            lemma_sum_at_bounded(m, rest);
        }
    }
}

/// Removing a key that `ks` does not hold leaves `sum_at` alone.
proof fn lemma_sum_at_same(m: Map<u64, u128>, m2: Map<u64, u128>, ks: Seq<u64>, k: u64)
    requires
        m2 == m.remove(k),
        !ks.contains(k),
    ensures
        sum_at(m, ks) == sum_at(m2, ks),
    decreases ks.len(),
{
    if ks.len() > 0 {
        assert(!ks.drop_last().contains(k)) by {
            if ks.drop_last().contains(k) {
                let i = choose|i: int| 0 <= i < ks.drop_last().len() && ks.drop_last()[i] == k;
                assert(ks[i] == k);
            }
        }
        lemma_sum_at_same(m, m2, ks.drop_last(), k);
        assert(ks.last() != k) by {
            assert(ks[ks.len() - 1] == ks.last());
        }
    }
}

} // verus!
