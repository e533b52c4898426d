//! Sums over finite maps.
use vstd::prelude::*;

verus! {

/// The sum of `f` over the values of a finite map.
pub open spec fn map_sum<K, V>(m: Map<K, V>, f: spec_fn(V) -> nat) -> nat
    decreases m.dom().len(),
{
    if m.dom().finite() && m.dom().len() > 0 {
        let k = m.dom().choose();
        f(m[k]) + map_sum(m.remove(k), f)
    } else {
        0
    }
}

/// One value more or less changes the sum by what it counts.
pub proof fn lemma_sum_remove<K, V>(m: Map<K, V>, f: spec_fn(V) -> nat, k: K)
    requires
        m.dom().finite(),
        m.dom().contains(k),
    ensures
        map_sum(m, f) == f(m[k]) + map_sum(m.remove(k), f),
    decreases m.dom().len(),
{
    let c = m.dom().choose();
    assert(m.dom().contains(c)) by {
        assert(m.dom().len() > 0) by {
            if m.dom().len() == 0 {
                assert(m.dom() =~= Set::<K>::empty());
            }
        }
    }
    if c != k {
        lemma_sum_remove(m.remove(c), f, k);
        lemma_sum_remove(m.remove(k), f, c);
        assert(m.remove(c).remove(k) =~= m.remove(k).remove(c));
    }
}

/// The sum after a value was put at a key.
pub proof fn lemma_sum_insert<K, V>(m: Map<K, V>, f: spec_fn(V) -> nat, k: K, v: V)
    requires
        m.dom().finite(),
    ensures
        map_sum(m.insert(k, v), f) == f(v) + map_sum(m.remove(k), f),
{
    lemma_sum_remove(m.insert(k, v), f, k);
    assert(m.insert(k, v).remove(k) =~= m.remove(k));
}

/// The sum of `f` over the values at these keys.
pub open spec fn keys_sum<K, V>(keys: Seq<K>, m: Map<K, V>, f: spec_fn(V) -> nat) -> nat
    decreases keys.len(),
{
    if keys.len() == 0 {
        0
    } else {
        keys_sum(keys.drop_last(), m, f) + f(m[keys.last()])
    }
}

proof fn lemma_keys_sum_local<K, V>(keys: Seq<K>, m: Map<K, V>, k: K, f: spec_fn(V) -> nat)
    requires
        !keys.contains(k),
    ensures
        keys_sum(keys, m.remove(k), f) == keys_sum(keys, m, f),
    decreases keys.len(),
{
    if keys.len() > 0 {
        assert(keys[keys.len() - 1] == keys.last());
        assert(!keys.drop_last().contains(k)) by {
            if keys.drop_last().contains(k) {
                let i = keys.drop_last().index_of(k);
                assert(keys[i] == k);
            }
        }
        lemma_keys_sum_local(keys.drop_last(), m, k, f);
        assert(keys.last() != k);
    }
}

/// The sum over a list that holds each key once is the sum over the map.
pub proof fn lemma_keys_sum<K, V>(keys: Seq<K>, m: Map<K, V>, f: spec_fn(V) -> nat)
    requires
        m.dom().finite(),
        keys.no_duplicates(),
        forall|k: K| keys.contains(k) == #[trigger] m.dom().contains(k),
    ensures
        keys_sum(keys, m, f) == map_sum(m, f),
    decreases keys.len(),
{
    if keys.len() == 0 {
        assert(m.dom() =~= Set::<K>::empty()) by {
            assert forall|k: K| !m.dom().contains(k) by {
                assert(!keys.contains(k));
            }
        }
    } else {
        let k = keys.last();
        let rest = keys.drop_last();
        assert(keys.contains(k)) by {
            assert(keys[keys.len() - 1] == k);
        }
        assert(!rest.contains(k)) by {
            if rest.contains(k) {
                let i = rest.index_of(k);
                assert(keys[i] == keys[keys.len() - 1]);
            }
        }
        assert forall|j: K| rest.contains(j) == #[trigger] m.remove(k).dom().contains(j) by {
            assert(keys.contains(j) == m.dom().contains(j));
            if rest.contains(j) {
                let i = rest.index_of(j);
                assert(keys[i] == j);
            }
            if keys.contains(j) && j != k {
                let i = keys.index_of(j);
                assert(rest[i] == j);
            }
        }
        lemma_keys_sum(rest, m.remove(k), f);
        lemma_keys_sum_local(rest, m, k, f);
        lemma_sum_remove(m, f, k);
    }
}

/// A set of numbers below `n`, as many as there are, holds them all.
pub proof fn lemma_all_below(s: Set<u32>, n: u32)
    requires
        s.finite(),
        s.len() == n,
        forall|i: u32| s.contains(i) ==> i < n,
    ensures
        forall|i: u32| i < n ==> s.contains(i),
{
    let all = Set::new(|i: u32| i < n);
    lemma_below(n);
    assert(s.subset_of(all));
    vstd::set_lib::lemma_subset_equality(s, all);
    assert forall|i: u32| i < n implies s.contains(i) by {
        assert(all.contains(i));
    }
}

/// There are `n` numbers below `n`.
pub proof fn lemma_below(n: u32)
    ensures
        Set::new(|i: u32| i < n).finite(),
        Set::new(|i: u32| i < n).len() == n,
    decreases n,
{
    let all = Set::new(|i: u32| i < n);
    if n == 0 {
        assert(all =~= Set::<u32>::empty());
    } else {
        let m = (n - 1) as u32;
        lemma_below(m);
        assert(all =~= Set::new(|i: u32| i < m).insert(m));
    }
}

/// A set of numbers below `n` has at most `n` of them.
pub proof fn lemma_at_most(s: Set<u32>, n: u32)
    requires
        forall|i: u32| s.contains(i) ==> i < n,
    ensures
        s.finite(),
        s.len() <= n,
{
    let all = Set::new(|i: u32| i < n);
    lemma_below(n);
    vstd::set_lib::lemma_len_subset(s, all);
}

} // verus!
