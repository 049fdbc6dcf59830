//! Sums over finite maps, used for byte accounting.
use vstd::prelude::*;

verus! {

/// The sum of the values of a finite map.
pub open spec fn map_sum<K>(m: Map<K, nat>) -> nat
    decreases m.dom().len(),
    when m.dom().finite()
    via map_sum_decreases::<K>
{
    if m.dom().len() > 0 {
        let k = choose|k: K| m.dom().contains(k);
        m[k] + map_sum(m.remove(k))
    } else {
        0
    }
}

proof fn lemma_nonempty_has_key<K>(m: Map<K, nat>)
    requires
        m.dom().finite(),
        m.dom().len() > 0,
    ensures
        exists|k: K| m.dom().contains(k),
{
    if !(exists|k: K| m.dom().contains(k)) {
        assert(m.dom() =~= Set::<K>::empty());
    }
}

#[via_fn]
proof fn map_sum_decreases<K>(m: Map<K, nat>) {
    if m.dom().len() > 0 {
        lemma_nonempty_has_key(m);
        let k = choose|k: K| m.dom().contains(k);
        assert(m.remove(k).dom() =~= m.dom().remove(k));
    }
}

/// Taking one key out of a finite map takes its value out of the sum.
pub proof fn lemma_map_sum_remove<K>(m: Map<K, nat>, k: K)
    requires
        m.dom().finite(),
        m.dom().contains(k),
    ensures
        map_sum(m) == m[k] + map_sum(m.remove(k)),
    decreases m.dom().len(),
{
    assert(m.remove(k).dom() =~= m.dom().remove(k));
    lemma_nonempty_has_key(m);
    let j = choose|j: K| m.dom().contains(j);
    if j != k {
        assert(m.remove(j).dom() =~= m.dom().remove(j));
        lemma_map_sum_remove(m.remove(j), k);
        lemma_map_sum_remove(m.remove(k), j);
        assert(m.remove(j).remove(k) =~= m.remove(k).remove(j));
    }
}

/// Inserting a key replaces whatever value it had in the sum.
pub proof fn lemma_map_sum_insert<K>(m: Map<K, nat>, k: K, v: nat)
    requires
        m.dom().finite(),
    ensures
        map_sum(m.insert(k, v)) == v + map_sum(m.remove(k)),
        m.dom().contains(k) ==> map_sum(m) == m[k] + map_sum(m.remove(k)),
        !m.dom().contains(k) ==> map_sum(m.remove(k)) == map_sum(m),
{
    lemma_map_sum_remove(m.insert(k, v), k);
    assert(m.insert(k, v).remove(k) =~= m.remove(k));
    if m.dom().contains(k) {
        lemma_map_sum_remove(m, k);
    } else {
        assert(m.remove(k) =~= m);
    }
}

/// The empty map sums to zero.
pub proof fn lemma_map_sum_empty<K>()
    ensures
        map_sum(Map::<K, nat>::empty()) == 0,
{
    assert(Map::<K, nat>::empty().dom() =~= Set::<K>::empty());
}

} // verus!
