//! Sums over the keys of a finite map.
//!
//! The length of a compacted log is the sum of the lengths of its records,
//! one for each bound key, in whatever order they were written. This module
//! defines such a sum and proves that it does not depend on the order.

use vstd::prelude::*;

verus! {

/// The sum of `w(k, m[k])` over the keys `k` of the finite map `m`.
pub open spec fn total_weight<V>(m: Map<Seq<char>, V>, w: spec_fn(Seq<char>, V) -> nat) -> nat
    decreases m.dom().len(),
    when m.dom().finite()
{
    if m.dom().len() == 0 {
        0
    } else {
        let k = m.dom().choose();
        w(k, m[k]) + total_weight(m.remove(k), w)
    }
}

/// Any key can be taken out of the sum first.
pub proof fn lemma_weight_remove<V>(
    m: Map<Seq<char>, V>,
    w: spec_fn(Seq<char>, V) -> nat,
    key: Seq<char>,
)
    requires
        m.dom().finite(),
        m.contains_key(key),
    ensures
        total_weight(m, w) == w(key, m[key]) + total_weight(m.remove(key), w),
    decreases m.dom().len(),
{
    let c = m.dom().choose();
    if c != key {
        lemma_weight_remove(m.remove(c), w, key);
        lemma_weight_remove(m.remove(key), w, c);
        assert(m.remove(c).remove(key) =~= m.remove(key).remove(c));
    }
}

/// Binding a key adds its weight to the sum of the others.
pub proof fn lemma_weight_insert<V>(
    m: Map<Seq<char>, V>,
    w: spec_fn(Seq<char>, V) -> nat,
    key: Seq<char>,
    value: V,
)
    requires
        m.dom().finite(),
    ensures
        total_weight(m.insert(key, value), w) == w(key, value) + total_weight(m.remove(key), w),
        total_weight(m.remove(key), w) <= total_weight(m, w),
        !m.contains_key(key) ==> total_weight(m.remove(key), w) == total_weight(m, w),
{
    lemma_weight_remove(m.insert(key, value), w, key);
    assert(m.insert(key, value).remove(key) =~= m.remove(key));
    if m.contains_key(key) {
        lemma_weight_remove(m, w, key);
    } else {
        assert(m.remove(key) =~= m);
    }
}

/// Two maps over the same keys, with the same weight under each key, have
/// the same sum.
pub proof fn lemma_weight_same<V, U>(
    m: Map<Seq<char>, V>,
    w: spec_fn(Seq<char>, V) -> nat,
    n: Map<Seq<char>, U>,
    u: spec_fn(Seq<char>, U) -> nat,
)
    requires
        m.dom().finite(),
        m.dom() =~= n.dom(),
        forall|k: Seq<char>| #[trigger] m.contains_key(k) ==> w(k, m[k]) == u(k, n[k]),
    ensures
        total_weight(m, w) == total_weight(n, u),
    decreases m.dom().len(),
{
    if m.dom().len() != 0 {
        let c = m.dom().choose();
        assert(m.contains_key(c));
        lemma_weight_remove(n, u, c);
        lemma_weight_same(m.remove(c), w, n.remove(c), u);
    }
}

} // verus!
