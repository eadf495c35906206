//! Ordered walks over maps keyed by integers.
use vstd::prelude::*;
use vstd::std_specs::iter::IteratorSpec;
use vstd::std_specs::cmp::OrdSpec;
use std::collections::BTreeMap;

verus! {

/// Each element is smaller than the ones after it.
pub open spec fn strictly_increasing(s: Seq<usize>) -> bool {
    forall|i: int, j: int| 0 <= i < j < s.len() ==> s[i] < s[j]
}

/// `keys` lists the keys of `m`, each once, smallest first.
pub open spec fn is_key_list<V>(keys: Seq<usize>, m: Map<usize, V>) -> bool {
    &&& strictly_increasing(keys)
    &&& keys.to_set() == m.dom()
}

/// The keys of a map from smallest to largest.
pub open spec fn key_list<V>(m: Map<usize, V>) -> Seq<usize> {
    choose|keys: Seq<usize>| is_key_list(keys, m)
}

/// Two strictly increasing sequences with the same elements are equal.
pub proof fn lemma_increasing_unique(a: Seq<usize>, b: Seq<usize>)
    requires
        strictly_increasing(a),
        strictly_increasing(b),
        a.to_set() == b.to_set(),
    ensures
        a == b,
    decreases a.len(),
{
    if a.len() == 0 {
        if b.len() > 0 {
            assert(b.to_set().contains(b[0]));
            assert(a.contains(b[0]));
        }
        assert(a =~= b);
    } else {
        assert(a.to_set().contains(a.last()));
        assert(b.contains(a.last()));
        let j = choose|j: int| 0 <= j < b.len() && b[j] == a.last();
        assert(b.to_set().contains(b.last()));
        assert(a.contains(b.last()));
        let i = choose|i: int| 0 <= i < a.len() && a[i] == b.last();
        assert(a.last() == b.last());
        let a1 = a.drop_last();
        let b1 = b.drop_last();
        assert forall|x: usize| a1.to_set().contains(x) == b1.to_set().contains(x) by {
            if a1.contains(x) {
                let k = choose|k: int| 0 <= k < a1.len() && a1[k] == x;
                assert(a[k] == x);
                assert(a.to_set().contains(x));
                assert(b.contains(x));
                let l = choose|l: int| 0 <= l < b.len() && b[l] == x;
                assert(b1[l] == x);
            }
            if b1.contains(x) {
                let k = choose|k: int| 0 <= k < b1.len() && b1[k] == x;
                assert(b[k] == x);
                assert(b.to_set().contains(x));
                assert(a.contains(x));
                let l = choose|l: int| 0 <= l < a.len() && a[l] == x;
                assert(a1[l] == x);
            }
        }
        assert(a1.to_set() =~= b1.to_set());
        lemma_increasing_unique(a1, b1);
        assert(a =~= a1.push(a.last()));
        assert(b =~= b1.push(b.last()));
    }
}

/// A strictly increasing list of the keys of a map is its key list.
pub proof fn lemma_key_list<V>(keys: Seq<usize>, m: Map<usize, V>)
    requires
        is_key_list(keys, m),
    ensures
        keys == key_list(m),
{
    lemma_increasing_unique(keys, key_list(m));
}

/// The keys of a map from smallest to largest.
pub fn sorted_keys<V>(m: &BTreeMap<usize, V>) -> (r: Vec<usize>)
    ensures
        r@ == key_list(m@),
        is_key_list(r@, m@),
{
    broadcast use vstd::std_specs::btree::group_btree_axioms;
    broadcast use vstd::laws_cmp::group_laws_cmp;

    let mut r: Vec<usize> = Vec::new();
    let it0 = m.iter();
    let ghost rem = it0.remaining();
    let ghost ks = rem.map_values(|kv: (&usize, &V)| *kv.0);
    assert(vstd::laws_cmp::obeys_cmp::<usize>());
    assert(vstd::std_specs::btree::increasing_seq(ks));
    assert forall|i: int, j: int| 0 <= i < j < ks.len() implies ks[i] < ks[j] by {
        assert(ks[i].cmp_spec(&ks[j]) is Less);
    }
    assert(ks.to_set() =~= m@.dom()) by {
        assert forall|k: usize| m@.dom().contains(k) implies ks.to_set().contains(k) by {
            assert(rem.contains((&k, &m@[k])));
            let idx = choose|idx: int| 0 <= idx < rem.len() && rem[idx] == (&k, &m@[k]);
            assert(ks[idx] == k);
        }
        assert forall|k: usize| ks.to_set().contains(k) implies m@.dom().contains(k) by {
            let idx = choose|idx: int| 0 <= idx < ks.len() && ks[idx] == k;
            assert(m@.contains_key(*rem[idx].0));
        }
    }
    for kv in it: it0
        invariant
            r@ == ks.take(it.index()),
            it.seq() == rem,
            ks == rem.map_values(|kv: (&usize, &V)| *kv.0),
    {
        r.push(*kv.0);
    }
    assert(r@ == ks);
    proof {
        lemma_key_list(r@, m@);
    }
    r
}

} // verus!
