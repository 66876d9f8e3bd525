//! Ordered maps keyed by the bits of identifiers.

use std::collections::BTreeMap;

use vstd::prelude::*;

verus! {

proof fn lemma_increasing(keys: Seq<&u128>)
    requires
        vstd::std_specs::btree::increasing_seq(keys),
    ensures
        forall|i: int, j: int| 0 <= i < j < keys.len() ==> *keys[i] < *keys[j],
{
    broadcast use vstd::laws_cmp::group_laws_cmp;
    broadcast use vstd::std_specs::btree::group_btree_axioms;

    assert(vstd::laws_cmp::obeys_cmp::<&u128>());
    vstd::std_specs::btree::axiom_increasing_seq_meaning::<&u128>(keys);
    assert forall|i: int, j: int| 0 <= i < j < keys.len() implies *keys[i] < *keys[j] by {
        assert(vstd::std_specs::cmp::OrdSpec::cmp_spec(&keys[i], &keys[j]) is Less);
        assert(vstd::std_specs::cmp::OrdSpec::cmp_spec(keys[i], keys[j]) is Less);
    }
}

/// The keys of a map, in increasing order.
pub fn keys_of<V>(map: &BTreeMap<u128, V>) -> (r: Vec<u128>)
    ensures
        forall|i: int, j: int| 0 <= i < j < r@.len() ==> r@[i] < r@[j],
        forall|k: u128| #[trigger] r@.contains(k) <==> map@.contains_key(k),
        r@.len() == map@.len(),
        r@.no_duplicates(),
{
    broadcast use vstd::std_specs::btree::group_btree_axioms;

    let mut out: Vec<u128> = Vec::new();
    let ghost keys = vstd::std_specs::iter::IteratorSpec::remaining(
        &vstd::std_specs::btree::spec_keys_iter(map),
    );
    for k in it: map.keys()
        invariant
            it.seq() == keys,
            out@ == keys.unref().take(it.index() as int),
    {
        out.push(*k);
        assert(out@ =~= keys.unref().take(it.index() + 1));
    }
    proof {
        assert(out@ =~= keys.unref());
        assert forall|k: u128| #[trigger] out@.contains(k) <==> map@.contains_key(k) by {
            assert(keys.unref().to_set().contains(k) <==> map@.dom().contains(k));
        }
        lemma_increasing(keys);
        assert forall|i: int, j: int| 0 <= i < j < out@.len() implies out@[i] < out@[j] by {
            assert(out@[i] == *keys[i] && out@[j] == *keys[j]);
        }
    }
    out
}

} // verus!
