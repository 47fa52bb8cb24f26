//! Facts about the order in which a `BTreeMap` with `u16` keys is walked.
use vstd::prelude::*;
use std::collections::BTreeMap;
use vstd::std_specs::btree::{increasing_seq, key_obeys_cmp_spec};
use vstd::std_specs::cmp::OrdSpec;

verus! {

broadcast use vstd::std_specs::btree::group_btree_axioms;

/// `u16` keys are totally ordered, so a map keyed by them is walked in order.
pub proof fn lemma_u16_keys_ordered()
    ensures
        key_obeys_cmp_spec::<u16>(),
{
    broadcast use vstd::laws_cmp::group_laws_cmp;

}

/// In an increasing walk, the keys strictly increase.
pub proof fn lemma_increasing_keys(items: Seq<(&u16, &String)>)
    requires
        increasing_seq(items.map_values(|kv: (&u16, &String)| *kv.0)),
    ensures
        forall|i: int, j: int|
            0 <= i < j < items.len() ==> *(#[trigger] items[i]).0 < *(#[trigger] items[j]).0,
{
    broadcast use vstd::laws_cmp::group_laws_cmp;

    let keys = items.map_values(|kv: (&u16, &String)| *kv.0);
    assert(increasing_seq(keys));
    assert(forall|i: int, j: int| 0 <= i < j < keys.len() ==> #[trigger] keys[i].cmp_spec(&keys[j]) is Less);
    assert forall|i: int, j: int| 0 <= i < j < items.len() implies *(#[trigger] items[i]).0 < *(
    #[trigger] items[j]).0 by {
        assert(keys[i] == *items[i].0);
        assert(keys[j] == *items[j].0);
        assert(keys[i].cmp_spec(&keys[j]) is Less);
    }
}

} // verus!
