//! Walking a hash map through a list of its keys.

use std::collections::HashMap;
use vstd::prelude::*;
#[allow(unused_imports)]
use vstd::std_specs::hash::{obeys_key_model, spec_keys_iter};
#[allow(unused_imports)]
use vstd::std_specs::iter::IteratorSpec;

verus! {

broadcast use vstd::std_specs::hash::group_hash_axioms;

/// `keys` lists every key of a map once, in some order.
pub open spec fn lists_keys<K, V>(keys: Seq<K>, map: Map<K, V>) -> bool {
    &&& keys.no_duplicates()
    &&& keys.to_set() == map.dom()
}

/// A list with one more item holds what it held, and the item.
pub proof fn lemma_contains_push<K>(list: Seq<K>, item: K)
    ensures
        forall|x: K| #[trigger]
            list.push(item).contains(x) <==> list.contains(x) || x == item,
{
    let more = list.push(item);
    assert forall|x: K| #[trigger] more.contains(x) <==> list.contains(x) || x == item by {
        if list.contains(x) {
            let j = choose|j: int| 0 <= j < list.len() && list[j] == x;
            assert(more[j] == x);
        }
        assert(more[list.len() as int] == item);
    }
}

/// One step along a list without repeats: the next item is new, and the longer
/// prefix holds it besides what the shorter one holds.
pub proof fn lemma_next_item<K>(list: Seq<K>, i: int)
    requires
        list.no_duplicates(),
        0 <= i < list.len(),
    ensures
        !list.take(i).contains(list[i]),
        forall|x: K| #[trigger]
            list.take(i + 1).contains(x) <==> list.take(i).contains(x) || x == list[i],
{
    if list.take(i).contains(list[i]) {
        let j = choose|j: int| 0 <= j < i && list.take(i)[j] == list[i];
        assert(list[j] == list[i]);
    }
    assert(list.take(i + 1) =~= list.take(i).push(list[i]));
    lemma_contains_push(list.take(i), list[i]);
}

/// The keys of a map, each once, in the order the map is walked.
pub fn keys_of<K: Copy + Eq + std::hash::Hash, V>(map: &HashMap<K, V>) -> (keys: Vec<K>)
    requires
        obeys_key_model::<K>(),
    ensures
        lists_keys(keys@, map@),
{
    let ghost all = IteratorSpec::remaining(&spec_keys_iter(map)).unref();
    let mut keys: Vec<K> = Vec::new();
    for key in iter: map.keys()
        invariant
            iter.seq().unref() == all,
            keys@ == all.take(iter.index() as int),
    {
        keys.push(*key);
        assert(keys@ =~= all.take(iter.index() + 1));
    }
    assert(keys@ =~= all);
    keys
}

} // verus!
