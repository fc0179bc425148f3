//! Properties that relate several heap operations, stated and proved over
//! the same abstract state that the operations' own contracts use.

use vstd::prelude::*;
use vstd::laws_cmp::obeys_cmp;
use vstd::multiset::Multiset;
use crate::heap::lemma_root_is_max;
use crate::heap::BinaryHeap;
use crate::order::value_le;

verus! {

/// Max-extraction order: `pop` guarantees that the removed element bounds
/// every element of the heap's old contents, and that the new contents are
/// the old ones minus the removed element. So any element a later `pop` can
/// remove is no greater than the one removed now: repeated pops yield a
/// non-increasing sequence of values.
pub proof fn lemma_extraction_order<T: Ord>(contents: Multiset<T>, first: T, second: T)
    requires
        obeys_cmp::<T>(),
        forall|x: T| contents.count(x) > 0 ==> value_le(x, first),
        contents.remove(first).count(second) > 0,
    ensures
        value_le(second, first),
{
    broadcast use vstd::multiset::group_multiset_axioms;

    assert(contents.count(second) >= contents.remove(first).count(second));
}

/// Peek/pop agreement: on a non-empty well-formed heap, `peek` lends and
/// `pop` removes one and the same element — the storage root — and every
/// stored element is no greater than it.
pub proof fn lemma_peek_pop_agreement<T: Ord>(heap: BinaryHeap<T>)
    requires
        obeys_cmp::<T>(),
        heap.well_formed(),
        heap@.len() > 0,
    ensures
        forall|x: T| heap@.to_multiset().count(x) > 0 ==> value_le(x, heap@[0]),
{
    broadcast use vstd::seq_lib::group_to_multiset_ensures;

    assert forall|x: T| heap@.to_multiset().count(x) > 0 implies value_le(x, heap@[0]) by {
        assert(heap@.contains(x));
        let w = choose|w: int| 0 <= w < heap@.len() && heap@[w] == x;
        lemma_root_is_max(heap@, w);
    }
}

/// Capacity-hint neutrality: a heap built with a capacity hint and one
/// built without start in the same abstract state — the empty sequence —
/// and every contract of this container is phrased over that abstract
/// state alone, so the two behave identically.
pub proof fn lemma_capacity_hint_neutral<T: Ord>(hinted: BinaryHeap<T>, plain: BinaryHeap<T>)
    requires
        hinted@ == Seq::<T>::empty(),
        plain@ == Seq::<T>::empty(),
    ensures
        hinted@ == plain@,
        hinted.well_formed(),
        plain.well_formed(),
{
}

} // verus!
