//! The binary max-heap container and its read-only iterator.
//!
//! The storage is a growable buffer that encodes a complete binary tree:
//! the children of index `i` sit at `2*i + 1` and `2*i + 2`, and the parent
//! of a non-root index `i` sits at `(i - 1) / 2`. The max-heap invariant —
//! every non-root element is no greater than its parent — holds whenever a
//! public operation returns, so the root is always a maximum element.

use vstd::prelude::*;
use vstd::laws_cmp::obeys_cmp;
use core::cmp::Ordering;
use crate::order::lemma_cmp_is_spec;
use crate::order::lemma_le_refl;
use crate::order::lemma_le_total;
use crate::order::lemma_le_trans;
use crate::order::lemma_lt_flip;
use crate::order::lemma_not_lt_flip;
use crate::order::value_le;

verus! {

/// The index of the parent of tree node `i`; meaningful for `i >= 1`.
pub open spec fn parent_index(i: int) -> int {
    (i - 1) / 2
}

/// The max-heap invariant on a storage sequence: every non-root element is
/// no greater than its parent.
pub open spec fn is_max_heap<T: Ord>(s: Seq<T>) -> bool {
    forall|i: int|
        1 <= i < s.len() ==> #[trigger] value_le(s[i], s[parent_index(i)])
}

/// In a max-heap every element is no greater than the root: the element at
/// any index is bounded by the elements on its path to index 0.
pub proof fn lemma_root_is_max<T: Ord>(s: Seq<T>, i: int)
    requires
        obeys_cmp::<T>(),
        is_max_heap(s),
        0 <= i < s.len(),
    ensures
        value_le(s[i], s[0]),
    decreases i,
{
    if i == 0 {
        lemma_le_refl(s[0]);
    } else {
        lemma_root_is_max(s, parent_index(i));
        lemma_le_trans(s[i], s[parent_index(i)], s[0]);
    }
}

/// The sequence `s` with the elements at `a` and `b` exchanged.
pub open spec fn swapped<T>(s: Seq<T>, a: int, b: int) -> Seq<T> {
    s.update(a, s[b]).update(b, s[a])
}

/// Exchanging two elements of a sequence leaves its multiset of elements
/// unchanged.
proof fn lemma_swap_to_multiset<T>(s: Seq<T>, a: int, b: int)
    requires
        0 <= a < s.len(),
        0 <= b < s.len(),
        a != b,
    ensures
        swapped(s, a, b).to_multiset() == s.to_multiset(),
{
    broadcast use vstd::seq_lib::group_to_multiset_ensures;
    broadcast use vstd::multiset::group_multiset_axioms;

    let u = s.update(a, s[b]);
    assert(s.contains(s[a]));
    assert(u.to_multiset() =~= s.to_multiset().insert(s[b]).remove(s[a]));
    assert(u[b] == s[b]);
    assert(swapped(s, a, b).to_multiset() =~= u.to_multiset().insert(s[a]).remove(s[b]));
    assert(swapped(s, a, b).to_multiset() =~= s.to_multiset());
}

/// All heap edges hold, except possibly the one from `x` up to its parent.
spec fn heap_except_up<T: Ord>(s: Seq<T>, x: int) -> bool {
    forall|j: int|
        1 <= j < s.len() && j != x ==> #[trigger] value_le(s[j], s[parent_index(j)])
}

/// Every child of `x` is bounded by the parent of `x`: the slack that lets
/// a sift step restore the edge at `x` by one swap.
spec fn children_below_grandparent<T: Ord>(s: Seq<T>, x: int) -> bool {
    x > 0 ==> forall|c: int|
        0 <= c < s.len() && #[trigger] parent_index(c) == x ==> value_le(
            s[c],
            s[parent_index(x)],
        )
}

/// One sift-up step: when the element at `i` exceeds its parent `p`,
/// swapping the two re-establishes the sift-up picture at `p`.
proof fn lemma_sift_up_step<T: Ord>(s: Seq<T>, i: int, p: int)
    requires
        obeys_cmp::<T>(),
        1 <= i < s.len(),
        p == parent_index(i),
        heap_except_up(s, i),
        children_below_grandparent(s, i),
        !value_le(s[i], s[p]),
    ensures
        heap_except_up(swapped(s, p, i), p),
        children_below_grandparent(swapped(s, p, i), p),
{
    let t = swapped(s, p, i);
    assert(0 <= p < i);
    lemma_le_total(s[i], s[p]);
    assert forall|j: int| 1 <= j < t.len() && j != p implies #[trigger] value_le(
        t[j],
        t[parent_index(j)],
    ) by {
        if j == i {
            assert(value_le(s[p], s[i]));
        } else if parent_index(j) == i {
            assert(value_le(s[j], s[parent_index(i)]));
        } else if parent_index(j) == p {
            assert(value_le(s[j], s[p]));
            lemma_le_trans(s[j], s[p], s[i]);
        } else {
            assert(value_le(s[j], s[parent_index(j)]));
        }
    }
    if p > 0 {
        let g = parent_index(p);
        assert(0 <= g < p);
        assert(value_le(s[p], s[g]));
        assert forall|c: int|
            0 <= c < t.len() && #[trigger] parent_index(c) == p implies value_le(
            t[c],
            t[g],
        ) by {
            if c == i {
                assert(value_le(s[p], s[g]));
            } else {
                assert(value_le(s[c], s[parent_index(c)]));
                lemma_le_trans(s[c], s[p], s[g]);
            }
        }
    }
}

/// All heap edges hold, except possibly those from the children of `x` up
/// to `x`.
spec fn heap_except_down<T: Ord>(s: Seq<T>, x: int) -> bool {
    forall|j: int|
        1 <= j < s.len() && parent_index(j) != x ==> #[trigger] value_le(s[j], s[parent_index(j)])
}

/// One sift-down step: when the element at `i` is below `c`, its greatest
/// child, swapping the two re-establishes the sift-down picture at `c`.
proof fn lemma_sift_down_step<T: Ord>(s: Seq<T>, i: int, c: int)
    requires
        obeys_cmp::<T>(),
        0 <= i < c < s.len(),
        parent_index(c) == i,
        forall|d: int|
            0 <= d < s.len() && #[trigger] parent_index(d) == i ==> value_le(s[d], s[c]),
        heap_except_down(s, i),
        children_below_grandparent(s, i),
        value_le(s[i], s[c]),
    ensures
        heap_except_down(swapped(s, i, c), c),
        children_below_grandparent(swapped(s, i, c), c),
{
    let t = swapped(s, i, c);
    assert forall|j: int| 1 <= j < t.len() && parent_index(j) != c implies #[trigger] value_le(
        t[j],
        t[parent_index(j)],
    ) by {
        if j == c {
            assert(value_le(s[i], s[c]));
        } else if j == i {
            assert(0 <= parent_index(i) < i);
            assert(value_le(s[c], s[parent_index(i)]));
        } else if parent_index(j) == i {
            assert(value_le(s[j], s[c]));
        } else {
            assert(value_le(s[j], s[parent_index(j)]));
        }
    }
    assert forall|d: int| 0 <= d < t.len() && #[trigger] parent_index(d) == c implies value_le(
        t[d],
        t[parent_index(c)],
    ) by {
        assert(d >= 2 * c + 1);
        assert(value_le(s[d], s[parent_index(d)]));
    }
}

/// A growable array-backed binary max-heap over a totally-ordered element
/// type. Its abstract state (the view) is the sequence of stored elements
/// in raw storage order.
pub struct BinaryHeap<T> {
    data: Vec<T>,
}

impl<T> View for BinaryHeap<T> {
    type V = Seq<T>;

    closed spec fn view(&self) -> Seq<T> {
        self.data@
    }
}

impl<T: Ord> BinaryHeap<T> {
    /// The heap's storage satisfies the max-heap invariant.
    pub open spec fn well_formed(&self) -> bool {
        is_max_heap(self@)
    }

    /// Creates an empty heap.
    pub fn new() -> (heap: Self)
        ensures
            heap@ == Seq::<T>::empty(),
            heap.well_formed(),
    {
        BinaryHeap { data: Vec::new() }
    }

    /// Creates an empty heap whose storage has room pre-reserved for at
    /// least `capacity` elements. The reservation is a performance hint
    /// only: the abstract state is the same as that of `new`.
    pub fn with_capacity(capacity: usize) -> (heap: Self)
        ensures
            heap@ == Seq::<T>::empty(),
            heap.well_formed(),
    {
        BinaryHeap { data: Vec::with_capacity(capacity) }
    }

    /// The number of stored elements.
    pub fn len(&self) -> (n: usize)
        ensures
            n == self@.len(),
    {
        self.data.len()
    }

    /// Whether the heap stores no elements.
    pub fn is_empty(&self) -> (empty: bool)
        ensures
            empty == (self@.len() == 0),
    {
        self.data.is_empty()
    }

    /// Discards all stored elements.
    pub fn clear(&mut self)
        ensures
            final(self)@ == Seq::<T>::empty(),
            final(self).well_formed(),
    {
        self.data.clear();
    }

    /// The parent position of tree node `index`, or `None` for the root.
    fn get_parent(&self, index: usize) -> (parent: Option<usize>)
        ensures
            match parent {
                Option::None => index == 0,
                Option::Some(p) => index > 0 && p as int == parent_index(index as int) && p
                    < index,
            },
    {
        match index {
            0 => None,
            _ => Some((index - 1) / 2),
        }
    }

    /// The position of the left child of tree node `index`, or `None` when
    /// that position lies beyond the stored elements.
    fn get_left_child(&self, index: usize) -> (child: Option<usize>)
        ensures
            match child {
                Option::None => 2 * (index as int) + 1 >= self@.len(),
                Option::Some(c) => c == 2 * (index as int) + 1 && c < self@.len(),
            },
    {
        if index < self.data.len() / 2 {
            Some(2 * index + 1)
        } else {
            None
        }
    }

    /// The position of the right child of tree node `index`, or `None` when
    /// that position lies beyond the stored elements.
    fn get_right_child(&self, index: usize) -> (child: Option<usize>)
        ensures
            match child {
                Option::None => 2 * (index as int) + 2 >= self@.len(),
                Option::Some(c) => c == 2 * (index as int) + 2 && c < self@.len(),
            },
    {
        if index < self.data.len() / 2 {
            let child = 2 * index + 2;
            if child < self.data.len() {
                Some(child)
            } else {
                None
            }
        } else {
            None
        }
    }

    /// Exchanges the elements at storage indices `a` and `b`.
    fn swap_storage(&mut self, a: usize, b: usize)
        requires
            a < b,
            b < old(self)@.len(),
        ensures
            final(self)@ == swapped(old(self)@, a as int, b as int),
    {
        let ghost s = self.data@;
        let mut moved = self.data.swap_remove(a);
        if b == self.data.len() {
            self.data.push(moved);
            proof {
                assert(self.data@ =~= swapped(s, a as int, b as int));
            }
        } else {
            self.data.set_and_swap(b, &mut moved);
            self.data.set_and_swap(a, &mut moved);
            self.data.push(moved);
            proof {
                assert(self.data@ =~= swapped(s, a as int, b as int));
            }
        }
    }

    /// Restores the max-heap invariant by moving the element at `index`
    /// toward the root while it exceeds its parent (sift-up).
    fn bubble_up(&mut self, index: usize)
        requires
            obeys_cmp::<T>(),
            index < old(self)@.len(),
            heap_except_up(old(self)@, index as int),
            children_below_grandparent(old(self)@, index as int),
        ensures
            final(self).well_formed(),
            final(self)@.to_multiset() == old(self)@.to_multiset(),
            final(self)@.len() == old(self)@.len(),
    {
        let ghost s0 = self@;
        let mut i = index;
        loop
            invariant
                obeys_cmp::<T>(),
                s0 == old(self)@,
                i < self@.len(),
                self@.len() == s0.len(),
                self@.to_multiset() == s0.to_multiset(),
                heap_except_up(self@, i as int),
                children_below_grandparent(self@, i as int),
            decreases i,
        {
            let parent_position = self.get_parent(i);
            if parent_position.is_none() {
                proof {
                    assert forall|j: int| 1 <= j < self@.len() implies #[trigger] value_le(
                        self@[j],
                        self@[parent_index(j)],
                    ) by {
                        assert(value_le(self@[j], self@[parent_index(j)]));
                    }
                }
                return;
            }
            let parent = parent_position.unwrap();
            proof {
                lemma_cmp_is_spec::<T>();
            }
            let order = self.data[i].cmp(&self.data[parent]);
            if matches!(order, Ordering::Greater) {
                proof {
                    lemma_sift_up_step(self@, i as int, parent as int);
                    lemma_swap_to_multiset(self@, parent as int, i as int);
                }
                self.swap_storage(parent, i);
                i = parent;
            } else {
                proof {
                    assert forall|j: int| 1 <= j < self@.len() implies #[trigger] value_le(
                        self@[j],
                        self@[parent_index(j)],
                    ) by {
                        if j != i {
                            assert(value_le(self@[j], self@[parent_index(j)]));
                        }
                    }
                }
                return;
            }
        }
    }

    /// Inserts `element`. The element count grows by exactly one, the new
    /// multiset of stored elements is the old one plus `element`, and the
    /// max-heap invariant holds on return.
    pub fn push(&mut self, element: T)
        requires
            obeys_cmp::<T>(),
            old(self).well_formed(),
        ensures
            final(self).well_formed(),
            final(self)@.len() == old(self)@.len() + 1,
            final(self)@.to_multiset() == old(self)@.to_multiset().insert(element),
    {
        let ghost s0 = self@;
        self.data.push(element);
        let last_index = self.data.len() - 1;
        proof {
            broadcast use vstd::seq_lib::group_to_multiset_ensures;

            let s = self@;
            let x = last_index as int;
            assert forall|j: int| 1 <= j < s.len() && j != x implies #[trigger] value_le(
                s[j],
                s[parent_index(j)],
            ) by {
                assert(s[j] == s0[j]);
                assert(0 <= parent_index(j) < j);
                assert(s[parent_index(j)] == s0[parent_index(j)]);
                assert(value_le(s0[j], s0[parent_index(j)]));
            }
            assert forall|c: int|
                0 <= c < s.len() && #[trigger] parent_index(c) == x implies value_le(
                s[c],
                s[parent_index(x)],
            ) by {
                assert(c >= 2 * x + 1);
                assert(false);
            }
        }
        self.bubble_up(last_index);
    }

    /// Restores the max-heap invariant by moving the element at `index`
    /// toward the leaves while it is below one of its children, always
    /// descending into the greater child (sift-down).
    fn bubble_down(&mut self, index: usize)
        requires
            obeys_cmp::<T>(),
            heap_except_down(old(self)@, index as int),
            children_below_grandparent(old(self)@, index as int),
        ensures
            final(self).well_formed(),
            final(self)@.to_multiset() == old(self)@.to_multiset(),
            final(self)@.len() == old(self)@.len(),
    {
        let ghost s0 = self@;
        let mut i = index;
        loop
            invariant
                obeys_cmp::<T>(),
                s0 == old(self)@,
                self@.len() == s0.len(),
                self@.to_multiset() == s0.to_multiset(),
                heap_except_down(self@, i as int),
                children_below_grandparent(self@, i as int),
            decreases self@.len() - i,
        {
            proof {
                lemma_cmp_is_spec::<T>();
            }
            let left_child = self.get_left_child(i);
            let right_child = self.get_right_child(i);
            let candidate = match (left_child, right_child) {
                (Some(left), Some(right)) => {
                    let between_children = self.data[left].cmp(&self.data[right]);
                    if matches!(between_children, Ordering::Greater) {
                        proof {
                            lemma_le_total(self@[left as int], self@[right as int]);
                        }
                        left
                    } else {
                        right
                    }
                },
                (Some(left), None) => left,
                (None, Some(right)) => {
                    proof {
                        assert(false);
                    }
                    right
                },
                (None, None) => {
                    proof {
                        assert forall|j: int| 1 <= j < self@.len() implies #[trigger] value_le(
                            self@[j],
                            self@[parent_index(j)],
                        ) by {
                            if parent_index(j) == i as int {
                                assert(j == 2 * (i as int) + 1 || j == 2 * (i as int) + 2);
                                assert(false);
                            } else {
                                assert(value_le(self@[j], self@[parent_index(j)]));
                            }
                        }
                    }
                    return;
                },
            };
            proof {
                lemma_le_refl(self@[candidate as int]);
                assert forall|d: int|
                    0 <= d < self@.len() && #[trigger] parent_index(d) == i as int implies value_le(
                    self@[d],
                    self@[candidate as int],
                ) by {
                    assert(d == 2 * (i as int) + 1 || d == 2 * (i as int) + 2);
                }
            }
            let order = self.data[i].cmp(&self.data[candidate]);
            if matches!(order, Ordering::Less) {
                proof {
                    lemma_lt_flip(self@[i as int], self@[candidate as int]);
                    lemma_sift_down_step(self@, i as int, candidate as int);
                    lemma_swap_to_multiset(self@, i as int, candidate as int);
                }
                self.swap_storage(i, candidate);
                i = candidate;
            } else {
                proof {
                    assert forall|j: int| 1 <= j < self@.len() implies #[trigger] value_le(
                        self@[j],
                        self@[parent_index(j)],
                    ) by {
                        if parent_index(j) == i as int {
                            assert(j == 2 * (i as int) + 1 || j == 2 * (i as int) + 2);
                            assert(value_le(self@[j], self@[candidate as int]));
                            lemma_not_lt_flip(self@[i as int], self@[candidate as int]);
                            lemma_le_trans(
                                self@[j],
                                self@[candidate as int],
                                self@[i as int],
                            );
                        } else {
                            assert(value_le(self@[j], self@[parent_index(j)]));
                        }
                    }
                }
                return;
            }
        }
    }

    /// Removes and returns the greatest element, or `None` when the heap is
    /// empty. On success the returned element is the storage root, every
    /// stored element is no greater than it, and the new multiset of stored
    /// elements is the old one minus the returned element.
    pub fn pop(&mut self) -> (top: Option<T>)
        requires
            obeys_cmp::<T>(),
            old(self).well_formed(),
        ensures
            final(self).well_formed(),
            match top {
                Option::None => old(self)@.len() == 0 && final(self)@ == old(self)@,
                Option::Some(element) => {
                    &&& old(self)@.len() > 0
                    &&& element == old(self)@[0]
                    &&& final(self)@.len() == old(self)@.len() - 1
                    &&& final(self)@.to_multiset() == old(self)@.to_multiset().remove(element)
                    &&& forall|x: T|
                        old(self)@.to_multiset().count(x) > 0 ==> value_le(x, element)
                },
            },
    {
        let ghost s0 = self@;
        if self.data.is_empty() {
            None
        } else {
            let element = self.data.swap_remove(0);
            proof {
                broadcast use vstd::seq_lib::group_to_multiset_ensures;
                broadcast use vstd::multiset::group_multiset_axioms;

                let u = s0.update(0, s0.last());
                assert(s0.contains(s0[0]));
                assert(u.to_multiset() =~= s0.to_multiset().insert(s0.last()).remove(s0[0]));
                assert(self@ =~= u.remove(u.len() - 1));
                assert(u[u.len() - 1] == s0.last());
                assert(self@.to_multiset() =~= s0.to_multiset().remove(s0[0]));
                assert forall|j: int|
                    1 <= j < self@.len() && parent_index(j) != 0 implies #[trigger] value_le(
                    self@[j],
                    self@[parent_index(j)],
                ) by {
                    assert(0 < parent_index(j) < j);
                    assert(value_le(s0[j], s0[parent_index(j)]));
                }
                assert forall|x: T| s0.to_multiset().count(x) > 0 implies value_le(
                    x,
                    s0[0],
                ) by {
                    assert(s0.contains(x));
                    let w = choose|w: int| 0 <= w < s0.len() && s0[w] == x;
                    lemma_root_is_max(s0, w);
                }
            }
            self.bubble_down(0);
            Some(element)
        }
    }

    /// A read-only reference to the greatest element, or `None` when the
    /// heap is empty. Under the max-heap invariant this is the element the
    /// next `pop` would remove.
    pub fn peek(&self) -> (top: Option<&T>)
        ensures
            match top {
                Option::None => self@.len() == 0,
                Option::Some(element) => self@.len() > 0 && *element == self@[0],
            },
    {
        if self.data.len() == 0 {
            None
        } else {
            Some(&self.data[0])
        }
    }

    /// Begins a traversal of the stored elements in raw storage order
    /// (index 0, 1, 2, ...). That is heap-array order, not sorted order.
    /// The iterator borrows the heap read-only, so the heap cannot be
    /// mutated while the traversal is in use.
    pub fn iter<'a>(&'a self) -> (it: BinaryHeapIterator<'a, T>)
        ensures
            it.contents() == self@,
            it.position() == 0,
            it.in_bounds(),
    {
        BinaryHeapIterator { binary_heap: self, index: 0 }
    }
}

/// A lazy, restartable traversal of a heap's elements, yielding read-only
/// references in raw storage order — the heap-array order, which satisfies
/// the max-heap invariant but is not sorted order. A fresh traversal starts
/// at index 0.
pub struct BinaryHeapIterator<'a, T> {
    binary_heap: &'a BinaryHeap<T>,
    index: usize,
}

impl<'a, T> BinaryHeapIterator<'a, T> {
    /// The elements the traversal walks over: the heap's storage sequence.
    pub closed spec fn contents(&self) -> Seq<T> {
        self.binary_heap@
    }

    /// How many elements have been yielded so far.
    pub closed spec fn position(&self) -> int {
        self.index as int
    }

    /// The traversal never runs past the end of the storage.
    pub closed spec fn in_bounds(&self) -> bool {
        self.index <= self.binary_heap@.len()
    }

    /// The elements yielded so far, in order.
    pub open spec fn yielded(&self) -> Seq<T> {
        self.contents().take(self.position())
    }

    /// Yields a reference to the next element in storage order, or `None`
    /// once every stored element has been yielded, which is exactly after
    /// `contents().len()` yields.
    pub fn next(&mut self) -> (item: Option<&'a T>)
        requires
            old(self).in_bounds(),
        ensures
            final(self).in_bounds(),
            final(self).contents() == old(self).contents(),
            match item {
                Option::None => {
                    &&& old(self).position() == old(self).contents().len()
                    &&& final(self).position() == old(self).position()
                    &&& old(self).yielded() == old(self).contents()
                },
                Option::Some(element) => {
                    &&& old(self).position() < old(self).contents().len()
                    &&& *element == old(self).contents()[old(self).position()]
                    &&& final(self).position() == old(self).position() + 1
                    &&& final(self).yielded() == old(self).yielded().push(*element)
                },
            },
    {
        if self.index < self.binary_heap.data.len() {
            let element = &self.binary_heap.data[self.index];
            self.index = self.index + 1;
            proof {
                assert(self.contents().take(self.index as int) =~= self.contents().take(
                    self.index - 1,
                ).push(self.contents()[self.index - 1]));
            }
            Some(element)
        } else {
            proof {
                assert(self.contents().take(self.index as int) =~= self.contents());
            }
            None
        }
    }
}

} // verus!
