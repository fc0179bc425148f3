//! An array-backed binary max-heap.
//!
//! [`BinaryHeap`] stores elements of any totally-ordered type in a flat,
//! growable buffer that encodes a complete binary tree by index arithmetic.
//! Every public operation carries a contract over the heap's abstract state
//! (the sequence of stored elements), and the max-heap invariant is proved
//! to hold after every mutating operation.

pub mod heap;
pub mod laws;
pub mod order;

pub use heap::BinaryHeap;
pub use heap::BinaryHeapIterator;
