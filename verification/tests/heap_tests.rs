use binary_heap::BinaryHeap;

#[test]
fn doc_examples() {
    // Type inference lets us omit an explicit type signature (which
    // would be `BinaryHeap<i32>` in this example).
    let mut heap = BinaryHeap::new();

    // We can use peek to look at the next item in the heap. In this case,
    // there's no items in there yet so we get None.
    assert_eq!(heap.peek(), None);

    // Let's add some scores...
    heap.push(1);
    heap.push(5);
    heap.push(2);

    // Now peek shows the most important item in the heap.
    assert_eq!(heap.peek(), Some(&5));

    // We can check the length of a heap.
    assert_eq!(heap.len(), 3);

    // We can iterate over the items in the heap, although they are returned in
    // a random order.
    let mut it = heap.iter();
    while let Some(x) = it.next() {
        println!("{}", x);
    }

    // If we instead pop these scores, they should come back in order.
    assert_eq!(heap.pop(), Some(5));
    assert_eq!(heap.pop(), Some(2));
    assert_eq!(heap.pop(), Some(1));
    assert_eq!(heap.pop(), None);

    // We can clear the heap of any remaining items.
    heap.clear();

    // The heap should now be empty.
    assert!(heap.is_empty())
}

#[test]
fn max_extraction_order() {
    let mut heap = BinaryHeap::new();
    for value in [3, 1, 4, 1, 5, 9, 2, 6] {
        heap.push(value);
    }
    assert_eq!(heap.pop(), Some(9));
    assert_eq!(heap.pop(), Some(6));
    assert_eq!(heap.pop(), Some(5));
    assert_eq!(heap.pop(), Some(4));
    assert_eq!(heap.pop(), Some(3));
    assert_eq!(heap.pop(), Some(2));
    assert_eq!(heap.pop(), Some(1));
    assert_eq!(heap.pop(), Some(1));
    assert_eq!(heap.pop(), None);
}

#[test]
fn size_accounting() {
    let mut heap = BinaryHeap::new();
    assert_eq!(heap.len(), 0);
    assert!(heap.is_empty());
    for (count, value) in [10, 30, 20, 30].into_iter().enumerate() {
        heap.push(value);
        assert_eq!(heap.len(), count + 1);
        assert!(!heap.is_empty());
    }
    assert_eq!(heap.pop(), Some(30));
    assert_eq!(heap.len(), 3);
    assert_eq!(heap.pop(), Some(30));
    assert_eq!(heap.len(), 2);
    heap.clear();
    assert_eq!(heap.len(), 0);
    assert!(heap.is_empty());
    heap.clear();
    assert_eq!(heap.len(), 0);
}

#[test]
fn peek_pop_agreement() {
    let mut heap = BinaryHeap::new();
    for value in [7i64, -2, 9, 9, 0, 3] {
        heap.push(value);
    }
    while !heap.is_empty() {
        let seen = *heap.peek().expect("non-empty heap must peek a value");
        let len_after_peek = heap.len();
        let removed = heap.pop().expect("non-empty heap must pop a value");
        assert_eq!(seen, removed);
        assert_eq!(heap.len(), len_after_peek - 1);
    }
    assert_eq!(heap.peek(), None);
}

#[test]
fn empty_container_behavior() {
    let mut heap: BinaryHeap<u8> = BinaryHeap::new();
    assert_eq!(heap.peek(), None);
    assert_eq!(heap.pop(), None);
    assert_eq!(heap.len(), 0);
    assert!(heap.is_empty());
    let mut hinted: BinaryHeap<u8> = BinaryHeap::with_capacity(8);
    assert_eq!(hinted.peek(), None);
    assert_eq!(hinted.pop(), None);
    assert_eq!(hinted.len(), 0);
}

#[test]
fn iteration_completeness() {
    let pushed = [12, 4, 4, 25, 0, 17, 8];
    let mut heap = BinaryHeap::new();
    for value in pushed {
        heap.push(value);
    }
    assert_eq!(heap.pop(), Some(25));

    let mut yielded = Vec::new();
    let mut it = heap.iter();
    while let Some(x) = it.next() {
        yielded.push(*x);
    }
    assert_eq!(yielded.len(), 6);

    let mut remaining = vec![12, 4, 4, 0, 17, 8];
    remaining.sort();
    yielded.sort();
    assert_eq!(yielded, remaining);
}

#[test]
fn iteration_restarts_and_keeps_storage_order() {
    let mut heap = BinaryHeap::new();
    for value in [2, 9, 5, 1] {
        heap.push(value);
    }
    let mut first_pass = Vec::new();
    let mut it = heap.iter();
    while let Some(x) = it.next() {
        first_pass.push(*x);
    }
    // The root comes first; the rest is storage order, not sorted order.
    assert_eq!(first_pass[0], 9);

    let mut second_pass = Vec::new();
    let mut again = heap.iter();
    while let Some(x) = again.next() {
        second_pass.push(*x);
    }
    assert_eq!(first_pass, second_pass);

    // An exhausted iterator keeps signalling absence.
    assert_eq!(it.next(), None);
    assert_eq!(it.next(), None);
}

#[test]
fn capacity_hint_neutrality() {
    let operations = [5, 1, 8, 1, 9, 4];
    let mut plain = BinaryHeap::new();
    let mut hinted = BinaryHeap::with_capacity(64);
    let mut zero_hinted = BinaryHeap::with_capacity(0);
    for value in operations {
        plain.push(value);
        hinted.push(value);
        zero_hinted.push(value);
        assert_eq!(plain.peek(), hinted.peek());
        assert_eq!(plain.peek(), zero_hinted.peek());
        assert_eq!(plain.len(), hinted.len());
        assert_eq!(plain.len(), zero_hinted.len());
    }
    loop {
        let a = plain.pop();
        let b = hinted.pop();
        let c = zero_hinted.pop();
        assert_eq!(a, b);
        assert_eq!(a, c);
        if a.is_none() {
            break;
        }
    }
}

#[test]
fn invariant_observed_through_interleaved_operations() {
    let mut heap = BinaryHeap::new();
    for value in [6, 3, 8] {
        heap.push(value);
    }
    assert_eq!(heap.pop(), Some(8));
    for value in [10, 2, 10, 7] {
        heap.push(value);
    }
    assert_eq!(heap.pop(), Some(10));
    heap.push(1);

    // Whatever was interleaved, extraction is non-increasing.
    let mut drained = Vec::new();
    while let Some(value) = heap.pop() {
        drained.push(value);
    }
    assert_eq!(drained, vec![10, 7, 6, 3, 2, 1]);
}

#[test]
fn equal_elements() {
    let mut heap = BinaryHeap::new();
    for _ in 0..5 {
        heap.push(42u32);
    }
    assert_eq!(heap.len(), 5);
    for _ in 0..5 {
        assert_eq!(heap.pop(), Some(42));
    }
    assert_eq!(heap.pop(), None);
}
