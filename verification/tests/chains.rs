use heapcell::linked::{
    cons, end, find_from_tail, is_end, set_next, set_value, successor, take_values, value,
    LinkedNode,
};
use heapcell::rc_heap::{RcHeap, RefCounted};

/// A chain 1 -> 2 -> 3 -> End, returning the head handle.
fn chain_123(heap: &mut RcHeap<LinkedNode>) -> RefCounted {
    let e = end(heap);
    let n3 = cons(heap, 3, e);
    let n2 = cons(heap, 2, n3);
    cons(heap, 1, n2)
}

#[test]
fn observers_on_a_chain() {
    let mut heap = RcHeap::new();
    let head = chain_123(&mut heap);
    assert!(!is_end(&heap, &head));
    assert_eq!(value(&heap, &head), Some(1));
    let second = successor(&heap, &head).expect("head has a successor");
    assert_eq!(value(&heap, second), Some(2));
}

#[test]
fn value_and_successor_refused_on_end() {
    let mut heap = RcHeap::new();
    let e = end(&mut heap);
    assert!(is_end(&heap, &e));
    assert_eq!(value(&heap, &e), None);
    assert!(successor(&heap, &e).is_none());
}

#[test]
fn find_from_tail_second() {
    let mut heap = RcHeap::new();
    let head = chain_123(&mut heap);
    assert_eq!(find_from_tail(&heap, &head, 2), Some(2));
    assert_eq!(find_from_tail(&heap, &head, 1), Some(3));
    assert_eq!(find_from_tail(&heap, &head, 3), Some(1));
}

#[test]
fn find_from_tail_out_of_range() {
    let mut heap = RcHeap::new();
    let head = chain_123(&mut heap);
    assert_eq!(find_from_tail(&heap, &head, 5), None);
    assert_eq!(find_from_tail(&heap, &head, 4), None);
    assert_eq!(find_from_tail(&heap, &head, 0), None);
}

#[test]
fn take_values_is_bounded() {
    let mut heap = RcHeap::new();
    let head = chain_123(&mut heap);
    assert_eq!(take_values(&heap, &head, 10), vec![1, 2, 3]);
    assert_eq!(take_values(&heap, &head, 2), vec![1, 2]);
    assert_eq!(take_values(&heap, &head, 0), Vec::<i32>::new());
}

#[test]
fn mutation_through_shared_handle_is_observable() {
    let mut heap = RcHeap::new();
    let e = end(&mut heap);
    let node = cons(&mut heap, 1, e);
    let alias = node.clone(&mut heap);

    // `node` stays immutably bound; the cell-wrapped value changes anyway,
    // and the aliasing handle observes the new value.
    set_value(&mut heap, &node, 100);
    assert_eq!(value(&heap, &node), Some(100));
    assert_eq!(value(&heap, &alias), Some(100));
}

#[test]
fn cycle_leaks_and_repeats() {
    let mut heap = RcHeap::new();

    // A(1) -> B(2) -> C(3) -> End, keeping extra handles to A and C.
    let e = end(&mut heap);
    let c = cons(&mut heap, 3, e);
    let c_extra = c.clone(&mut heap);
    let b = cons(&mut heap, 2, c);
    let a = cons(&mut heap, 1, b);
    let a_extra = a.clone(&mut heap);
    let w = a.downgrade(&mut heap);

    // Rewire C's successor from End back to A, closing the cycle; the End
    // node's handle comes back and retiring it frees the End block.
    let old_end = set_next(&mut heap, &c_extra, a_extra);
    assert!(old_end.drop_strong(&mut heap).is_some());

    // Leave the building scope: retire every external strong handle.
    assert!(c_extra.drop_strong(&mut heap).is_none());
    assert!(a.drop_strong(&mut heap).is_none());

    // The leak: the cycle keeps every node alive, A included.
    assert!(w.strong_count(&heap) >= 1);

    // Traversal now repeats; it must be bounded, never exhaustive.
    let ha = w.upgrade(&mut heap).expect("cycle keeps A alive");
    assert_eq!(take_values(&heap, &ha, 6), vec![1, 2, 3, 1, 2, 3]);

    // Even after this last external handle goes, nothing reaches zero.
    assert!(ha.drop_strong(&mut heap).is_none());
    assert_eq!(w.strong_count(&heap), 1);
    w.drop_weak(&mut heap);

    // The four blocks (three nodes and the freed End) keep their slots.
    assert_eq!(heap.block_count(), 4);
}

#[test]
fn chains_share_a_suffix() {
    let mut heap = RcHeap::new();

    // Two chains 3 -> 2 -> 1 -> End and 4 -> 2 -> 1 -> End sharing their
    // suffix from node 2 down.
    let null = end(&mut heap);
    let null_edge = null.clone(&mut heap);
    let n1 = cons(&mut heap, 1, null_edge);
    let n1_edge = n1.clone(&mut heap);
    let n2 = cons(&mut heap, 2, n1_edge);
    let n2_edge_a = n2.clone(&mut heap);
    let n2_edge_b = n2.clone(&mut heap);
    let n3 = cons(&mut heap, 3, n2_edge_a);
    let n4 = cons(&mut heap, 4, n2_edge_b);

    // Each block counts its kept handle plus one per incoming edge.
    assert_eq!(null.strong_count(&heap), 2);
    assert_eq!(n1.strong_count(&heap), 2);
    assert_eq!(n2.strong_count(&heap), 3);
    assert_eq!(n3.strong_count(&heap), 1);
    assert_eq!(n4.strong_count(&heap), 1);

    assert_eq!(value(&heap, &n1), Some(1));
    assert_eq!(take_values(&heap, &n3, 10), vec![3, 2, 1]);
    assert_eq!(take_values(&heap, &n4, 10), vec![4, 2, 1]);
}

#[test]
fn self_cycle_repeats() {
    let mut heap = RcHeap::new();
    let e = end(&mut heap);
    let n = cons(&mut heap, 1, e);
    set_value(&mut heap, &n, 11);

    // Point the node's successor back at itself; the displaced End handle
    // comes back and retiring it frees the End block.
    let self_edge = n.clone(&mut heap);
    let old_end = set_next(&mut heap, &n, self_edge);
    assert!(old_end.drop_strong(&mut heap).is_some());

    // The kept handle plus the self edge.
    assert_eq!(n.strong_count(&heap), 2);
    assert_eq!(take_values(&heap, &n, 3), vec![11, 11, 11]);
}

#[test]
fn rewire_to_a_fresh_chain() {
    let mut heap = RcHeap::new();

    // 1 -> End, then a fresh chain 99 -> End.
    let e = end(&mut heap);
    let t = cons(&mut heap, 1, e);
    let e2 = end(&mut heap);
    let fresh = cons(&mut heap, 99, e2);

    // Rewrite the value and swing the successor over to the fresh chain.
    set_value(&mut heap, &t, 100);
    let old_end = set_next(&mut heap, &t, fresh);
    assert!(old_end.drop_strong(&mut heap).is_some());

    assert_eq!(take_values(&heap, &t, 10), vec![100, 99]);
}

#[test]
fn acyclic_chain_fully_freed_by_cascade() {
    let mut heap = RcHeap::new();
    let head = chain_123(&mut heap);

    // Retiring the head handle frees node 1, handing back its payload;
    // the successor handle inside it cascades the drops down the chain.
    let mut next = Some(head);
    let mut freed = 0;
    while let Some(h) = next.take() {
        if let Some(LinkedNode::Cell { next: tail, .. }) = h.drop_strong(&mut heap) {
            next = Some(tail);
            freed += 1;
        }
    }
    assert_eq!(freed, 3);
}
