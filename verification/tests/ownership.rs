use heapcell::copy_cell::CopyCell;
use heapcell::heap_box::HeapBox;
use heapcell::rc_heap::{RcHeap, RefCounted};

#[test]
fn heap_box_round_trip() {
    let b = HeapBox::allocate(41);
    assert_eq!(*b.get(), 41);
    assert_eq!(b.into_inner(), 41);

    let b = HeapBox::allocate(String::from("moved to the heap"));
    assert_eq!(b.into_inner(), "moved to the heap");
}

#[test]
fn heap_box_mutation() {
    let mut b = HeapBox::allocate(1);
    *b.get_mut() = 5;
    assert_eq!(*b.get(), 5);
    assert_eq!(b.into_inner(), 5);
}

#[test]
fn copy_cell_set_is_observable() {
    let mut cell = CopyCell::new(1);
    cell.set(100);
    assert_eq!(cell.get(), 100);
    assert_eq!(cell.replace(7), 100);
    assert_eq!(cell.get(), 7);
}

#[test]
fn clone_counts_up_and_down() {
    let mut heap: RcHeap<i32> = RcHeap::new();
    let h = RefCounted::new(&mut heap, 42);
    assert_eq!(h.strong_count(&heap), 1);

    let n = 3;
    let mut clones = Vec::new();
    for _ in 0..n {
        clones.push(h.clone(&mut heap));
    }
    assert_eq!(h.strong_count(&heap), n + 1);

    while let Some(c) = clones.pop() {
        assert_eq!(c.drop_strong(&mut heap), None);
    }
    assert_eq!(h.strong_count(&heap), 1);

    // Dropping the last handle frees the payload, observably.
    assert_eq!(h.drop_strong(&mut heap), Some(42));
}

#[test]
fn shared_payload_is_readable_through_every_handle() {
    let mut heap: RcHeap<String> = RcHeap::new();
    let h1 = RefCounted::new(&mut heap, String::from("shared"));
    let h2 = h1.clone(&mut heap);
    assert_eq!(h1.as_ref(&heap), "shared");
    assert_eq!(h2.as_ref(&heap), "shared");
    assert_eq!(h1.drop_strong(&mut heap), None);
    assert_eq!(h2.drop_strong(&mut heap), Some(String::from("shared")));
}

#[test]
fn downgrade_upgrade_while_strong_lives() {
    let mut heap: RcHeap<i32> = RcHeap::new();
    let h = RefCounted::new(&mut heap, 9);
    let w = h.downgrade(&mut heap);
    assert_eq!(h.weak_count(&heap), 1);
    assert_eq!(h.strong_count(&heap), 1);

    let up = w.upgrade(&mut heap).expect("strong handle still live");
    assert_eq!(h.strong_count(&heap), 2);
    assert_eq!(*up.as_ref(&heap), 9);

    assert_eq!(up.drop_strong(&mut heap), None);
    assert_eq!(h.drop_strong(&mut heap), Some(9));
    w.drop_weak(&mut heap);
}

#[test]
fn upgrade_fails_after_last_strong_drop() {
    let mut heap: RcHeap<i32> = RcHeap::new();
    let h = RefCounted::new(&mut heap, 5);
    let w = h.downgrade(&mut heap);
    assert_eq!(h.drop_strong(&mut heap), Some(5));

    // The block is a zombie: observable, but no strong handle comes back.
    assert_eq!(w.strong_count(&heap), 0);
    assert!(w.upgrade(&mut heap).is_none());
    w.drop_weak(&mut heap);
}
