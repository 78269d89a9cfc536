use dt::rc::RcHeap;

#[test]
fn handles_alias_one_value() {
    let mut heap = RcHeap::new();
    let a = heap.allocate(5);
    let b = heap.clone_handle(&a);
    assert_eq!(*heap.get(&a), 5);
    assert_eq!(*heap.get(&b), 5);
    // Dropping one handle leaves the other valid.
    heap.drop_handle(a);
    assert_eq!(*heap.get(&b), 5);
    assert_eq!(heap.live_blocks(), 1);
    // Dropping the last handle deallocates the one block, exactly once.
    heap.drop_handle(b);
    assert_eq!(heap.live_blocks(), 0);
}

#[test]
fn refcount_tracks_handles() {
    let mut heap = RcHeap::new();
    let a = heap.allocate(String::from("shared"));
    assert_eq!(heap.ref_count(&a), 1);
    let b = heap.clone_handle(&a);
    assert_eq!(heap.ref_count(&a), 2);
    let c = heap.clone_handle(&b);
    assert_eq!(heap.ref_count(&a), 3);
    heap.drop_handle(b);
    assert_eq!(heap.ref_count(&a), 2);
    heap.drop_handle(c);
    assert_eq!(heap.ref_count(&a), 1);
    assert_eq!(heap.get(&a).as_str(), "shared");
    heap.drop_handle(a);
    assert_eq!(heap.live_blocks(), 0);
}

#[test]
fn blocks_are_independent() {
    let mut heap = RcHeap::new();
    let a = heap.allocate(1);
    let b = heap.allocate(2);
    let a2 = heap.clone_handle(&a);
    assert_eq!(heap.live_blocks(), 2);
    assert_eq!(heap.ref_count(&b), 1);
    heap.drop_handle(b);
    // The other block survives with its count untouched.
    assert_eq!(heap.live_blocks(), 1);
    assert_eq!(heap.ref_count(&a), 2);
    assert_eq!(*heap.get(&a2), 1);
    heap.drop_handle(a);
    heap.drop_handle(a2);
    assert_eq!(heap.live_blocks(), 0);
}
