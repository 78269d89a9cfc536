use dt::refcell::RefCell;

#[test]
fn borrow_mut_returns_none_when_borrow_is_alive() {
    let mut cell = RefCell::new("test");
    let c1 = cell.borrow();
    let c2 = cell.borrow_mut();
    assert!(matches!(c1, Some(_)));
    assert!(matches!(c2, None));
}

#[test]
fn borrow_mut_points_to_valid_data() {
    let mut cell = RefCell::new("test");
    let c = cell.borrow_mut().unwrap();
    assert_eq!("test", *cell.get_mut(&c));
}

#[test]
fn borrow_mut_can_mutate_referenced_data() {
    let mut cell = RefCell::new("test");
    {
        let c = cell.borrow_mut().unwrap();
        assert_eq!("test", *cell.get_mut(&c));
        *cell.get_mut(&c) = "hello";
        cell.release_mut(c);
    }
    let c = cell.borrow().unwrap();
    assert_eq!("hello", *cell.read(&c));
}

#[test]
fn borrow_returns_none_when_borrow_mut_is_alive() {
    let mut cell = RefCell::new("test");
    let c1 = cell.borrow_mut();
    let c2 = cell.borrow();
    assert!(matches!(c1, Some(_)));
    assert!(matches!(c2, None));
}

#[test]
fn borrow_points_to_valid_data() {
    let mut cell = RefCell::new("test");
    let c = cell.borrow().unwrap();
    assert_eq!("test", *cell.read(&c));
}

#[test]
fn shared_borrows_coexist_and_exclude_writer() {
    let mut cell = RefCell::new(1);
    let g1 = cell.borrow().unwrap();
    let g2 = cell.borrow().unwrap();
    let g3 = cell.borrow().unwrap();
    // Three readers at once; a writer is refused while any is alive.
    assert!(matches!(cell.borrow_mut(), None));
    cell.release(g1);
    assert!(matches!(cell.borrow_mut(), None));
    cell.release(g2);
    assert!(matches!(cell.borrow_mut(), None));
    cell.release(g3);
    // Every reader gone: the writer is admitted again.
    let w = cell.borrow_mut();
    assert!(matches!(w, Some(_)));
    cell.release_mut(w.unwrap());
    // And after the writer leaves, readers come back.
    assert!(matches!(cell.borrow(), Some(_)));
}

#[test]
fn write_then_release_then_read_sees_written_value() {
    let mut cell = RefCell::new(0);
    let w = cell.borrow_mut().unwrap();
    *cell.get_mut(&w) = 42;
    cell.release_mut(w);
    let r = cell.borrow().unwrap();
    assert_eq!(42, *cell.read(&r));
    cell.release(r);
}
