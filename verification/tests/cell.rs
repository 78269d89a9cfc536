use dt::cell::Cell;

#[test]
fn cell_it_works() {
    Cell::new(0);
}

#[test]
fn cell_set_get_round_trip() {
    let mut cell = Cell::new(0);
    cell.set(10);
    assert_eq!(cell.get(), 10);
    cell.set(-3);
    assert_eq!(cell.get(), -3);
}

#[test]
fn cell_get_copies_value() {
    let cell = Cell::new(7u64);
    let a = cell.get();
    let b = cell.get();
    assert_eq!(a, 7);
    assert_eq!(b, 7);
}
