use heapcell::ref_cell::{BorrowState, RefCell};

#[test]
fn shared_borrows_coexist() {
    let mut cell = RefCell::new(5);
    let g1 = cell.borrow().expect("first shared borrow");
    let g2 = cell.borrow().expect("second shared borrow while one is live");
    assert_eq!(*cell.read(&g1), 5);
    assert_eq!(*cell.read(&g2), 5);
    cell.release(g1);
    cell.release(g2);
    assert!(matches!(cell.current_state(), BorrowState::Unborrowed));
}

#[test]
fn exclusive_borrow_excluded_while_shared_lives() {
    let mut cell = RefCell::new(5);
    let g = cell.borrow().expect("shared borrow");
    assert!(cell.borrow_mut().is_none());
    cell.release(g);
    let gm = cell.borrow_mut().expect("exclusive borrow after release");
    cell.release_mut(gm);
}

#[test]
fn second_exclusive_borrow_refused() {
    let mut cell = RefCell::new(String::from("x"));
    let gm = cell.borrow_mut().expect("exclusive borrow");
    assert!(cell.borrow_mut().is_none());
    assert!(cell.borrow().is_none());
    cell.release_mut(gm);
    // After every borrow is released, an exclusive borrow succeeds again.
    let gm = cell.borrow_mut().expect("cell is unborrowed again");
    cell.release_mut(gm);
}

#[test]
fn write_through_exclusive_borrow() {
    let mut cell = RefCell::new(5);
    let gm = cell.borrow_mut().expect("exclusive borrow");
    cell.write(&gm, 50);
    assert_eq!(*cell.read_mut(&gm), 50);
    cell.release_mut(gm);
    let g = cell.borrow().expect("shared borrow");
    assert_eq!(*cell.read(&g), 50);
    cell.release(g);
}
