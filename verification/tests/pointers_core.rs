use pointers::cell::Cell;
use pointers::rc::Rc;
use pointers::refcell::RefCell;

#[test]
fn cell_scenario_set_then_get() {
    let mut cell = Cell::new(5);
    cell.set(10);
    assert_eq!(cell.get(), 10);
}

#[test]
fn cell_round_trip_many_ops() {
    let mut cell = Cell::new(0);
    for value in [3, 1, 4, 1, 5] {
        cell.set(value);
        assert_eq!(cell.get(), value);
        assert_eq!(cell.get(), value);
    }
    cell.set(9);
    let _ = cell.get();
    let _ = cell.get();
    assert_eq!(cell.get(), 9);
}

#[test]
fn rc_scenario_clone_then_drop() {
    let (five, mut inner) = Rc::new(5);
    let five_clone = five.clone(&mut inner);
    assert_eq!(inner.strong_count(), 2);
    let inner = five.drop_handle(inner).expect("a handle is still live");
    assert_eq!(inner.strong_count(), 1);
    assert_eq!(*five_clone.deref(&inner), 5);
    assert!(five_clone.drop_handle(inner).is_none());
}

#[test]
fn rc_new_and_clone_deref_same_value() {
    let (first, mut inner) = Rc::new(7);
    assert_eq!(*first.deref(&inner), 7);
    let second = first.clone(&mut inner);
    assert_eq!(*first.deref(&inner), 7);
    assert_eq!(*second.deref(&inner), 7);
    let inner = second.drop_handle(inner).expect("first handle still live");
    let gone = first.drop_handle(inner);
    assert!(gone.is_none());
}

#[test]
fn refcell_scenario_exclusive_conflict() {
    let mut cell = RefCell::new(0);
    let guard = cell.borrow_mut().expect("fresh cell grants exclusive");
    assert!(cell.borrow_mut().is_none());
    guard.release(&mut cell);
    assert!(cell.borrow_mut().is_some());
}

#[test]
fn refcell_scenario_shared_then_exclusive() {
    let mut cell = RefCell::new("x");
    let first = cell.borrow().expect("shared borrow on fresh cell");
    let second = cell.borrow().expect("second shared borrow");
    assert_eq!(*first.deref(&cell), "x");
    assert_eq!(*second.deref(&cell), "x");
    assert!(cell.borrow_mut().is_none());
    first.release(&mut cell);
    assert!(cell.borrow_mut().is_none());
    second.release(&mut cell);
    assert!(cell.borrow_mut().is_some());
}

#[test]
fn refcell_shared_after_exclusive_fails() {
    let mut cell = RefCell::new(1);
    let guard = cell.borrow_mut().expect("fresh cell grants exclusive");
    assert!(cell.borrow().is_none());
    assert!(cell.borrow_mut().is_none());
    guard.release(&mut cell);
    let shared = cell.borrow().expect("free again after release");
    shared.release(&mut cell);
    assert!(cell.borrow_mut().is_some());
}

#[test]
fn refcell_write_through_exclusive_guard() {
    let mut cell = RefCell::new(0);
    let guard = cell.borrow_mut().expect("fresh cell grants exclusive");
    *guard.deref_mut(&mut cell) = 42;
    assert_eq!(*guard.deref(&cell), 42);
    guard.release(&mut cell);
    let shared = cell.borrow().expect("free after release");
    assert_eq!(*shared.deref(&cell), 42);
    shared.release(&mut cell);
}

#[test]
fn test_basic_rc() {
    let (five, mut inner) = Rc::new(5);

    assert_eq!(*five.deref(&inner), 5);
    assert_eq!(inner.strong_count(), 1);

    let five_clone = five.clone(&mut inner);
    assert_eq!(*five_clone.deref(&inner), 5);
    assert_eq!(inner.strong_count(), 2);
    assert_eq!(inner.strong_count(), 2);

    let inner = five.drop_handle(inner).expect("clone still live");
    assert_eq!(inner.strong_count(), 1);

    assert!(five_clone.drop_handle(inner).is_none());
    // The block is gone here: the type system no longer lets anyone touch it.
}
