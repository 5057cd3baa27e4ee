use rust_core::cell::{Cell, RefCell};

#[test]
fn a_cell_holds_what_was_set_last() {
    let cell = Cell::new(3u8);
    let a = &cell;
    let b = &cell;
    assert_eq!(a.get(), 3);
    b.set(9);
    assert_eq!(a.get(), 9);
    let other = cell.clone();
    other.set(1);
    assert_eq!(cell.get(), 9);
    assert_eq!(other.get(), 1);
}

#[test]
fn a_ref_cell_lends_to_many_readers_or_one_writer() {
    let cell = RefCell::new(3u32);
    {
        let a = cell.try_borrow().unwrap();
        let b = cell.try_borrow().unwrap();
        assert_eq!(*a.get(), 3);
        assert_eq!(*b.get(), 3);
        assert!(cell.try_borrow_mut().is_none());
    }
    {
        let mut w = cell.try_borrow_mut().unwrap();
        assert_eq!(*w.get(), 3);
        *w.get() = 5;
        assert_eq!(*w.get(), 5);
        assert!(cell.try_borrow().is_none());
        assert!(cell.try_borrow_mut().is_none());
    }
    assert_eq!(*cell.try_borrow().unwrap().get(), 5);
    assert_eq!(cell.unwrap(), 5);
}
