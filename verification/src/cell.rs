//! Places for values that change behind a shared reference.
//!
//! A `Cell` holds a value that is copied in and out. A `RefCell` lends its
//! value out, to many readers or to one writer at a time, and counts the
//! borrows while the program runs.
use vstd::prelude::*;
use vstd::cell::invcell::InvCell;
use vstd::predicate::Predicate;

verus! {

/// What a `Cell` may hold: any value of its type.
pub struct AnyValue {}

impl<T> Predicate<T> for AnyValue {
    open spec fn predicate(&self, value: T) -> bool {
        true
    }
}

/// A place for a value that is copied in and out, also through a shared
/// reference. Whoever has a reference may have changed the value, so
/// nothing is known of the value that `get` returns.
pub struct Cell<T> {
    value: InvCell<T, AnyValue>,
}

impl<T: Copy> Cell<T> {
    /// Returns a cell that holds `value`.
    pub fn new(value: T) -> (r: Cell<T>) {
        Cell { value: InvCell::new(value, Ghost(AnyValue {  })) }
    }

    /// Returns a copy of the value in the cell.
    pub fn get(&self) -> (r: T) {
        self.value.get()
    }

    /// Puts `value` in the place of the value in the cell.
    pub fn set(&self, value: T) {
        self.value.set(value)
    }

    /// Returns another cell, which starts with a copy of the value in this
    /// one. The two cells change apart from then on.
    pub fn clone(&self) -> (r: Cell<T>) {
        Cell::new(self.get())
    }
}

/// `RefCell` of std, as a type whose inside is not looked into.
#[verifier::external_type_specification]
#[verifier::external_body]
#[verifier::reject_recursive_types(T)]
pub struct ExRefCell<T: ?Sized>(std::cell::RefCell<T>);

/// `Ref` of std, as a type whose inside is not looked into.
#[verifier::external_type_specification]
#[verifier::external_body]
#[verifier::reject_recursive_types(T)]
pub struct ExRef<'b, T: ?Sized>(std::cell::Ref<'b, T>);

/// `RefMut` of std, as a type whose inside is not looked into.
#[verifier::external_type_specification]
#[verifier::external_body]
#[verifier::reject_recursive_types(T)]
pub struct ExRefMut<'b, T: ?Sized + 'b>(std::cell::RefMut<'b, T>);

/// A place for a value whose borrows are counted while the program runs:
/// any number of borrows for reading, or one for writing.
#[verifier::reject_recursive_types(T)]
pub struct RefCell<T> {
    value: std::cell::RefCell<T>,
}

/// A borrow of the value of a `RefCell` for reading. Its view is the value
/// of the cell, which stays as it is for as long as the borrow lasts.
#[verifier::reject_recursive_types(T)]
pub struct Ref<'b, T> {
    parent: std::cell::Ref<'b, T>,
    value: Ghost<T>,
}

/// A borrow of the value of a `RefCell` for writing. Its view is the value
/// of the cell, which nothing but this borrow changes for as long as it
/// lasts.
#[verifier::reject_recursive_types(T)]
pub struct RefMut<'b, T> {
    parent: std::cell::RefMut<'b, T>,
    value: Ghost<T>,
}

impl<T> RefCell<T> {
    /// Returns a cell that holds `value`, with no borrow of it.
    pub fn new(value: T) -> (r: RefCell<T>) {
        RefCell { value: new_ref_cell(value) }
    }

    /// Takes the cell apart and returns the value.
    pub fn unwrap(self) -> (r: T) {
        value_of_ref_cell(self.value)
    }

    /// Borrows the value for reading; `None` while it is borrowed for
    /// writing.
    pub fn try_borrow<'a>(&'a self) -> (r: Option<Ref<'a, T>>) {
        borrow_for_reading(&self.value)
    }

    /// Borrows the value for writing; `None` while it is borrowed.
    pub fn try_borrow_mut<'a>(&'a self) -> (r: Option<RefMut<'a, T>>) {
        borrow_for_writing(&self.value)
    }
}

/// `RefCell::new` of std.
#[verifier::external_body]
fn new_ref_cell<T>(value: T) -> (r: std::cell::RefCell<T>) {
    std::cell::RefCell::new(value)
}

/// `RefCell::into_inner` of std: the value of the cell. Nothing is known
/// of it: whoever had a reference to the cell may have changed it.
#[verifier::external_body]
fn value_of_ref_cell<T>(cell: std::cell::RefCell<T>) -> (r: T) {
    cell.into_inner()
}

/// `RefCell::try_borrow` of std: a borrow for reading, or `None` where std
/// refuses it. Which value the borrow shows is left open.
#[verifier::external_body]
fn borrow_for_reading<'a, T>(cell: &'a std::cell::RefCell<T>) -> (r: Option<Ref<'a, T>>) {
    match cell.try_borrow() {
        Ok(parent) => Some(Ref { parent, value: Ghost(arbitrary()) }),
        Err(_) => None,
    }
}

/// `RefCell::try_borrow_mut` of std: a borrow for writing, or `None` where
/// std refuses it. Which value the borrow finds is left open.
#[verifier::external_body]
fn borrow_for_writing<'a, T>(cell: &'a std::cell::RefCell<T>) -> (r: Option<RefMut<'a, T>>) {
    match cell.try_borrow_mut() {
        Ok(parent) => Some(RefMut { parent, value: Ghost(arbitrary()) }),
        Err(_) => None,
    }
}

impl<'b, T> Ref<'b, T> {
    /// The value that the borrow shows.
    pub closed spec fn view(&self) -> T {
        self.value@
    }

    /// The `Deref` of std's `Ref`: the value of the cell. It is the same
    /// at every call: std lends the value to no writer while a borrow for
    /// reading lasts.
    #[verifier::external_body]
    pub fn get<'a>(&'a self) -> (r: &'a T)
        ensures
            *r == self@,
    {
        &*self.parent
    }
}

impl<'b, T> RefMut<'b, T> {
    /// The value that the borrow holds.
    pub closed spec fn view(&self) -> T {
        self.value@
    }

    /// The `DerefMut` of std's `RefMut`: the value of the cell, open to
    /// change. It is the value that the borrow held, and the borrow holds
    /// then what was made of it: std lends the value to nobody else while a
    /// borrow for writing lasts.
    #[verifier::external_body]
    pub fn get<'a>(&'a mut self) -> (r: &'a mut T)
        ensures
            *r == old(self)@,
            final(self)@ == *final(r),
    {
        &mut *self.parent
    }
}

} // verus!
