//! Shared ownership of a value within one thread, with a count of the handles.
use vstd::prelude::*;

verus! {

/// A handle to a shared value. The value lives as long as one of its
/// handles. The view of a handle is the value.
pub struct Rc<T> {
    ptr: std::rc::Rc<T>,
}

impl<T> Rc<T> {
    /// The shared value.
    pub closed spec fn view(&self) -> T {
        *self.ptr
    }

    /// Moves `value` into shared storage and returns the first handle to it.
    pub fn new(value: T) -> (r: Rc<T>)
        ensures
            r@ == value,
    {
        Rc { ptr: std::rc::Rc::new(value) }
    }

    /// Returns a reference to the shared value.
    pub fn borrow(&self) -> (r: &T)
        ensures
            *r == self@,
    {
        &*self.ptr
    }
}

impl<T> crate::clone::Clone for Rc<T> {
    /// Returns one more handle to the same value.
    fn clone(&self) -> (r: Rc<T>) {
        Rc { ptr: share(&self.ptr) }
    }
}

impl<T: crate::order::Eq> crate::order::Eq for Rc<T> {
    /// Two handles are equal where their values are.
    fn eq(&self, other: &Rc<T>) -> (r: bool) {
        self.borrow().eq(other.borrow())
    }

    fn ne(&self, other: &Rc<T>) -> (r: bool) {
        self.borrow().ne(other.borrow())
    }
}

impl<T: crate::order::Ord> crate::order::Ord for Rc<T> {
    /// The handles are ordered as their values are.
    open spec fn before(&self, other: &Rc<T>) -> bool {
        self@.before(&other@)
    }

    proof fn lemma_irreflexive(a: Rc<T>) {
        T::lemma_irreflexive(a@);
    }

    proof fn lemma_transitive(a: Rc<T>, b: Rc<T>, c: Rc<T>) {
        T::lemma_transitive(a@, b@, c@);
    }

    proof fn lemma_total(a: Rc<T>, b: Rc<T>) {
        T::lemma_total(a@, b@);
    }

    fn lt(&self, other: &Rc<T>) -> (r: bool) {
        self.borrow().lt(other.borrow())
    }

    fn le(&self, other: &Rc<T>) -> (r: bool) {
        self.borrow().le(other.borrow())
    }

    fn gt(&self, other: &Rc<T>) -> (r: bool) {
        self.borrow().gt(other.borrow())
    }

    fn ge(&self, other: &Rc<T>) -> (r: bool) {
        self.borrow().ge(other.borrow())
    }
}

/// `Rc::clone` of std: one more pointer to the same allocation, which
/// therefore points to the same value.
#[verifier::external_body]
fn share<T>(ptr: &std::rc::Rc<T>) -> (r: std::rc::Rc<T>)
    ensures
        r == *ptr,
{
    std::rc::Rc::clone(ptr)
}

} // verus!
