//! Shared ownership of a value across threads, with an atomic count of the
//! handles.
use vstd::prelude::*;

verus! {

/// A handle to a shared value. The value lives as long as one of its
/// handles. The view of a handle is the value.
pub struct Arc<T> {
    ptr: std::sync::Arc<T>,
}

impl<T> Arc<T> {
    /// The shared value.
    pub closed spec fn view(&self) -> T {
        *self.ptr
    }

    /// Moves `value` into shared storage and returns the first handle to it.
    pub fn new(value: T) -> (r: Arc<T>)
        ensures
            r@ == value,
    {
        Arc { ptr: std::sync::Arc::new(value) }
    }

    /// Returns a reference to the shared value.
    pub fn borrow(&self) -> (r: &T)
        ensures
            *r == self@,
    {
        &*self.ptr
    }

    /// Returns the handle as std has it, for what is built on std's: a weak
    /// handle, which does not keep the value alive, is made from it.
    pub fn as_std(&self) -> (r: &std::sync::Arc<T>)
        ensures
            **r == self@,
    {
        &self.ptr
    }

    /// Returns the handle that std's handle `ptr` stands for.
    pub fn from_std(ptr: std::sync::Arc<T>) -> (r: Arc<T>)
        ensures
            r@ == *ptr,
    {
        Arc { ptr }
    }
}

impl<T> crate::clone::Clone for Arc<T> {
    /// Returns one more handle to the same value.
    fn clone(&self) -> (r: Arc<T>) {
        Arc { ptr: share(&self.ptr) }
    }
}

impl<T: crate::clone::DeepClone> crate::clone::DeepClone for Arc<T> {
    /// Returns the first handle to a deep copy of the value.
    fn deep_clone(&self) -> (r: Arc<T>) {
        Arc::new(self.borrow().deep_clone())
    }
}

/// `Arc::clone` of std: one more pointer to the same allocation, which
/// therefore points to the same value.
#[verifier::external_body]
fn share<T>(ptr: &std::sync::Arc<T>) -> (r: std::sync::Arc<T>)
    ensures
        r == *ptr,
{
    std::sync::Arc::clone(ptr)
}

} // verus!
