//! The trait shared by every container: a count of elements.
use vstd::prelude::*;

verus! {

/// A collection that knows how many elements it holds.
pub trait Container {
    /// The number of elements, as a mathematical value.
    spec fn size(&self) -> nat;

    /// Returns the number of elements.
    fn len(&self) -> (n: usize)
        ensures
            n == self.size(),
    ;

    /// Returns `true` where the container holds no element.
    fn is_empty(&self) -> (b: bool)
        ensures
            b == (self.size() == 0),
    {
        self.len() == 0
    }
}

} // verus!
