//! Copies of values: the `Clone` and `DeepClone` traits and their
//! implementations for the primitive types.
use vstd::prelude::*;

verus! {

/// A value that can be copied. The copy is the same value.
pub trait Clone: Sized {
    /// Returns a copy of the value.
    fn clone(&self) -> (r: Self)
        ensures
            r == *self,
    ;

    /// Makes `self` a copy of `source`.
    fn clone_from(&mut self, source: &Self)
        ensures
            *final(self) == *source,
    {
        *self = source.clone()
    }
}

/// A value that can be copied together with everything that it owns or
/// shares. The copy is the same value.
pub trait DeepClone: Clone {
    /// Returns a deep copy of the value.
    fn deep_clone(&self) -> (r: Self)
        ensures
            r == *self,
    ;

    /// Makes `self` a deep copy of `source`.
    fn deep_clone_from(&mut self, source: &Self)
        ensures
            *final(self) == *source,
    {
        *self = source.deep_clone()
    }
}

impl<T: Clone> Clone for Box<T> {
    fn clone(&self) -> (r: Box<T>) {
        Box::new((**self).clone())
    }
}

impl<T: DeepClone> DeepClone for Box<T> {
    fn deep_clone(&self) -> (r: Box<T>) {
        Box::new((**self).deep_clone())
    }
}

impl<'a, T> Clone for &'a T {
    fn clone(&self) -> (r: &'a T) {
        *self
    }
}

impl<'a> Clone for &'a str {
    fn clone(&self) -> (r: &'a str) {
        *self
    }
}

impl Clone for isize {
    fn clone(&self) -> (r: isize) {
        *self
    }
}

impl DeepClone for isize {
    fn deep_clone(&self) -> (r: isize) {
        *self
    }
}

impl Clone for i8 {
    fn clone(&self) -> (r: i8) {
        *self
    }
}

impl DeepClone for i8 {
    fn deep_clone(&self) -> (r: i8) {
        *self
    }
}

impl Clone for i16 {
    fn clone(&self) -> (r: i16) {
        *self
    }
}

impl DeepClone for i16 {
    fn deep_clone(&self) -> (r: i16) {
        *self
    }
}

impl Clone for i32 {
    fn clone(&self) -> (r: i32) {
        *self
    }
}

impl DeepClone for i32 {
    fn deep_clone(&self) -> (r: i32) {
        *self
    }
}

impl Clone for i64 {
    fn clone(&self) -> (r: i64) {
        *self
    }
}

impl DeepClone for i64 {
    fn deep_clone(&self) -> (r: i64) {
        *self
    }
}

impl Clone for usize {
    fn clone(&self) -> (r: usize) {
        *self
    }
}

impl DeepClone for usize {
    fn deep_clone(&self) -> (r: usize) {
        *self
    }
}

impl Clone for u8 {
    fn clone(&self) -> (r: u8) {
        *self
    }
}

impl DeepClone for u8 {
    fn deep_clone(&self) -> (r: u8) {
        *self
    }
}

impl Clone for u16 {
    fn clone(&self) -> (r: u16) {
        *self
    }
}

impl DeepClone for u16 {
    fn deep_clone(&self) -> (r: u16) {
        *self
    }
}

impl Clone for u32 {
    fn clone(&self) -> (r: u32) {
        *self
    }
}

impl DeepClone for u32 {
    fn deep_clone(&self) -> (r: u32) {
        *self
    }
}

impl Clone for u64 {
    fn clone(&self) -> (r: u64) {
        *self
    }
}

impl DeepClone for u64 {
    fn deep_clone(&self) -> (r: u64) {
        *self
    }
}

impl Clone for () {
    fn clone(&self) -> (r: ()) {
        *self
    }
}

impl DeepClone for () {
    fn deep_clone(&self) -> (r: ()) {
        *self
    }
}

impl Clone for bool {
    fn clone(&self) -> (r: bool) {
        *self
    }
}

impl DeepClone for bool {
    fn deep_clone(&self) -> (r: bool) {
        *self
    }
}

impl Clone for char {
    fn clone(&self) -> (r: char) {
        *self
    }
}

impl DeepClone for char {
    fn deep_clone(&self) -> (r: char) {
        *self
    }
}

} // verus!
