//! Moving values about, and what the machine's memory looks like.
use vstd::prelude::*;

verus! {

/// Returns the number of bytes that a value of `T` takes.
pub fn size_of<T>() -> (n: usize)
    ensures
        n == vstd::layout::size_of::<T>(),
{
    core::mem::size_of::<T>()
}

/// Returns the number of bytes that the value takes.
pub fn size_of_val<T>(_value: &T) -> (n: usize)
    ensures
        n == vstd::layout::size_of::<T>(),
{
    size_of::<T>()
}

/// Returns the smaller of the size of `T` and one byte: nothing for a type
/// without size, one for any other.
pub fn nonzero_size_of<T>() -> (n: usize)
    ensures
        n == if vstd::layout::size_of::<T>() == 0 { 0usize } else { 1usize },
{
    crate::order::min(size_of::<T>(), 1)
}

/// Returns the smaller of the size of the value and one byte.
pub fn nonzero_size_of_val<T>(_value: &T) -> (n: usize)
    ensures
        n == if vstd::layout::size_of::<T>() == 0 { 0usize } else { 1usize },
{
    nonzero_size_of::<T>()
}

/// Returns the alignment that a value of `T` must have.
pub fn min_align_of<T>() -> (n: usize)
    ensures
        n == vstd::layout::align_of::<T>(),
{
    core::mem::align_of::<T>()
}

/// Returns the alignment that the value must have.
pub fn min_align_of_val<T>(_value: &T) -> (n: usize)
    ensures
        n == vstd::layout::align_of::<T>(),
{
    min_align_of::<T>()
}

/// Returns the alignment that is preferred for a value of `T`: the one that
/// such a value must have.
pub fn pref_align_of<T>() -> (n: usize)
    ensures
        n == vstd::layout::align_of::<T>(),
{
    min_align_of::<T>()
}

/// Returns the alignment that is preferred for the value.
pub fn pref_align_of_val<T>(_value: &T) -> (n: usize)
    ensures
        n == vstd::layout::align_of::<T>(),
{
    pref_align_of::<T>()
}

/// Exchanges the values of `x` and `y`.
pub fn swap<T>(x: &mut T, y: &mut T)
    ensures
        *final(x) == *old(y),
        *final(y) == *old(x),
{
    core::mem::swap(x, y)
}

/// Puts `src` in the place of `dest` and returns what was there.
pub fn replace<T>(dest: &mut T, src: T) -> (r: T)
    ensures
        *final(dest) == src,
        r == *old(dest),
{
    let mut src = src;
    swap(dest, &mut src);
    src
}

/// Returns `true` on a machine that stores the low byte of a number
/// first. The machine tells, by the bytes of the number 1 as it stores
/// them; `low_byte_first` says what is returned for either.
pub fn is_little_endian() -> (b: bool) {
    let bytes_of_one = native_bytes_of_one();
    low_byte_first(&bytes_of_one)
}

/// Tells from the two bytes of the number 1, as a machine stores them,
/// whether the machine stores the low byte of a number first.
pub fn low_byte_first(bytes_of_one: &[u8; 2]) -> (b: bool)
    ensures
        b == (bytes_of_one@[0] == 1),
{
    bytes_of_one[0] == 1
}

/// `u16::to_ne_bytes` of std, for the number 1: its two bytes as the machine
/// stores them, which is low byte first or high byte first.
#[verifier::external_body]
fn native_bytes_of_one() -> (r: [u8; 2])
    ensures
        (r@[0] == 1 && r@[1] == 0) || (r@[0] == 0 && r@[1] == 1),
{
    1u16.to_ne_bytes()
}

} // verus!
