//! Operations on `u8`: arithmetic that reports overflow.
use vstd::prelude::*;

verus! {

/// Returns the sum of `x` and `y` as it wraps round in `u8`, and whether
/// the true sum is outside `u8`.
pub fn add_with_overflow(x: u8, y: u8) -> (r: (u8, bool))
    ensures
        r.1 == !(u8::MIN <= x + y <= u8::MAX),
        r.0 == x.wrapping_add(y),
        !r.1 ==> r.0 == x + y,
{
    match x.checked_add(y) {
        Some(v) => (v, false),
        None => (x.wrapping_add(y), true),
    }
}

/// Returns the difference of `x` and `y` as it wraps round in `u8`, and whether
/// the true difference is outside `u8`.
pub fn sub_with_overflow(x: u8, y: u8) -> (r: (u8, bool))
    ensures
        r.1 == !(u8::MIN <= x - y <= u8::MAX),
        r.0 == x.wrapping_sub(y),
        !r.1 ==> r.0 == x - y,
{
    match x.checked_sub(y) {
        Some(v) => (v, false),
        None => (x.wrapping_sub(y), true),
    }
}

/// Returns the product of `x` and `y` as it wraps round in `u8`, and whether
/// the true product is outside `u8`.
pub fn mul_with_overflow(x: u8, y: u8) -> (r: (u8, bool))
    ensures
        r.1 == !(u8::MIN <= x * y <= u8::MAX),
        r.0 == x.wrapping_mul(y),
        !r.1 ==> r.0 == x * y,
{
    match x.checked_mul(y) {
        Some(v) => (v, false),
        None => (x.wrapping_mul(y), true),
    }
}

} // verus!
