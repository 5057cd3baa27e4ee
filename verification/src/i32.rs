//! Operations on `i32`: arithmetic that reports overflow, and byte order.
use vstd::prelude::*;

verus! {

/// Returns the sum of `x` and `y` as it wraps round in `i32`, and whether
/// the true sum is outside `i32`.
pub fn add_with_overflow(x: i32, y: i32) -> (r: (i32, bool))
    ensures
        r.1 == !(i32::MIN <= x + y <= i32::MAX),
        r.0 == x.wrapping_add(y),
        !r.1 ==> r.0 == x + y,
{
    match x.checked_add(y) {
        Some(v) => (v, false),
        None => (x.wrapping_add(y), true),
    }
}

/// Returns the difference of `x` and `y` as it wraps round in `i32`, and whether
/// the true difference is outside `i32`.
pub fn sub_with_overflow(x: i32, y: i32) -> (r: (i32, bool))
    ensures
        r.1 == !(i32::MIN <= x - y <= i32::MAX),
        r.0 == x.wrapping_sub(y),
        !r.1 ==> r.0 == x - y,
{
    match x.checked_sub(y) {
        Some(v) => (v, false),
        None => (x.wrapping_sub(y), true),
    }
}

/// Returns the product of `x` and `y` as it wraps round in `i32`, and whether
/// the true product is outside `i32`.
pub fn mul_with_overflow(x: i32, y: i32) -> (r: (i32, bool))
    ensures
        r.1 == !(i32::MIN <= x * y <= i32::MAX),
        r.0 == x.wrapping_mul(y),
        !r.1 ==> r.0 == x * y,
{
    match x.checked_mul(y) {
        Some(v) => (v, false),
        None => (x.wrapping_mul(y), true),
    }
}

/// `x` with its bytes in the opposite order: the bytes are those of `x`
/// read as a `u32`.
pub open spec fn swapped(x: i32) -> i32 {
    crate::u32::swapped(x as u32) as i32
}

/// Returns `x` with its bytes in the opposite order.
pub fn bswap(x: i32) -> (r: i32)
    ensures
        r == swapped(x),
{
    #[verifier::truncate]
    (crate::u32::bswap(#[verifier::truncate] (x as u32)) as i32)
}

/// Returns `x` in big-endian byte order: `x` itself on a machine that
/// stores the high byte first, `x` with its bytes swapped on any other.
/// Which of the two this machine is, the machine tells; `to_be_on` says
/// what is returned on either.
pub fn to_be(x: i32) -> (r: i32)
    ensures
        r == x || r == swapped(x),
{
    to_be_on(x, crate::mem::is_little_endian())
}

/// Returns `x` in little-endian byte order: `x` itself on a machine that
/// stores the low byte first, `x` with its bytes swapped on any other.
/// Which of the two this machine is, the machine tells; `to_le_on` says
/// what is returned on either.
pub fn to_le(x: i32) -> (r: i32)
    ensures
        r == x || r == swapped(x),
{
    to_le_on(x, crate::mem::is_little_endian())
}

/// Returns `x` in big-endian byte order on a machine that stores the low
/// byte first where `little_endian` holds, and the high byte first where
/// it does not.
pub fn to_be_on(x: i32, little_endian: bool) -> (r: i32)
    ensures
        r == if little_endian {
            swapped(x)
        } else {
            x
        },
{
    if little_endian {
        bswap(x)
    } else {
        x
    }
}

/// Returns `x` in little-endian byte order on a machine that stores the
/// low byte first where `little_endian` holds, and the high byte first
/// where it does not.
pub fn to_le_on(x: i32, little_endian: bool) -> (r: i32)
    ensures
        r == if little_endian {
            x
        } else {
            swapped(x)
        },
{
    if little_endian {
        x
    } else {
        bswap(x)
    }
}

} // verus!
