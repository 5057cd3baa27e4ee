//! Operations on `i64`: arithmetic that reports overflow, and byte order.
use vstd::prelude::*;

verus! {

/// Returns the sum of `x` and `y` as it wraps round in `i64`, and whether
/// the true sum is outside `i64`.
pub fn add_with_overflow(x: i64, y: i64) -> (r: (i64, bool))
    ensures
        r.1 == !(i64::MIN <= x + y <= i64::MAX),
        r.0 == x.wrapping_add(y),
        !r.1 ==> r.0 == x + y,
{
    match x.checked_add(y) {
        Some(v) => (v, false),
        None => (x.wrapping_add(y), true),
    }
}

/// Returns the difference of `x` and `y` as it wraps round in `i64`, and whether
/// the true difference is outside `i64`.
pub fn sub_with_overflow(x: i64, y: i64) -> (r: (i64, bool))
    ensures
        r.1 == !(i64::MIN <= x - y <= i64::MAX),
        r.0 == x.wrapping_sub(y),
        !r.1 ==> r.0 == x - y,
{
    match x.checked_sub(y) {
        Some(v) => (v, false),
        None => (x.wrapping_sub(y), true),
    }
}

/// Returns the product of `x` and `y` as it wraps round in `i64`, and whether
/// the true product is outside `i64`.
pub fn mul_with_overflow(x: i64, y: i64) -> (r: (i64, bool))
    ensures
        r.1 == !(i64::MIN <= x * y <= i64::MAX),
        r.0 == x.wrapping_mul(y),
        !r.1 ==> r.0 == x * y,
{
    match x.checked_mul(y) {
        Some(v) => (v, false),
        None => (x.wrapping_mul(y), true),
    }
}

/// `x` with its bytes in the opposite order: the bytes are those of `x`
/// read as a `u64`.
pub open spec fn swapped(x: i64) -> i64 {
    crate::u64::swapped(x as u64) as i64
}

/// Returns `x` with its bytes in the opposite order.
pub fn bswap(x: i64) -> (r: i64)
    ensures
        r == swapped(x),
{
    #[verifier::truncate]
    (crate::u64::bswap(#[verifier::truncate] (x as u64)) as i64)
}

/// Returns `x` in big-endian byte order: `x` itself on a machine that
/// stores the high byte first, `x` with its bytes swapped on any other.
/// Which of the two this machine is, the machine tells; `to_be_on` says
/// what is returned on either.
pub fn to_be(x: i64) -> (r: i64)
    ensures
        r == x || r == swapped(x),
{
    to_be_on(x, crate::mem::is_little_endian())
}

/// Returns `x` in little-endian byte order: `x` itself on a machine that
/// stores the low byte first, `x` with its bytes swapped on any other.
/// Which of the two this machine is, the machine tells; `to_le_on` says
/// what is returned on either.
pub fn to_le(x: i64) -> (r: i64)
    ensures
        r == x || r == swapped(x),
{
    to_le_on(x, crate::mem::is_little_endian())
}

/// Returns `x` in big-endian byte order on a machine that stores the low
/// byte first where `little_endian` holds, and the high byte first where
/// it does not.
pub fn to_be_on(x: i64, little_endian: bool) -> (r: i64)
    ensures
        r == if little_endian {
            swapped(x)
        } else {
            x
        },
{
    if little_endian {
        bswap(x)
    } else {
        x
    }
}

/// Returns `x` in little-endian byte order on a machine that stores the
/// low byte first where `little_endian` holds, and the high byte first
/// where it does not.
pub fn to_le_on(x: i64, little_endian: bool) -> (r: i64)
    ensures
        r == if little_endian {
            x
        } else {
            swapped(x)
        },
{
    if little_endian {
        x
    } else {
        bswap(x)
    }
}

} // verus!
