//! Operations on `i16`: arithmetic that reports overflow, and byte order.
use vstd::prelude::*;

verus! {

/// Returns the sum of `x` and `y` as it wraps round in `i16`, and whether
/// the true sum is outside `i16`.
pub fn add_with_overflow(x: i16, y: i16) -> (r: (i16, bool))
    ensures
        r.1 == !(i16::MIN <= x + y <= i16::MAX),
        r.0 == x.wrapping_add(y),
        !r.1 ==> r.0 == x + y,
{
    match x.checked_add(y) {
        Some(v) => (v, false),
        None => (x.wrapping_add(y), true),
    }
}

/// Returns the difference of `x` and `y` as it wraps round in `i16`, and whether
/// the true difference is outside `i16`.
pub fn sub_with_overflow(x: i16, y: i16) -> (r: (i16, bool))
    ensures
        r.1 == !(i16::MIN <= x - y <= i16::MAX),
        r.0 == x.wrapping_sub(y),
        !r.1 ==> r.0 == x - y,
{
    match x.checked_sub(y) {
        Some(v) => (v, false),
        None => (x.wrapping_sub(y), true),
    }
}

/// Returns the product of `x` and `y` as it wraps round in `i16`, and whether
/// the true product is outside `i16`.
pub fn mul_with_overflow(x: i16, y: i16) -> (r: (i16, bool))
    ensures
        r.1 == !(i16::MIN <= x * y <= i16::MAX),
        r.0 == x.wrapping_mul(y),
        !r.1 ==> r.0 == x * y,
{
    match x.checked_mul(y) {
        Some(v) => (v, false),
        None => (x.wrapping_mul(y), true),
    }
}

/// `x` with its bytes in the opposite order: the bytes are those of `x`
/// read as a `u16`.
pub open spec fn swapped(x: i16) -> i16 {
    crate::u16::swapped(x as u16) as i16
}

/// Returns `x` with its bytes in the opposite order.
pub fn bswap(x: i16) -> (r: i16)
    ensures
        r == swapped(x),
{
    #[verifier::truncate]
    (crate::u16::bswap(#[verifier::truncate] (x as u16)) as i16)
}

/// Returns `x` in big-endian byte order: `x` itself on a machine that
/// stores the high byte first, `x` with its bytes swapped on any other.
/// Which of the two this machine is, the machine tells; `to_be_on` says
/// what is returned on either.
pub fn to_be(x: i16) -> (r: i16)
    ensures
        r == x || r == swapped(x),
{
    to_be_on(x, crate::mem::is_little_endian())
}

/// Returns `x` in little-endian byte order: `x` itself on a machine that
/// stores the low byte first, `x` with its bytes swapped on any other.
/// Which of the two this machine is, the machine tells; `to_le_on` says
/// what is returned on either.
pub fn to_le(x: i16) -> (r: i16)
    ensures
        r == x || r == swapped(x),
{
    to_le_on(x, crate::mem::is_little_endian())
}

/// Returns `x` in big-endian byte order on a machine that stores the low
/// byte first where `little_endian` holds, and the high byte first where
/// it does not.
pub fn to_be_on(x: i16, little_endian: bool) -> (r: i16)
    ensures
        r == if little_endian {
            swapped(x)
        } else {
            x
        },
{
    if little_endian {
        bswap(x)
    } else {
        x
    }
}

/// Returns `x` in little-endian byte order on a machine that stores the
/// low byte first where `little_endian` holds, and the high byte first
/// where it does not.
pub fn to_le_on(x: i16, little_endian: bool) -> (r: i16)
    ensures
        r == if little_endian {
            x
        } else {
            swapped(x)
        },
{
    if little_endian {
        x
    } else {
        bswap(x)
    }
}

} // verus!
