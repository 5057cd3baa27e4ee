//! Operations on `u16`: arithmetic that reports overflow, and byte order.
use vstd::prelude::*;

verus! {

/// Returns the sum of `x` and `y` as it wraps round in `u16`, and whether
/// the true sum is outside `u16`.
pub fn add_with_overflow(x: u16, y: u16) -> (r: (u16, bool))
    ensures
        r.1 == !(u16::MIN <= x + y <= u16::MAX),
        r.0 == x.wrapping_add(y),
        !r.1 ==> r.0 == x + y,
{
    match x.checked_add(y) {
        Some(v) => (v, false),
        None => (x.wrapping_add(y), true),
    }
}

/// Returns the difference of `x` and `y` as it wraps round in `u16`, and whether
/// the true difference is outside `u16`.
pub fn sub_with_overflow(x: u16, y: u16) -> (r: (u16, bool))
    ensures
        r.1 == !(u16::MIN <= x - y <= u16::MAX),
        r.0 == x.wrapping_sub(y),
        !r.1 ==> r.0 == x - y,
{
    match x.checked_sub(y) {
        Some(v) => (v, false),
        None => (x.wrapping_sub(y), true),
    }
}

/// Returns the product of `x` and `y` as it wraps round in `u16`, and whether
/// the true product is outside `u16`.
pub fn mul_with_overflow(x: u16, y: u16) -> (r: (u16, bool))
    ensures
        r.1 == !(u16::MIN <= x * y <= u16::MAX),
        r.0 == x.wrapping_mul(y),
        !r.1 ==> r.0 == x * y,
{
    match x.checked_mul(y) {
        Some(v) => (v, false),
        None => (x.wrapping_mul(y), true),
    }
}

/// `x` with its 2 bytes in the opposite order.
pub open spec fn swapped(x: u16) -> u16 {
    (x << 8) | (x >> 8)
}

/// Byte `i` of `swapped(x)` is byte `1 - i` of `x`.
pub proof fn lemma_swapped_bytes(x: u16)
    ensures
        (swapped(x) >> 0) & 0xff == (x >> 8) & 0xff,
        (swapped(x) >> 8) & 0xff == (x >> 0) & 0xff,
{
    let y = swapped(x);
    assert(((y >> 0) & 0xff == (x >> 8) & 0xff)
        && ((y >> 8) & 0xff == (x >> 0) & 0xff)) by (bit_vector)
        requires
            y == (x << 8) | (x >> 8),
    ;
}

/// Swapping the bytes twice gives the value back.
pub proof fn lemma_swapped_twice(x: u16)
    ensures
        swapped(swapped(x)) == x,
{
    let y = swapped(x);
    let z = swapped(y);
    assert(z == x) by (bit_vector)
        requires
            y == (x << 8) | (x >> 8),
            z == (y << 8) | (y >> 8),
    ;
}

/// Returns `x` with its bytes in the opposite order.
pub fn bswap(x: u16) -> (r: u16)
    ensures
        r == swapped(x),
{
    (x << 8) | (x >> 8)
}

/// Returns `x` in big-endian byte order: `x` itself on a machine that
/// stores the high byte first, `x` with its bytes swapped on any other.
/// Which of the two this machine is, the machine tells; `to_be_on` says
/// what is returned on either.
pub fn to_be(x: u16) -> (r: u16)
    ensures
        r == x || r == swapped(x),
{
    to_be_on(x, crate::mem::is_little_endian())
}

/// Returns `x` in little-endian byte order: `x` itself on a machine that
/// stores the low byte first, `x` with its bytes swapped on any other.
/// Which of the two this machine is, the machine tells; `to_le_on` says
/// what is returned on either.
pub fn to_le(x: u16) -> (r: u16)
    ensures
        r == x || r == swapped(x),
{
    to_le_on(x, crate::mem::is_little_endian())
}

/// Returns `x` in big-endian byte order on a machine that stores the low
/// byte first where `little_endian` holds, and the high byte first where
/// it does not.
pub fn to_be_on(x: u16, little_endian: bool) -> (r: u16)
    ensures
        r == if little_endian {
            swapped(x)
        } else {
            x
        },
{
    if little_endian {
        bswap(x)
    } else {
        x
    }
}

/// Returns `x` in little-endian byte order on a machine that stores the
/// low byte first where `little_endian` holds, and the high byte first
/// where it does not.
pub fn to_le_on(x: u16, little_endian: bool) -> (r: u16)
    ensures
        r == if little_endian {
            x
        } else {
            swapped(x)
        },
{
    if little_endian {
        x
    } else {
        bswap(x)
    }
}

} // verus!
