//! Operations on `u64`: arithmetic that reports overflow, and byte order.
use vstd::prelude::*;

verus! {

/// Returns the sum of `x` and `y` as it wraps round in `u64`, and whether
/// the true sum is outside `u64`.
pub fn add_with_overflow(x: u64, y: u64) -> (r: (u64, bool))
    ensures
        r.1 == !(u64::MIN <= x + y <= u64::MAX),
        r.0 == x.wrapping_add(y),
        !r.1 ==> r.0 == x + y,
{
    match x.checked_add(y) {
        Some(v) => (v, false),
        None => (x.wrapping_add(y), true),
    }
}

/// Returns the difference of `x` and `y` as it wraps round in `u64`, and whether
/// the true difference is outside `u64`.
pub fn sub_with_overflow(x: u64, y: u64) -> (r: (u64, bool))
    ensures
        r.1 == !(u64::MIN <= x - y <= u64::MAX),
        r.0 == x.wrapping_sub(y),
        !r.1 ==> r.0 == x - y,
{
    match x.checked_sub(y) {
        Some(v) => (v, false),
        None => (x.wrapping_sub(y), true),
    }
}

/// Returns the product of `x` and `y` as it wraps round in `u64`, and whether
/// the true product is outside `u64`.
pub fn mul_with_overflow(x: u64, y: u64) -> (r: (u64, bool))
    ensures
        r.1 == !(u64::MIN <= x * y <= u64::MAX),
        r.0 == x.wrapping_mul(y),
        !r.1 ==> r.0 == x * y,
{
    match x.checked_mul(y) {
        Some(v) => (v, false),
        None => (x.wrapping_mul(y), true),
    }
}

/// `x` with its 8 bytes in the opposite order.
pub open spec fn swapped(x: u64) -> u64 {
    (x << 56) | ((x << 40) & 0xff_0000_0000_0000) | ((x << 24) & 0xff_00_0000_0000) | ((x << 8) & 0xff_0000_0000) | ((x >> 8) & 0xff00_0000) | ((x >> 24) & 0xff_0000) | ((x >> 40) & 0xff00) | (x >> 56)
}

/// Byte `i` of `swapped(x)` is byte `7 - i` of `x`.
pub proof fn lemma_swapped_bytes(x: u64)
    ensures
        (swapped(x) >> 0) & 0xff == (x >> 56) & 0xff,
        (swapped(x) >> 8) & 0xff == (x >> 48) & 0xff,
        (swapped(x) >> 16) & 0xff == (x >> 40) & 0xff,
        (swapped(x) >> 24) & 0xff == (x >> 32) & 0xff,
        (swapped(x) >> 32) & 0xff == (x >> 24) & 0xff,
        (swapped(x) >> 40) & 0xff == (x >> 16) & 0xff,
        (swapped(x) >> 48) & 0xff == (x >> 8) & 0xff,
        (swapped(x) >> 56) & 0xff == (x >> 0) & 0xff,
{
    let y = swapped(x);
    assert(((y >> 0) & 0xff == (x >> 56) & 0xff)
        && ((y >> 8) & 0xff == (x >> 48) & 0xff)
        && ((y >> 16) & 0xff == (x >> 40) & 0xff)
        && ((y >> 24) & 0xff == (x >> 32) & 0xff)
        && ((y >> 32) & 0xff == (x >> 24) & 0xff)
        && ((y >> 40) & 0xff == (x >> 16) & 0xff)
        && ((y >> 48) & 0xff == (x >> 8) & 0xff)
        && ((y >> 56) & 0xff == (x >> 0) & 0xff)) by (bit_vector)
        requires
            y == (x << 56) | ((x << 40) & 0xff_0000_0000_0000) | ((x << 24) & 0xff_00_0000_0000) | ((x << 8) & 0xff_0000_0000) | ((x >> 8) & 0xff00_0000) | ((x >> 24) & 0xff_0000) | ((x >> 40) & 0xff00) | (x >> 56),
    ;
}

/// Swapping the bytes twice gives the value back.
pub proof fn lemma_swapped_twice(x: u64)
    ensures
        swapped(swapped(x)) == x,
{
    let y = swapped(x);
    let z = swapped(y);
    assert(z == x) by (bit_vector)
        requires
            y == (x << 56) | ((x << 40) & 0xff_0000_0000_0000) | ((x << 24) & 0xff_00_0000_0000) | ((x << 8) & 0xff_0000_0000) | ((x >> 8) & 0xff00_0000) | ((x >> 24) & 0xff_0000) | ((x >> 40) & 0xff00) | (x >> 56),
            z == (y << 56) | ((y << 40) & 0xff_0000_0000_0000) | ((y << 24) & 0xff_00_0000_0000) | ((y << 8) & 0xff_0000_0000) | ((y >> 8) & 0xff00_0000) | ((y >> 24) & 0xff_0000) | ((y >> 40) & 0xff00) | (y >> 56),
    ;
}

/// Returns `x` with its bytes in the opposite order.
pub fn bswap(x: u64) -> (r: u64)
    ensures
        r == swapped(x),
{
    (x << 56) | ((x << 40) & 0xff_0000_0000_0000) | ((x << 24) & 0xff_00_0000_0000) | ((x << 8) & 0xff_0000_0000) | ((x >> 8) & 0xff00_0000) | ((x >> 24) & 0xff_0000) | ((x >> 40) & 0xff00) | (x >> 56)
}

/// Returns `x` in big-endian byte order: `x` itself on a machine that
/// stores the high byte first, `x` with its bytes swapped on any other.
/// Which of the two this machine is, the machine tells; `to_be_on` says
/// what is returned on either.
pub fn to_be(x: u64) -> (r: u64)
    ensures
        r == x || r == swapped(x),
{
    to_be_on(x, crate::mem::is_little_endian())
}

/// Returns `x` in little-endian byte order: `x` itself on a machine that
/// stores the low byte first, `x` with its bytes swapped on any other.
/// Which of the two this machine is, the machine tells; `to_le_on` says
/// what is returned on either.
pub fn to_le(x: u64) -> (r: u64)
    ensures
        r == x || r == swapped(x),
{
    to_le_on(x, crate::mem::is_little_endian())
}

/// Returns `x` in big-endian byte order on a machine that stores the low
/// byte first where `little_endian` holds, and the high byte first where
/// it does not.
pub fn to_be_on(x: u64, little_endian: bool) -> (r: u64)
    ensures
        r == if little_endian {
            swapped(x)
        } else {
            x
        },
{
    if little_endian {
        bswap(x)
    } else {
        x
    }
}

/// Returns `x` in little-endian byte order on a machine that stores the
/// low byte first where `little_endian` holds, and the high byte first
/// where it does not.
pub fn to_le_on(x: u64, little_endian: bool) -> (r: u64)
    ensures
        r == if little_endian {
            x
        } else {
            swapped(x)
        },
{
    if little_endian {
        x
    } else {
        bswap(x)
    }
}

} // verus!
