//! Operations on `usize`: arithmetic that reports overflow, and byte order.
use vstd::prelude::*;

verus! {

/// Returns the sum of `x` and `y` as it wraps round in `usize`, and whether
/// the true sum is outside `usize`.
pub fn add_with_overflow(x: usize, y: usize) -> (r: (usize, bool))
    ensures
        r.1 == !(usize::MIN <= x + y <= usize::MAX),
        r.0 == x.wrapping_add(y),
        !r.1 ==> r.0 == x + y,
{
    match x.checked_add(y) {
        Some(v) => (v, false),
        None => (x.wrapping_add(y), true),
    }
}

/// Returns the difference of `x` and `y` as it wraps round in `usize`, and whether
/// the true difference is outside `usize`.
pub fn sub_with_overflow(x: usize, y: usize) -> (r: (usize, bool))
    ensures
        r.1 == !(usize::MIN <= x - y <= usize::MAX),
        r.0 == x.wrapping_sub(y),
        !r.1 ==> r.0 == x - y,
{
    match x.checked_sub(y) {
        Some(v) => (v, false),
        None => (x.wrapping_sub(y), true),
    }
}

/// Returns the product of `x` and `y` as it wraps round in `usize`, and whether
/// the true product is outside `usize`.
pub fn mul_with_overflow(x: usize, y: usize) -> (r: (usize, bool))
    ensures
        r.1 == !(usize::MIN <= x * y <= usize::MAX),
        r.0 == x.wrapping_mul(y),
        !r.1 ==> r.0 == x * y,
{
    proof {
        if usize::MIN <= x * y <= usize::MAX {
            vstd::arithmetic::div_mod::lemma_small_mod((x * y) as nat, (usize::MAX - usize::MIN + 1) as nat);
        }
    }
    match x.checked_mul(y) {
        Some(v) => (v, false),
        None => (x.wrapping_mul(y), true),
    }
}

/// `x` with its bytes in the opposite order: those of a `u64` where the
/// machine word has 64 bits, those of a `u32` where it has 32.
pub open spec fn swapped(x: usize) -> usize {
    if usize::BITS == 64 {
        crate::u64::swapped(x as u64) as usize
    } else {
        crate::u32::swapped(x as u32) as usize
    }
}

/// Returns `x` with its bytes in the opposite order.
pub fn bswap(x: usize) -> (r: usize)
    ensures
        r == swapped(x),
{
    if usize::BITS == 64 {
        #[verifier::truncate]
        (crate::u64::bswap(#[verifier::truncate] (x as u64)) as usize)
    } else {
        #[verifier::truncate]
        (crate::u32::bswap(#[verifier::truncate] (x as u32)) as usize)
    }
}

/// Returns `x` in big-endian byte order: `x` itself on a machine that
/// stores the high byte first, `x` with its bytes swapped on any other.
/// Which of the two this machine is, the machine tells; `to_be_on` says
/// what is returned on either.
pub fn to_be(x: usize) -> (r: usize)
    ensures
        r == x || r == swapped(x),
{
    to_be_on(x, crate::mem::is_little_endian())
}

/// Returns `x` in little-endian byte order: `x` itself on a machine that
/// stores the low byte first, `x` with its bytes swapped on any other.
/// Which of the two this machine is, the machine tells; `to_le_on` says
/// what is returned on either.
pub fn to_le(x: usize) -> (r: usize)
    ensures
        r == x || r == swapped(x),
{
    to_le_on(x, crate::mem::is_little_endian())
}

/// Returns `x` in big-endian byte order on a machine that stores the low
/// byte first where `little_endian` holds, and the high byte first where
/// it does not.
pub fn to_be_on(x: usize, little_endian: bool) -> (r: usize)
    ensures
        r == if little_endian {
            swapped(x)
        } else {
            x
        },
{
    if little_endian {
        bswap(x)
    } else {
        x
    }
}

/// Returns `x` in little-endian byte order on a machine that stores the
/// low byte first where `little_endian` holds, and the high byte first
/// where it does not.
pub fn to_le_on(x: usize, little_endian: bool) -> (r: usize)
    ensures
        r == if little_endian {
            x
        } else {
            swapped(x)
        },
{
    if little_endian {
        x
    } else {
        bswap(x)
    }
}

} // verus!
