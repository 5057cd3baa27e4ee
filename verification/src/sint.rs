//! Operations on `isize`: arithmetic that reports overflow, and byte order.
use vstd::prelude::*;

verus! {

/// Returns the sum of `x` and `y` as it wraps round in `isize`, and whether
/// the true sum is outside `isize`.
pub fn add_with_overflow(x: isize, y: isize) -> (r: (isize, bool))
    ensures
        r.1 == !(isize::MIN <= x + y <= isize::MAX),
        r.0 == x.wrapping_add(y),
        !r.1 ==> r.0 == x + y,
{
    match x.checked_add(y) {
        Some(v) => (v, false),
        None => (x.wrapping_add(y), true),
    }
}

/// Returns the difference of `x` and `y` as it wraps round in `isize`, and whether
/// the true difference is outside `isize`.
pub fn sub_with_overflow(x: isize, y: isize) -> (r: (isize, bool))
    ensures
        r.1 == !(isize::MIN <= x - y <= isize::MAX),
        r.0 == x.wrapping_sub(y),
        !r.1 ==> r.0 == x - y,
{
    match x.checked_sub(y) {
        Some(v) => (v, false),
        None => (x.wrapping_sub(y), true),
    }
}

/// Returns the product of `x` and `y` as it wraps round in `isize`, and whether
/// the true product is outside `isize`.
pub fn mul_with_overflow(x: isize, y: isize) -> (r: (isize, bool))
    ensures
        r.1 == !(isize::MIN <= x * y <= isize::MAX),
        r.0 == x.wrapping_mul(y),
        !r.1 ==> r.0 == x * y,
{
    proof {
        let range = usize::MAX - usize::MIN + 1;
        if 0 <= x * y <= isize::MAX {
            vstd::arithmetic::div_mod::lemma_small_mod((x * y) as nat, range as nat);
        } else if isize::MIN <= x * y < 0 {
            vstd::arithmetic::div_mod::lemma_small_mod((x * y + range) as nat, range as nat);
            vstd::arithmetic::div_mod::lemma_mod_add_multiples_vanish(x * y, range);
        }
    }
    match x.checked_mul(y) {
        Some(v) => (v, false),
        None => (x.wrapping_mul(y), true),
    }
}

/// `x` with its bytes in the opposite order: those of a `u64` where the
/// machine word has 64 bits, those of a `u32` where it has 32.
pub open spec fn swapped(x: isize) -> isize {
    if usize::BITS == 64 {
        crate::u64::swapped(x as u64) as isize
    } else {
        crate::u32::swapped(x as u32) as isize
    }
}

/// Returns `x` with its bytes in the opposite order.
pub fn bswap(x: isize) -> (r: isize)
    ensures
        r == swapped(x),
{
    if usize::BITS == 64 {
        #[verifier::truncate]
        (crate::u64::bswap(#[verifier::truncate] (x as u64)) as isize)
    } else {
        #[verifier::truncate]
        (crate::u32::bswap(#[verifier::truncate] (x as u32)) as isize)
    }
}

/// Returns `x` in big-endian byte order: `x` itself on a machine that
/// stores the high byte first, `x` with its bytes swapped on any other.
/// Which of the two this machine is, the machine tells; `to_be_on` says
/// what is returned on either.
pub fn to_be(x: isize) -> (r: isize)
    ensures
        r == x || r == swapped(x),
{
    to_be_on(x, crate::mem::is_little_endian())
}

/// Returns `x` in little-endian byte order: `x` itself on a machine that
/// stores the low byte first, `x` with its bytes swapped on any other.
/// Which of the two this machine is, the machine tells; `to_le_on` says
/// what is returned on either.
pub fn to_le(x: isize) -> (r: isize)
    ensures
        r == x || r == swapped(x),
{
    to_le_on(x, crate::mem::is_little_endian())
}

/// Returns `x` in big-endian byte order on a machine that stores the low
/// byte first where `little_endian` holds, and the high byte first where
/// it does not.
pub fn to_be_on(x: isize, little_endian: bool) -> (r: isize)
    ensures
        r == if little_endian {
            swapped(x)
        } else {
            x
        },
{
    if little_endian {
        bswap(x)
    } else {
        x
    }
}

/// Returns `x` in little-endian byte order on a machine that stores the
/// low byte first where `little_endian` holds, and the high byte first
/// where it does not.
pub fn to_le_on(x: isize, little_endian: bool) -> (r: isize)
    ensures
        r == if little_endian {
            x
        } else {
            swapped(x)
        },
{
    if little_endian {
        x
    } else {
        bswap(x)
    }
}

} // verus!
