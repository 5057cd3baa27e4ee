//! Strings as sequences of bytes.
use vstd::prelude::*;
use vstd::string::StringSliceAdditionalSpecFns;
use crate::container::Container;

verus! {

impl<'a> Container for &'a str {
    /// The number of bytes of the string.
    open spec fn size(&self) -> nat {
        self.spec_bytes().len()
    }

    fn len(&self) -> (n: usize) {
        as_bytes(*self).len()
    }
}

/// Returns the bytes of the string.
pub fn as_bytes<'a>(string: &'a str) -> (r: &'a [u8])
    ensures
        r@ == string.spec_bytes(),
{
    string.as_bytes()
}

/// Compares the first `len` bytes of `a` with those of `b`. Returns `true`
/// where they are the same.
pub fn same_bytes(a: &[u8], b: &[u8], len: usize) -> (r: bool)
    requires
        len <= a@.len(),
        len <= b@.len(),
    ensures
        r == (a@.take(len as int) == b@.take(len as int)),
{
    let mut x: usize = 0;
    while x < len
        invariant
            x <= len,
            len <= a@.len(),
            len <= b@.len(),
            a@.take(x as int) == b@.take(x as int),
        decreases len - x,
    {
        if a[x] != b[x] {
            assert(a@.take(len as int)[x as int] != b@.take(len as int)[x as int]);
            return false;
        }
        assert(a@.take(x + 1) =~= a@.take(x as int).push(a@[x as int]));
        assert(b@.take(x + 1) =~= b@.take(x as int).push(b@[x as int]));
        x += 1;
    }
    true
}

/// Returns `true` where the two strings have the same bytes.
pub fn eq_slice(a: &str, b: &str) -> (r: bool)
    ensures
        r == (a.spec_bytes() == b.spec_bytes()),
{
    let abytes = as_bytes(a);
    let bbytes = as_bytes(b);
    let al = abytes.len();
    let bl = bbytes.len();
    proof {
        assert(abytes@.take(al as int) =~= abytes@);
        if al == bl {
            assert(bbytes@.take(al as int) =~= bbytes@);
        }
    }
    al == bl && same_bytes(abytes, bbytes, al)
}

} // verus!
