//! Operations on slices: exchange of two elements, sub-slices and binary search.
use vstd::prelude::*;
use crate::order::{compare, lemma_three_way_equal, three_way, at_least, Comparison};
use crate::priority_queue::is_ascending;

verus! {

/// Exchanges the elements at positions `a` and `b`.
pub fn swap<T>(xs: &mut [T], a: usize, b: usize)
    requires
        a < old(xs)@.len(),
        b < old(xs)@.len(),
    ensures
        final(xs)@ == old(xs)@.update(a as int, old(xs)@[b as int]).update(
            b as int,
            old(xs)@[a as int],
        ),
{
    if a != b {
        let (low, high) = if a < b { (a, b) } else { (b, a) };
        let ghost before = xs@;
        let (left, right) = xs.split_at_mut(high);
        core::mem::swap(&mut left[low], &mut right[0]);
        assert(xs@ =~= before.update(a as int, before[b as int]).update(b as int, before[a as int]));
    } else {
        assert(xs@ =~= old(xs)@.update(a as int, old(xs)@[b as int]).update(
            b as int,
            old(xs)@[a as int],
        ));
    }
}

/// `order` returns for every value what `f` says of it.
pub open spec fn decides<T, F: Fn(&T) -> Comparison>(order: F, f: spec_fn(T) -> Comparison) -> bool {
    forall|x: T, c: Comparison| call_ensures(order, (&x,), c) ==> c == f(x)
}

/// In `s`, the elements that `f` calls `Less` come first, then those it
/// calls `Equal`, then those it calls `Greater`.
pub open spec fn partitioned<T>(s: Seq<T>, f: spec_fn(T) -> Comparison) -> bool {
    forall|i: int, j: int|
        0 <= i < j < s.len() ==> (f(#[trigger] s[i]) == Comparison::Greater ==> f(#[trigger] s[j])
            == Comparison::Greater) && (f(s[j]) == Comparison::Less ==> f(s[i])
            == Comparison::Less)
}

/// Searches `xs` for an element that `order` calls `Equal`, by halving.
/// `order` tells whether an element lies before what is looked for
/// (`Less`), behind it (`Greater`), or is it. An index that is returned is
/// that of such an element. Where none is returned and the elements are
/// partitioned under what `order` decides, `xs` holds no such element.
pub fn bsearch_with<T, F: Fn(&T) -> Comparison>(xs: &[T], order: F) -> (r: Option<usize>)
    requires
        forall|x: &T| call_requires(order, (x,)),
    ensures
        r.is_some() ==> r.unwrap() < xs@.len() && call_ensures(
            order,
            (&xs@[r.unwrap() as int],),
            Comparison::Equal,
        ),
        r.is_none() ==> forall|f: spec_fn(T) -> Comparison|
            #[trigger] decides(order, f) && partitioned(xs@, f) ==> forall|i: int|
                0 <= i < xs@.len() ==> f(#[trigger] xs@[i]) != Comparison::Equal,
{
    let mut base: usize = 0;
    let len = xs.len();
    let mut lim: usize = len;
    while lim != 0
        invariant
            base + lim <= len,
            len == xs@.len(),
            forall|x: &T| call_requires(order, (x,)),
            forall|f: spec_fn(T) -> Comparison|
                #[trigger] decides(order, f) && partitioned(xs@, f) ==> forall|i: int|
                    (0 <= i < base ==> f(#[trigger] xs@[i]) == Comparison::Less) && (base + lim <= i
                        < xs@.len() ==> f(xs@[i]) == Comparison::Greater),
        decreases lim,
    {
        let ix = base + lim / 2;
        let found = order(&xs[ix]);
        match found {
            Comparison::Equal => {
                return Some(ix);
            },
            Comparison::Less => {
                assert forall|f: spec_fn(T) -> Comparison|
                    #[trigger] decides(order, f) && partitioned(xs@, f) implies forall|i: int|
                    (0 <= i < ix + 1 ==> f(#[trigger] xs@[i]) == Comparison::Less) && (ix + 1 + (lim
                        - 1) / 2 <= i < xs@.len() ==> f(xs@[i]) == Comparison::Greater) by {
                    assert(f(xs@[ix as int]) == Comparison::Less);
                    assert forall|i: int| 0 <= i < ix + 1 implies f(#[trigger] xs@[i])
                        == Comparison::Less by {
                        if i < ix {
                            assert(f(xs@[ix as int]) == Comparison::Less ==> f(xs@[i])
                                == Comparison::Less);
                        }
                    }
                }
                base = ix + 1;
                lim = lim - 1;
            },
            Comparison::Greater => {
                assert forall|f: spec_fn(T) -> Comparison|
                    #[trigger] decides(order, f) && partitioned(xs@, f) implies forall|i: int|
                    (0 <= i < base ==> f(#[trigger] xs@[i]) == Comparison::Less) && (base + lim / 2
                        <= i < xs@.len() ==> f(xs@[i]) == Comparison::Greater) by {
                    assert(f(xs@[ix as int]) == Comparison::Greater);
                    assert forall|i: int| ix <= i < xs@.len() implies f(#[trigger] xs@[i])
                        == Comparison::Greater by {
                        if i > ix {
                            assert(f(xs@[ix as int]) == Comparison::Greater ==> f(xs@[i])
                                == Comparison::Greater);
                        }
                    }
                }
            },
        }
        lim = lim / 2;
    }
    assert forall|f: spec_fn(T) -> Comparison|
        #[trigger] decides(order, f) && partitioned(xs@, f) implies forall|i: int|
        0 <= i < xs@.len() ==> f(#[trigger] xs@[i]) != Comparison::Equal by {
        assert forall|i: int| 0 <= i < xs@.len() implies f(#[trigger] xs@[i]) != Comparison::Equal by {
            if i < base {
                assert(f(xs@[i]) == Comparison::Less);
            } else {
                assert(f(xs@[i]) == Comparison::Greater);
            }
        }
    }
    None
}

/// Searches the ascending `xs` for `value`, by halving. An index that is
/// returned is that of an element equal to `value`. Where none is returned
/// and `xs` is ascending, `xs` does not hold `value`.
pub fn bsearch<T: crate::order::Ord>(xs: &[T], value: &T) -> (r: Option<usize>)
    ensures
        r.is_some() ==> r.unwrap() < xs@.len() && xs@[r.unwrap() as int] == *value,
        r.is_none() && is_ascending(xs@) ==> !xs@.contains(*value),
{
    let against = |x: &T| -> (c: Comparison)
        ensures
            c == three_way(*x, *value),
        { compare(x, value) };
    let r = bsearch_with(xs, against);
    proof {
        let f = |x: T| three_way(x, *value);
        if r.is_some() {
            lemma_three_way_equal(xs@[r.unwrap() as int], *value);
        }
        if r.is_none() && is_ascending(xs@) {
            assert(decides(against, f));
            assert forall|i: int, j: int| 0 <= i < j < xs@.len() implies (f(#[trigger] xs@[i])
                == Comparison::Greater ==> f(#[trigger] xs@[j]) == Comparison::Greater) && (f(xs@[j])
                == Comparison::Less ==> f(xs@[i]) == Comparison::Less) by {
                let a = xs@[i];
                let b = xs@[j];
                assert(at_least(b, a));
                T::lemma_total(a, b);
                T::lemma_transitive(*value, a, b);
                T::lemma_transitive(b, *value, a);
                T::lemma_transitive(a, b, *value);
                T::lemma_transitive(b, *value, b);
                T::lemma_transitive(a, *value, a);
                T::lemma_irreflexive(a);
                T::lemma_irreflexive(b);
            }
            assert(partitioned(xs@, f));
            assert forall|i: int| 0 <= i < xs@.len() implies xs@[i] != *value by {
                assert(f(xs@[i]) != Comparison::Equal);
                lemma_three_way_equal(xs@[i], *value);
            }
        }
    }
    r
}

/// Returns the sub-slice of `xs` from `start` to `end`, without `end`.
pub fn slice<'a, T>(xs: &'a [T], start: usize, end: usize) -> (r: &'a [T])
    requires
        start <= end <= xs@.len(),
    ensures
        r@ == xs@.subrange(start as int, end as int),
{
    &xs[start..end]
}

/// Returns the sub-slice of `xs` from `start` on.
pub fn slice_from<'a, T>(xs: &'a [T], start: usize) -> (r: &'a [T])
    requires
        start <= xs@.len(),
    ensures
        r@ == xs@.subrange(start as int, xs@.len() as int),
{
    slice(xs, start, xs.len())
}

/// Returns the sub-slice of `xs` before `end`.
pub fn slice_to<'a, T>(xs: &'a [T], end: usize) -> (r: &'a [T])
    requires
        end <= xs@.len(),
    ensures
        r@ == xs@.subrange(0, end as int),
{
    slice(xs, 0, end)
}

/// Returns the part of `xs` before `mid` and the part from `mid` on.
pub fn split<'a, T>(xs: &'a [T], mid: usize) -> (r: (&'a [T], &'a [T]))
    requires
        mid <= xs@.len(),
    ensures
        r.0@ == xs@.subrange(0, mid as int),
        r.1@ == xs@.subrange(mid as int, xs@.len() as int),
{
    (slice_to(xs, mid), slice_from(xs, mid))
}

/// Returns the sub-slice of `xs` from `start` to `end`, without `end`,
/// open to change. The rest of `xs` stays as it is.
pub fn mut_slice<'a, T>(xs: &'a mut [T], start: usize, end: usize) -> (r: &'a mut [T])
    requires
        start <= end <= old(xs)@.len(),
    ensures
        r@ == old(xs)@.subrange(start as int, end as int),
        final(xs)@ == old(xs)@.subrange(0, start as int) + final(r)@ + old(xs)@.subrange(
            end as int,
            old(xs)@.len() as int,
        ),
{
    let (head, _tail) = xs.split_at_mut(end);
    let (_front, middle) = head.split_at_mut(start);
    proof {
        assert(old(xs)@.subrange(0, end as int).subrange(start as int, end as int) =~= old(xs)@.subrange(start as int, end as int));
        assert(old(xs)@.subrange(0, end as int).subrange(0, start as int) =~= old(xs)@.subrange(
            0,
            start as int,
        ));
    }
    middle
}

/// Returns the sub-slice of `xs` from `start` on, open to change.
pub fn mut_slice_from<'a, T>(xs: &'a mut [T], start: usize) -> (r: &'a mut [T])
    requires
        start <= old(xs)@.len(),
    ensures
        r@ == old(xs)@.subrange(start as int, old(xs)@.len() as int),
        final(xs)@ == old(xs)@.subrange(0, start as int) + final(r)@,
{
    let length = xs.len();
    let r = mut_slice(xs, start, length);
    proof {
        assert(old(xs)@.subrange(length as int, length as int) =~= Seq::<T>::empty());
        assert(old(xs)@.subrange(0, start as int) + final(r)@ + Seq::<T>::empty() =~= old(xs)@.subrange(0, start as int) + final(r)@);
    }
    r
}

/// Returns the sub-slice of `xs` before `end`, open to change.
pub fn mut_slice_to<'a, T>(xs: &'a mut [T], end: usize) -> (r: &'a mut [T])
    requires
        end <= old(xs)@.len(),
    ensures
        r@ == old(xs)@.subrange(0, end as int),
        final(xs)@ == final(r)@ + old(xs)@.subrange(end as int, old(xs)@.len() as int),
{
    let r = mut_slice(xs, 0, end);
    proof {
        assert(old(xs)@.subrange(0, 0) =~= Seq::<T>::empty());
        assert(Seq::<T>::empty() + final(r)@ =~= final(r)@);
    }
    r
}

/// Returns the part of `xs` before `mid` and the part from `mid` on, both
/// open to change.
pub fn mut_split<'a, T>(xs: &'a mut [T], mid: usize) -> (r: (&'a mut [T], &'a mut [T]))
    requires
        mid <= old(xs)@.len(),
    ensures
        r.0@ == old(xs)@.subrange(0, mid as int),
        r.1@ == old(xs)@.subrange(mid as int, old(xs)@.len() as int),
        final(xs)@ == final(r.0)@ + final(r.1)@,
{
    xs.split_at_mut(mid)
}

impl<'a, T> crate::container::Container for &'a [T] {
    /// The number of elements of the slice.
    open spec fn size(&self) -> nat {
        self@.len()
    }

    fn len(&self) -> (n: usize) {
        <[T]>::len(*self)
    }
}

/// An iterator over the elements of a slice, first to last.
pub struct VecIterator<'a, T> {
    xs: &'a [T],
    front: usize,
    back: usize,
}

impl<'a, T> VecIterator<'a, T> {
    #[verifier::type_invariant]
    spec fn inv(&self) -> bool {
        self.front <= self.back <= self.xs@.len()
    }

    /// The elements still to come.
    pub closed spec fn view(&self) -> Seq<T> {
        self.xs@.subrange(self.front as int, self.back as int)
    }
}

/// Returns an iterator over the elements of `xs`.
pub fn iter<'a, T>(xs: &'a [T]) -> (r: VecIterator<'a, T>)
    ensures
        r@ == xs@,
{
    let r = VecIterator { xs, front: 0, back: xs.len() };
    assert(r@ =~= xs@);
    r
}

impl<'a, T> crate::iter::Iterator<&'a T> for VecIterator<'a, T> {
    open spec fn remaining(&self) -> Seq<&'a T> {
        self@.map_values(|x: T| &x)
    }

    fn next(&mut self) -> (r: Option<&'a T>) {
        proof {
            use_type_invariant(&*self);
        }
        if self.front == self.back {
            None
        } else {
            let ghost before = self@;
            let item = &self.xs[self.front];
            self.front = self.front + 1;
            proof {
                assert(self@ =~= before.drop_first());
                assert(before.map_values(|x: T| &x).drop_first() =~= before.drop_first().map_values(
                    |x: T| &x,
                ));
            }
            Some(item)
        }
    }

    /// Returns the number of elements still to come, as the lower and as
    /// the upper bound.
    fn size_hint(&self) -> (r: (usize, Option<usize>))
        ensures
            r.0 == self@.len(),
            r.1 == Some(r.0),
    {
        proof {
            use_type_invariant(self);
        }
        let exact = self.back - self.front;
        (exact, Some(exact))
    }
}

impl<'a, T> crate::iter::DoubleEndedIterator<&'a T> for VecIterator<'a, T> {
    fn next_back(&mut self) -> (r: Option<&'a T>) {
        proof {
            use_type_invariant(&*self);
        }
        if self.end_reached() {
            None
        } else {
            let ghost before = self@;
            self.back = self.back - 1;
            proof {
                assert(self@ =~= before.drop_last());
                assert(before.map_values(|x: T| &x).drop_last() =~= before.drop_last().map_values(
                    |x: T| &x,
                ));
            }
            Some(&self.xs[self.back])
        }
    }
}

impl<'a, T> VecIterator<'a, T> {
    /// Returns `true` where no element is left.
    fn end_reached(&self) -> (b: bool)
        ensures
            b == (self@.len() == 0),
    {
        proof {
            use_type_invariant(self);
        }
        self.back == self.front
    }
}

} // verus!
