//! Iterators: values that hand out a finite sequence of items one by one.
use vstd::prelude::*;

verus! {

/// `r` is what `f` can make of `init` and the items of `s`, folding them in
/// from the first to the last.
pub open spec fn folds_to<A, B, F: Fn(B, A) -> B>(f: F, init: B, s: Seq<A>, r: B) -> bool
    decreases s.len(),
{
    if s.len() == 0 {
        r == init
    } else {
        exists|mid: B| #[trigger]
            call_ensures(f, (init, s.first()), mid) && folds_to(f, mid, s.drop_first(), r)
    }
}

/// Folding one item in and then the rest is folding all of them in.
pub proof fn lemma_fold_step<A, B, F: Fn(B, A) -> B>(f: F, init: B, s: Seq<A>, mid: B, r: B)
    requires
        s.len() > 0,
        call_ensures(f, (init, s.first()), mid),
        folds_to(f, mid, s.drop_first(), r),
    ensures
        folds_to(f, init, s, r),
{
}

/// Folding no item in leaves what there was.
pub proof fn lemma_fold_nothing<A, B, F: Fn(B, A) -> B>(f: F, init: B, s: Seq<A>)
    requires
        s.len() == 0,
    ensures
        folds_to(f, init, s, init),
{
}

/// A source of items.
pub trait Iterator<A> {
    /// The items still to come, the next one first.
    spec fn remaining(&self) -> Seq<A>;

    /// Hands out the next item; `None` where none is left.
    fn next(&mut self) -> (r: Option<A>)
        ensures
            old(self).remaining().len() == 0 ==> r.is_none() && final(self).remaining().len() == 0,
            old(self).remaining().len() > 0 ==> r == Some(old(self).remaining().first()) && final(self).remaining() == old(self).remaining().drop_first(),
    ;

    /// Returns a lower bound of the number of items still to come, and an
    /// upper bound where one is known.
    fn size_hint(&self) -> (r: (usize, Option<usize>))
        ensures
            r.0 <= self.remaining().len(),
            r.1.is_some() ==> self.remaining().len() <= r.1.unwrap(),
    {
        (0, None)
    }

    /// Folds the items still to come into `init` with `f`, first to last.
    fn fold<B, F: Fn(B, A) -> B>(&mut self, init: B, f: F) -> (r: B)
        requires
            forall|b: B, a: A| call_requires(f, (b, a)),
        ensures
            folds_to(f, init, old(self).remaining(), r),
            final(self).remaining().len() == 0,
    {
        let mut accum = init;
        loop
            invariant
                forall|b: B, a: A| call_requires(f, (b, a)),
                forall|r: B|
                    folds_to(f, accum, self.remaining(), r) ==> folds_to(
                        f,
                        init,
                        old(self).remaining(),
                        r,
                    ),
            ensures
                folds_to(f, init, old(self).remaining(), accum),
                self.remaining().len() == 0,
            decreases self.remaining().len(),
        {
            let ghost before = self.remaining();
            let ghost so_far = accum;
            match self.next() {
                Some(x) => {
                    accum = f(accum, x);
                    assert forall|r: B| folds_to(f, accum, self.remaining(), r) implies folds_to(
                        f,
                        init,
                        old(self).remaining(),
                        r,
                    ) by {
                        lemma_fold_step(f, so_far, before, accum, r);
                    }
                },
                None => {
                    proof {
                        lemma_fold_nothing(f, accum, before);
                    }
                    break ;
                },
            }
        }
        accum
    }

    /// Tests the items still to come with `f`, one after the other, up to
    /// the first for which `f` returns `false`. Returns `true` where there
    /// is no such item.
    fn all<F: Fn(A) -> bool>(&mut self, f: F) -> (r: bool)
        requires
            forall|a: A| call_requires(f, (a,)),
        ensures
            final(self).remaining().len() <= old(self).remaining().len(),
            final(self).remaining() == old(self).remaining().skip(
                tested(old(self).remaining(), final(self).remaining()),
            ),
            forall|i: int|
                0 <= i < tested(old(self).remaining(), final(self).remaining()) - if r {
                    0int
                } else {
                    1int
                } ==> call_ensures(f, (#[trigger] old(self).remaining()[i],), true),
            r ==> final(self).remaining().len() == 0,
            !r ==> tested(old(self).remaining(), final(self).remaining()) > 0 && call_ensures(
                f,
                (old(self).remaining()[tested(old(self).remaining(), final(self).remaining()) - 1],),
                false,
            ),
    {
        let ghost all_items = self.remaining();
        let ghost mut seen: int = 0;
        loop
            invariant
                forall|a: A| call_requires(f, (a,)),
                all_items == old(self).remaining(),
                0 <= seen <= all_items.len(),
                self.remaining() == all_items.skip(seen),
                forall|i: int| 0 <= i < seen ==> call_ensures(f, (#[trigger] all_items[i],), true),
            decreases self.remaining().len(),
        {
            match self.next() {
                Some(x) => {
                    proof {
                        assert(all_items.skip(seen).first() == all_items[seen]);
                        assert(all_items.skip(seen).drop_first() =~= all_items.skip(seen + 1));
                        seen = seen + 1;
                    }
                    if !f(x) {
                        return false;
                    }
                },
                None => {
                    return true;
                },
            }
        }
    }

    /// Tests the items still to come with `f`, one after the other, up to
    /// the first for which `f` returns `true`. Returns `true` where there is
    /// such an item.
    fn any<F: Fn(A) -> bool>(&mut self, f: F) -> (r: bool)
        requires
            forall|a: A| call_requires(f, (a,)),
        ensures
            final(self).remaining().len() <= old(self).remaining().len(),
            final(self).remaining() == old(self).remaining().skip(
                tested(old(self).remaining(), final(self).remaining()),
            ),
            forall|i: int|
                0 <= i < tested(old(self).remaining(), final(self).remaining()) - if r {
                    1int
                } else {
                    0int
                } ==> call_ensures(f, (#[trigger] old(self).remaining()[i],), false),
            !r ==> final(self).remaining().len() == 0,
            r ==> tested(old(self).remaining(), final(self).remaining()) > 0 && call_ensures(
                f,
                (old(self).remaining()[tested(old(self).remaining(), final(self).remaining()) - 1],),
                true,
            ),
    {
        let ghost all_items = self.remaining();
        let ghost mut seen: int = 0;
        loop
            invariant
                forall|a: A| call_requires(f, (a,)),
                all_items == old(self).remaining(),
                0 <= seen <= all_items.len(),
                self.remaining() == all_items.skip(seen),
                forall|i: int| 0 <= i < seen ==> call_ensures(f, (#[trigger] all_items[i],), false),
            decreases self.remaining().len(),
        {
            match self.next() {
                Some(x) => {
                    proof {
                        assert(all_items.skip(seen).first() == all_items[seen]);
                        assert(all_items.skip(seen).drop_first() =~= all_items.skip(seen + 1));
                        seen = seen + 1;
                    }
                    if f(x) {
                        return true;
                    }
                },
                None => {
                    return false;
                },
            }
        }
    }
}

/// The number of items that were taken from an iterator that had `before`
/// to come and has `after` to come.
pub open spec fn tested<A>(before: Seq<A>, after: Seq<A>) -> int {
    before.len() - after.len()
}

/// A source of items that can hand them out from the back as well.
pub trait DoubleEndedIterator<A>: Iterator<A> + Sized {
    /// Hands out the last of the items still to come; `None` where none is left.
    fn next_back(&mut self) -> (r: Option<A>)
        ensures
            old(self).remaining().len() == 0 ==> r.is_none() && final(self).remaining().len() == 0,
            old(self).remaining().len() > 0 ==> r == Some(old(self).remaining().last()) && final(self).remaining() == old(self).remaining().drop_last(),
    ;

    /// Returns an iterator that hands out the same items, the last first.
    fn invert(self) -> (r: Invert<Self>)
        ensures
            r.inner() == self,
    {
        Invert { iter: self }
    }
}

/// An iterator that hands out the items of another, the last first.
pub struct Invert<T> {
    iter: T,
}

impl<T> Invert<T> {
    /// The iterator whose items are handed out.
    pub closed spec fn inner(&self) -> T {
        self.iter
    }
}

impl<A, T: DoubleEndedIterator<A>> Iterator<A> for Invert<T> {
    open spec fn remaining(&self) -> Seq<A> {
        self.inner().remaining().reverse()
    }

    fn next(&mut self) -> (r: Option<A>) {
        let ghost before = self.iter.remaining();
        let r = self.iter.next_back();
        proof {
            if before.len() > 0 {
                assert(before.reverse().drop_first() =~= before.drop_last().reverse());
            }
        }
        r
    }

    /// Returns what the iterator whose items are handed out gives as its
    /// bounds: the number of items is the same from either end.
    fn size_hint(&self) -> (r: (usize, Option<usize>))
        ensures
            call_ensures(<T as Iterator<A>>::size_hint, (&self.inner(),), r),
    {
        self.iter.size_hint()
    }
}

impl<A, T: DoubleEndedIterator<A>> DoubleEndedIterator<A> for Invert<T> {
    fn next_back(&mut self) -> (r: Option<A>) {
        let ghost before = self.iter.remaining();
        let r = self.iter.next();
        proof {
            if before.len() > 0 {
                assert(before.reverse().drop_last() =~= before.drop_first().reverse());
            }
        }
        r
    }
}

} // verus!
