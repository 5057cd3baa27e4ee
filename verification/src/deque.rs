//! A double-ended queue implemented as a circular buffer.
//!
//! The buffer is a vector of optional slots. The live elements occupy
//! `nelts` consecutive slots starting at `lo`, wrapping round at the end.
use vstd::prelude::*;
use crate::container::Container;

verus! {

/// The slot, in a ring of `len` slots, that lies `index` places after slot `lo`.
pub open spec fn ring_slot(lo: int, len: int, index: int) -> int {
    if lo + index >= len {
        lo + index - len
    } else {
        lo + index
    }
}

/// The number of slots of a buffer after one more element went in: as
/// before where a slot was free, else twice the number of elements (four
/// where there was none).
pub open spec fn slots_after_push(len: nat, slots: nat) -> nat {
    if len < slots {
        slots
    } else if len == 0 {
        4
    } else {
        2 * len
    }
}

/// The ring is consistent: `nelts` live slots starting at `lo`, each occupied.
spec fn ring_wf<T>(nelts: usize, lo: usize, elts: Seq<Option<T>>) -> bool {
    &&& nelts <= elts.len()
    &&& elts.len() <= usize::MAX
    &&& (elts.len() == 0 ==> lo == 0)
    &&& (elts.len() > 0 ==> lo < elts.len())
    &&& forall|i: int|
        0 <= i < nelts ==> (#[trigger] elts[ring_slot(lo as int, elts.len() as int, i)]).is_some()
}

/// The elements of the ring, oldest first.
spec fn ring_view<T>(nelts: usize, lo: usize, elts: Seq<Option<T>>) -> Seq<T> {
    Seq::new(nelts as nat, |i: int| elts[ring_slot(lo as int, elts.len() as int, i)].unwrap())
}

/// Maps the logical position `index` to its slot in a ring of `len` slots
/// whose first element is in slot `lo`.
pub fn raw_index(lo: usize, len: usize, index: usize) -> (r: usize)
    requires
        lo < len,
        index <= len,
    ensures
        r == ring_slot(lo as int, len as int, index as int),
        r < len,
{
    if lo >= len - index {
        lo - (len - index)
    } else {
        lo + index
    }
}

/// Enlarges a full ring to twice its size (to four slots where it was empty)
/// and moves the shorter of its two contiguous parts into the new area, so
/// that the elements and their order stay as they were.
fn grow<T>(nelts: usize, loptr: &mut usize, elts: &mut Vec<Option<T>>)
    requires
        ring_wf(nelts, *old(loptr), old(elts)@),
        nelts == old(elts)@.len(),
    ensures
        ring_wf(nelts, *final(loptr), final(elts)@),
        ring_view(nelts, *final(loptr), final(elts)@) == ring_view(nelts, *old(loptr), old(elts)@),
        final(elts)@.len() == if nelts == 0 { 4 } else { 2 * nelts },
{
    let lo = *loptr;
    let ghost before = elts@;
    if nelts == 0 {
        elts.push(None);
        elts.push(None);
        elts.push(None);
        elts.push(None);
    } else {
        let mut added: usize = 0;
        while added < nelts
            invariant
                added <= nelts,
                elts@.len() == nelts + added,
                forall|k: int| 0 <= k < nelts ==> elts@[k] == before[k],
                forall|k: int| nelts <= k < nelts + added ==> elts@[k].is_none(),
            decreases nelts - added,
        {
            elts.push(None);
            added = added + 1;
        }
    }
    let newlen = elts.len();
    if lo <= nelts - lo {
        // The wrapped part [0, lo) is the shorter one: it goes behind the
        // old end, and the elements then lie in one piece.
        let mut i: usize = 0;
        while i < lo
            invariant
                i <= lo,
                lo < nelts || (lo == 0 && nelts == 0),
                elts@.len() == newlen,
                newlen == if nelts == 0 { 4int } else { 2 * nelts },
                before.len() == nelts,
                forall|k: int| 0 <= k < i ==> elts@[nelts + k] == before[k],
                forall|k: int| i <= k < nelts ==> elts@[k] == before[k],
            decreases lo - i,
        {
            let moved = elts[i].take();
            elts[nelts + i] = moved;
            i = i + 1;
        }
        proof {
            let after = elts@;
            assert forall|v: int| 0 <= v < nelts implies (#[trigger] after[ring_slot(
                lo as int,
                newlen as int,
                v,
            )]) == before[ring_slot(lo as int, nelts as int, v)] by {
                if lo + v >= nelts {
                    assert(after[nelts + (lo + v - nelts)] == before[lo + v - nelts]);
                }
            }
            assert forall|v: int| 0 <= v < nelts implies (#[trigger] after[ring_slot(
                lo as int,
                newlen as int,
                v,
            )]).is_some() by {
                assert(before[ring_slot(lo as int, nelts as int, v)].is_some());
            }
            assert(ring_view(nelts, lo, after) =~= ring_view(nelts, lo, before));
        }
    } else {
        // The part [lo, nelts) is the shorter one: it goes to the very end.
        let mut i: usize = lo;
        while i < nelts
            invariant
                lo <= i <= nelts,
                elts@.len() == newlen,
                newlen == 2 * nelts,
                before.len() == nelts,
                forall|k: int| lo <= k < i ==> elts@[nelts + k] == before[k],
                forall|k: int| 0 <= k < lo ==> elts@[k] == before[k],
                forall|k: int| i <= k < nelts ==> elts@[k] == before[k],
            decreases nelts - i,
        {
            let moved = elts[i].take();
            elts[newlen - nelts + i] = moved;
            i = i + 1;
        }
        *loptr = lo + (newlen - nelts);
        proof {
            let after = elts@;
            let newlo = lo + nelts;
            assert forall|v: int| 0 <= v < nelts implies (#[trigger] after[ring_slot(
                newlo as int,
                newlen as int,
                v,
            )]) == before[ring_slot(lo as int, nelts as int, v)] by {
                if lo + v < nelts {
                    assert(after[nelts + (lo + v)] == before[lo + v]);
                }
            }
            assert forall|v: int| 0 <= v < nelts implies (#[trigger] after[ring_slot(
                newlo as int,
                newlen as int,
                v,
            )]).is_some() by {
                assert(before[ring_slot(lo as int, nelts as int, v)].is_some());
            }
            assert(ring_view(nelts, *loptr, after) =~= ring_view(nelts, lo, before));
        }
    }
}


/// A double-ended queue. Its view is the sequence of its elements, front first.
pub struct Deque<T> {
    nelts: usize,
    lo: usize,
    elts: Vec<Option<T>>,
}

/// Removes the front element of the ring, if there is one.
fn ring_pop_front<T>(nelts: &mut usize, lo: &mut usize, elts: &mut Vec<Option<T>>) -> (r: Option<T>)
    requires
        ring_wf(*old(nelts), *old(lo), old(elts)@),
    ensures
        ring_wf(*final(nelts), *final(lo), final(elts)@),
        final(elts)@.len() == old(elts)@.len(),
        ring_view(*old(nelts), *old(lo), old(elts)@).len() == 0 ==> r.is_none() && ring_view(
            *final(nelts),
            *final(lo),
            final(elts)@,
        ) == ring_view(*old(nelts), *old(lo), old(elts)@),
        ring_view(*old(nelts), *old(lo), old(elts)@).len() > 0 ==> r == Some(
            ring_view(*old(nelts), *old(lo), old(elts)@).first(),
        ) && ring_view(*final(nelts), *final(lo), final(elts)@) == ring_view(
            *old(nelts),
            *old(lo),
            old(elts)@,
        ).drop_first(),
{
    if *nelts > 0 {
        let ghost before = elts@;
        let ghost n = *nelts;
        let first = *lo;
        let cap = elts.len();
        assert(before[ring_slot(first as int, cap as int, 0)].is_some());
        let result = elts[first].take();
        *lo = if first + 1 == cap { 0 } else { first + 1 };
        *nelts = *nelts - 1;
        proof {
            let after = elts@;
            assert forall|v: int| 0 <= v < n - 1 implies (#[trigger] after[ring_slot(
                *lo as int,
                cap as int,
                v,
            )]) == before[ring_slot(first as int, cap as int, v + 1)] by {}
            assert forall|v: int| 0 <= v < n - 1 implies (#[trigger] after[ring_slot(
                *lo as int,
                cap as int,
                v,
            )]).is_some() by {
                assert(before[ring_slot(first as int, cap as int, v + 1)].is_some());
            }
            assert(ring_view(*nelts, *lo, after) =~= ring_view(n, first, before).drop_first());
        }
        result
    } else {
        None
    }
}

/// Removes the back element of the ring, if there is one.
fn ring_pop_back<T>(nelts: &mut usize, lo: usize, elts: &mut Vec<Option<T>>) -> (r: Option<T>)
    requires
        ring_wf(*old(nelts), lo, old(elts)@),
    ensures
        ring_wf(*final(nelts), lo, final(elts)@),
        final(elts)@.len() == old(elts)@.len(),
        ring_view(*old(nelts), lo, old(elts)@).len() == 0 ==> r.is_none() && ring_view(
            *final(nelts),
            lo,
            final(elts)@,
        ) == ring_view(*old(nelts), lo, old(elts)@),
        ring_view(*old(nelts), lo, old(elts)@).len() > 0 ==> r == Some(
            ring_view(*old(nelts), lo, old(elts)@).last(),
        ) && ring_view(*final(nelts), lo, final(elts)@) == ring_view(
            *old(nelts),
            lo,
            old(elts)@,
        ).drop_last(),
{
    if *nelts > 0 {
        let ghost before = elts@;
        let ghost n = *nelts;
        *nelts = *nelts - 1;
        let cap = elts.len();
        let hi = raw_index(lo, cap, *nelts);
        assert(before[ring_slot(lo as int, cap as int, n - 1)].is_some());
        let result = elts[hi].take();
        proof {
            let after = elts@;
            assert forall|v: int| 0 <= v < n - 1 implies (#[trigger] after[ring_slot(
                lo as int,
                cap as int,
                v,
            )]) == before[ring_slot(lo as int, cap as int, v)] by {}
            assert forall|v: int| 0 <= v < n - 1 implies (#[trigger] after[ring_slot(
                lo as int,
                cap as int,
                v,
            )]).is_some() by {
                assert(before[ring_slot(lo as int, cap as int, v)].is_some());
            }
            assert(ring_view(*nelts, lo, after) =~= ring_view(n, lo, before).drop_last());
        }
        result
    } else {
        None
    }
}

/// Puts `item` in front of the elements of the ring, enlarging it where it is full.
fn ring_push_front<T>(nelts: &mut usize, lo: &mut usize, elts: &mut Vec<Option<T>>, item: T)
    requires
        ring_wf(*old(nelts), *old(lo), old(elts)@),
    ensures
        ring_wf(*final(nelts), *final(lo), final(elts)@),
        ring_view(*final(nelts), *final(lo), final(elts)@) == seq![item] + ring_view(
            *old(nelts),
            *old(lo),
            old(elts)@,
        ),
        final(elts)@.len() == slots_after_push(*old(nelts) as nat, old(elts)@.len()),
{
    let ghost content = ring_view(*nelts, *lo, elts@);
    if *nelts == elts.len() {
        grow(*nelts, lo, elts);
    }
    let ghost before = elts@;
    let ghost n = *nelts;
    let first = *lo;
    let cap = elts.len();
    if first == 0 {
        *lo = cap - 1;
    } else {
        *lo = first - 1;
    }
    elts[*lo] = Some(item);
    *nelts = *nelts + 1;
    proof {
        let after = elts@;
        assert forall|v: int| 1 <= v < n + 1 implies (#[trigger] after[ring_slot(
            *lo as int,
            cap as int,
            v,
        )]) == before[ring_slot(first as int, cap as int, v - 1)] by {}
        assert forall|v: int| 0 <= v < n + 1 implies (#[trigger] after[ring_slot(
            *lo as int,
            cap as int,
            v,
        )]).is_some() by {
            if v > 0 {
                assert(before[ring_slot(first as int, cap as int, v - 1)].is_some());
            }
        }
        assert(ring_view(*nelts, *lo, after) =~= seq![item] + content);
    }
}

/// Puts `item` behind the elements of the ring, enlarging it where it is full.
fn ring_push_back<T>(nelts: &mut usize, lo: &mut usize, elts: &mut Vec<Option<T>>, item: T)
    requires
        ring_wf(*old(nelts), *old(lo), old(elts)@),
    ensures
        ring_wf(*final(nelts), *final(lo), final(elts)@),
        ring_view(*final(nelts), *final(lo), final(elts)@) == ring_view(
            *old(nelts),
            *old(lo),
            old(elts)@,
        ).push(item),
        final(elts)@.len() == slots_after_push(*old(nelts) as nat, old(elts)@.len()),
{
    let ghost content = ring_view(*nelts, *lo, elts@);
    if *nelts == elts.len() {
        grow(*nelts, lo, elts);
    }
    let ghost before = elts@;
    let ghost n = *nelts;
    let cap = elts.len();
    let hi = raw_index(*lo, cap, *nelts);
    elts[hi] = Some(item);
    *nelts = *nelts + 1;
    proof {
        let after = elts@;
        assert forall|v: int| 0 <= v < n implies (#[trigger] after[ring_slot(
            *lo as int,
            cap as int,
            v,
        )]) == before[ring_slot(*lo as int, cap as int, v)] by {}
        assert forall|v: int| 0 <= v < n + 1 implies (#[trigger] after[ring_slot(
            *lo as int,
            cap as int,
            v,
        )]).is_some() by {
            if v < n {
                assert(before[ring_slot(*lo as int, cap as int, v)].is_some());
            }
        }
        assert(ring_view(*nelts, *lo, after) =~= content.push(item));
    }
}

impl<T> Deque<T> {
    #[verifier::type_invariant]
    spec fn inv(&self) -> bool {
        ring_wf(self.nelts, self.lo, self.elts@)
    }

    /// The elements, front first.
    pub closed spec fn view(&self) -> Seq<T> {
        ring_view(self.nelts, self.lo, self.elts@)
    }

    /// The number of slots of the buffer.
    pub closed spec fn slots(&self) -> nat {
        self.elts@.len()
    }

    /// Returns an empty deque without any slot.
    pub fn new() -> (r: Deque<T>)
        ensures
            r@ == Seq::<T>::empty(),
            r.slots() == 0,
    {
        let r = Deque { nelts: 0, lo: 0, elts: Vec::new() };
        assert(r@ =~= Seq::<T>::empty());
        r
    }

    /// Returns an empty deque with `capacity` slots.
    pub fn with_capacity(capacity: usize) -> (r: Deque<T>)
        ensures
            r@ == Seq::<T>::empty(),
            r.slots() == capacity,
    {
        let mut elts: Vec<Option<T>> = Vec::with_capacity(capacity);
        let mut i: usize = 0;
        while i < capacity
            invariant
                i <= capacity,
                elts@.len() == i,
            decreases capacity - i,
        {
            elts.push(None);
            i = i + 1;
        }
        let r = Deque { nelts: 0, lo: 0, elts };
        assert(r@ =~= Seq::<T>::empty());
        r
    }

    /// Returns the number of slots: how many elements fit before the buffer grows.
    pub fn capacity(&self) -> (n: usize)
        ensures
            n == self.slots(),
            self@.len() <= n,
    {
        proof {
            use_type_invariant(self);
        }
        self.elts.len()
    }

    /// Enlarges the buffer to `capacity` slots where it has fewer. The
    /// elements stay as they are.
    pub fn reserve(&mut self, capacity: usize)
        ensures
            final(self)@ == old(self)@,
            final(self).slots() == if capacity > old(self).slots() {
                capacity as nat
            } else {
                old(self).slots()
            },
    {
        let (mut nelts, mut lo, mut elts) = self.take_parts();
        if capacity > elts.len() {
            let ghost content = ring_view(nelts, lo, elts@);
            let mut fresh: Vec<Option<T>> = Vec::with_capacity(capacity);
            let count = nelts;
            let mut i: usize = 0;
            while i < count
                invariant
                    i <= count,
                    count <= capacity,
                    fresh@.len() == i,
                    ring_wf(nelts, lo, elts@),
                    nelts == count - i,
                    ring_view(nelts, lo, elts@) == content.subrange(i as int, count as int),
                    content.len() == count,
                    forall|k: int| 0 <= k < i ==> fresh@[k] == Some(content[k]),
                decreases count - i,
            {
                let item = ring_pop_front(&mut nelts, &mut lo, &mut elts);
                assert(content.subrange(i as int, count as int).drop_first() =~= content.subrange(
                    i + 1,
                    count as int,
                ));
                fresh.push(item);
                i = i + 1;
            }
            while i < capacity
                invariant
                    count <= i <= capacity,
                    fresh@.len() == i,
                    content.len() == count,
                    forall|k: int| 0 <= k < count ==> fresh@[k] == Some(content[k]),
                decreases capacity - i,
            {
                fresh.push(None);
                i = i + 1;
            }
            assert(ring_view(count, 0, fresh@) =~= content);
            *self = Deque { nelts: count, lo: 0, elts: fresh };
        } else {
            *self = Deque { nelts, lo, elts };
        }
    }

    /// Returns the element at position `index`, counted from the front.
    pub fn get(&self, index: usize) -> (r: Option<&T>)
        ensures
            index < self@.len() ==> r == Some(&self@[index as int]),
            index >= self@.len() ==> r.is_none(),
    {
        proof {
            use_type_invariant(self);
        }
        if index < self.nelts {
            let idx = self.raw_index(index);
            assert(self.elts@[ring_slot(self.lo as int, self.elts@.len() as int, index as int)].is_some());
            self.elts[idx].as_ref()
        } else {
            None
        }
    }

    /// Returns the element at position `index`, counted from the front,
    /// open to change.
    pub fn get_mut(&mut self, index: usize) -> (r: Option<&mut T>)
        ensures
            match r {
                Some(x) => index < old(self)@.len() && *x == old(self)@[index as int] && final(self)@ == old(self)@.update(index as int, *final(x)),
                None => index >= old(self)@.len() && final(self)@ == old(self)@,
            },
            final(self).slots() == old(self).slots(),
    {
        proof {
            use_type_invariant(&*self);
        }
        if index < self.nelts {
            let idx = self.raw_index(index);
            proof {
                let before = self.elts@;
                let cap = before.len() as int;
                assert(before[ring_slot(self.lo as int, cap, index as int)].is_some());
                assert forall|v: T| #[trigger]
                    ring_wf(self.nelts, self.lo, before.update(idx as int, Some(v))) && ring_view(
                        self.nelts,
                        self.lo,
                        before.update(idx as int, Some(v)),
                    ) == ring_view(self.nelts, self.lo, before).update(index as int, v) by {
                    let after = before.update(idx as int, Some(v));
                    assert forall|i: int| 0 <= i < self.nelts implies (#[trigger] after[ring_slot(
                        self.lo as int,
                        cap,
                        i,
                    )]).is_some() by {
                        assert(before[ring_slot(self.lo as int, cap, i)].is_some());
                    }
                    assert(ring_view(self.nelts, self.lo, after) =~= ring_view(
                        self.nelts,
                        self.lo,
                        before,
                    ).update(index as int, v));
                }
            }
            Some(slot_value_mut(&mut self.elts, idx))
        } else {
            None
        }
    }

    /// Exchanges the elements at positions `i` and `j`.
    pub fn swap(&mut self, i: usize, j: usize)
        requires
            i < old(self)@.len(),
            j < old(self)@.len(),
        ensures
            final(self)@ == old(self)@.update(i as int, old(self)@[j as int]).update(
                j as int,
                old(self)@[i as int],
            ),
            final(self).slots() == old(self).slots(),
    {
        let a = self.raw_index(i);
        let b = self.raw_index(j);
        let (nelts, lo, mut elts) = self.take_parts();
        ring_swap(nelts, lo, &mut elts, i, j, a, b);
        *self = Deque { nelts, lo, elts };
    }

    /// Removes and returns the front element; `None` where the deque is empty.
    pub fn pop_front(&mut self) -> (r: Option<T>)
        ensures
            old(self)@.len() == 0 ==> r.is_none() && final(self)@ == old(self)@,
            old(self)@.len() > 0 ==> r == Some(old(self)@.first()) && final(self)@ == old(self)@.drop_first(),
            final(self).slots() == old(self).slots(),
    {
        let (mut nelts, mut lo, mut elts) = self.take_parts();
        let r = ring_pop_front(&mut nelts, &mut lo, &mut elts);
        *self = Deque { nelts, lo, elts };
        r
    }

    /// Removes and returns the back element; `None` where the deque is empty.
    pub fn pop_back(&mut self) -> (r: Option<T>)
        ensures
            old(self)@.len() == 0 ==> r.is_none() && final(self)@ == old(self)@,
            old(self)@.len() > 0 ==> r == Some(old(self)@.last()) && final(self)@ == old(self)@.drop_last(),
            final(self).slots() == old(self).slots(),
    {
        let (mut nelts, lo, mut elts) = self.take_parts();
        let r = ring_pop_back(&mut nelts, lo, &mut elts);
        *self = Deque { nelts, lo, elts };
        r
    }

    /// Puts `item` in front of the other elements. A full buffer doubles
    /// its slots first (an empty one gets four).
    pub fn push_front(&mut self, item: T)
        ensures
            final(self)@ == seq![item] + old(self)@,
            final(self).slots() == slots_after_push(old(self)@.len(), old(self).slots()),
    {
        let (mut nelts, mut lo, mut elts) = self.take_parts();
        ring_push_front(&mut nelts, &mut lo, &mut elts, item);
        *self = Deque { nelts, lo, elts };
    }

    /// Puts `item` behind the other elements. A full buffer doubles its
    /// slots first (an empty one gets four).
    pub fn push_back(&mut self, item: T)
        ensures
            final(self)@ == old(self)@.push(item),
            final(self).slots() == slots_after_push(old(self)@.len(), old(self).slots()),
    {
        let (mut nelts, mut lo, mut elts) = self.take_parts();
        ring_push_back(&mut nelts, &mut lo, &mut elts, item);
        *self = Deque { nelts, lo, elts };
    }

    /// Moves the three parts of the deque out, leaving it empty, so that
    /// they can be worked on before the deque is put together again.
    fn take_parts(&mut self) -> (parts: (usize, usize, Vec<Option<T>>))
        ensures
            ring_wf(parts.0, parts.1, parts.2@),
            ring_view(parts.0, parts.1, parts.2@) == old(self)@,
            parts.2@.len() == old(self).slots(),
            parts.0 == old(self).nelts,
            parts.1 == old(self).lo,
            parts.2 == old(self).elts,
    {
        let mut taken = Deque::new();
        core::mem::swap(self, &mut taken);
        proof {
            use_type_invariant(&taken);
        }
        (taken.nelts, taken.lo, taken.elts)
    }

    /// The slot of the element at position `index`.
    fn raw_index(&self, index: usize) -> (r: usize)
        requires
            index < self@.len(),
        ensures
            r == ring_slot(self.lo as int, self.elts@.len() as int, index as int),
            r < self.elts@.len(),
    {
        proof {
            use_type_invariant(self);
        }
        raw_index(self.lo, self.elts.len(), index)
    }
}

/// Returns the element in the slot `idx`, which is occupied, open to change.
fn slot_value_mut<'a, T>(elts: &'a mut Vec<Option<T>>, idx: usize) -> (r: &'a mut T)
    requires
        idx < old(elts)@.len(),
        old(elts)@[idx as int].is_some(),
    ensures
        *r == old(elts)@[idx as int].unwrap(),
        final(elts)@ == old(elts)@.update(idx as int, Some(*final(r))),
    no_unwind
{
    match &mut elts[idx] {
        Some(item) => item,
        None => vstd::pervasive::unreached(),
    }
}

/// Exchanges the occupants of the slots `a` and `b`, which hold the
/// elements at positions `i` and `j`.
fn ring_swap<T>(nelts: usize, lo: usize, elts: &mut Vec<Option<T>>, i: usize, j: usize, a: usize, b: usize)
    requires
        ring_wf(nelts, lo, old(elts)@),
        i < nelts,
        j < nelts,
        a == ring_slot(lo as int, old(elts)@.len() as int, i as int),
        b == ring_slot(lo as int, old(elts)@.len() as int, j as int),
    ensures
        ring_wf(nelts, lo, final(elts)@),
        final(elts)@.len() == old(elts)@.len(),
        ring_view(nelts, lo, final(elts)@) == ring_view(nelts, lo, old(elts)@).update(
            i as int,
            ring_view(nelts, lo, old(elts)@)[j as int],
        ).update(j as int, ring_view(nelts, lo, old(elts)@)[i as int]),
{
    let ghost before = elts@;
    let ghost cap = elts@.len() as int;
    assert(before[ring_slot(lo as int, cap, i as int)].is_some());
    assert(before[ring_slot(lo as int, cap, j as int)].is_some());
    if a != b {
        let x = elts[a].take();
        let y = elts[b].take();
        elts[a] = y;
        elts[b] = x;
    }
    proof {
        let after = elts@;
        assert forall|v: int| 0 <= v < nelts implies (#[trigger] after[ring_slot(
            lo as int,
            cap,
            v,
        )]).is_some() by {
            assert(before[ring_slot(lo as int, cap, v)].is_some());
        }
        assert(ring_view(nelts, lo, after) =~= ring_view(nelts, lo, before).update(
            i as int,
            ring_view(nelts, lo, before)[j as int],
        ).update(j as int, ring_view(nelts, lo, before)[i as int]));
    }
}

impl<T> Container for Deque<T> {
    open spec fn size(&self) -> nat {
        self@.len()
    }

    fn len(&self) -> (n: usize) {
        self.nelts
    }
}

} // verus!
