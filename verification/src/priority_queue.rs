//! A priority queue implemented with a binary heap.
//!
//! The heap lives in a vector: the children of position `i` are at `2i + 1`
//! and `2i + 2`, and no child is above its parent in the order of `T`.
use vstd::prelude::*;
use vstd::multiset::Multiset;
use vstd::seq_lib::to_multiset_update;
use crate::order::{at_least, lemma_at_least_transitive};
use crate::container::Container;
use crate::slice::swap;

verus! {

/// The position of the parent of position `i` in the heap.
pub open spec fn parent(i: int) -> int {
    (i - 1) / 2
}

/// The element at position `c` is not above the one at its parent's position.
pub open spec fn child_ok<T: crate::order::Ord>(s: Seq<T>, c: int) -> bool {
    at_least(s[parent(c)], s[c])
}

/// Heap order among the first `end` elements, for every child whose parent
/// is at position `start` or later.
pub open spec fn heap_between<T: crate::order::Ord>(s: Seq<T>, start: int, end: int) -> bool {
    forall|c: int| 1 <= c < end && parent(c) >= start ==> #[trigger] child_ok(s, c)
}

/// Position `d` is `a` or lies below it in the heap.
spec fn is_below(a: int, d: int) -> bool
    decreases d,
{
    if d <= a {
        d == a
    } else if d <= 0 {
        false
    } else {
        is_below(a, parent(d))
    }
}

/// `m` is in `s` and nothing in `s` is above it.
pub open spec fn is_maximum<T: crate::order::Ord>(m: T, s: Multiset<T>) -> bool {
    &&& s.contains(m)
    &&& forall|x: T| s.contains(x) ==> at_least(m, x)
}

/// No element of `s` is above one that comes after it.
pub open spec fn is_ascending<T: crate::order::Ord>(s: Seq<T>) -> bool {
    forall|i: int, j: int| 0 <= i <= j < s.len() ==> at_least(#[trigger] s[j], #[trigger] s[i])
}

/// Exchanging two elements of a sequence keeps what it holds.
proof fn lemma_swap_keeps_multiset<T>(s: Seq<T>, a: int, b: int)
    requires
        0 <= a < s.len(),
        0 <= b < s.len(),
    ensures
        s.update(a, s[b]).update(b, s[a]).to_multiset() == s.to_multiset(),
{
    broadcast use vstd::multiset::group_multiset_axioms;

    let s1 = s.update(a, s[b]);
    to_multiset_update(s, a, s[b]);
    to_multiset_update(s1, b, s[a]);
    s.to_multiset_ensures();
    assert(s.contains(s[a]));
    assert(s.contains(s[b]));
    if a == b {
        assert(s1.update(b, s[a]) =~= s);
    } else {
        assert(s1[b] == s[b]);
        assert(s1.update(b, s[a]).to_multiset() =~= s.to_multiset());
    }
}

/// In a heap the first element is not below any other.
pub proof fn lemma_root_is_largest<T: crate::order::Ord>(s: Seq<T>, end: int, i: int)
    requires
        heap_between(s, 0, end),
        0 <= i < end <= s.len(),
    ensures
        at_least(s[0], s[i]),
    decreases i,
{
    if i == 0 {
        T::lemma_irreflexive(s[0]);
    } else {
        lemma_root_is_largest(s, end, parent(i));
        assert(child_ok(s, i));
        lemma_at_least_transitive(s[0], s[parent(i)], s[i]);
    }
}

/// The first element of a non-empty heap is a maximum of what the heap holds.
pub proof fn lemma_root_is_maximum<T: crate::order::Ord>(s: Seq<T>)
    requires
        heap_between(s, 0, s.len() as int),
        s.len() > 0,
    ensures
        is_maximum(s[0], s.to_multiset()),
{
    s.to_multiset_ensures();
    assert(s.contains(s[0]));
    assert forall|x: T| s.to_multiset().contains(x) implies at_least(s[0], x) by {
        assert(s.contains(x));
        let i = choose|i: int| 0 <= i < s.len() && s[i] == x;
        lemma_root_is_largest(s, s.len() as int, i);
    }
}

/// The first child of `pos` among the first `end` positions, or `end` where
/// `pos` has none there.
fn first_child(pos: usize, end: usize) -> (c: usize)
    requires
        pos < end,
    ensures
        c == if 2 * pos + 1 < end { 2 * pos + 1 } else { end as int },
{
    if pos < end - pos - 1 {
        2 * pos + 1
    } else {
        end
    }
}

/// A priority queue: `pop` hands out a largest element. Its view is the
/// multiset of its elements.
pub struct PriorityQueue<T: crate::order::Ord> {
    data: Vec<T>,
}

impl<T: crate::order::Ord> PriorityQueue<T> {
    #[verifier::type_invariant]
    spec fn inv(&self) -> bool {
        heap_between(self.data@, 0, self.data@.len() as int)
    }

    /// The elements, each as often as it is in the queue.
    pub closed spec fn view(&self) -> Multiset<T> {
        self.data@.to_multiset()
    }

    /// Returns the number of elements.
    pub fn len(&self) -> (n: usize)
        ensures
            n == self@.len(),
    {
        proof {
            self.data@.to_multiset_ensures();
        }
        self.data.len()
    }

    /// Returns how many elements fit before the vector has to grow.
    pub fn capacity(&self) -> (n: usize)
        ensures
            n >= self@.len(),
    {
        proof {
            self.data@.to_multiset_ensures();
        }
        vec_capacity(&self.data)
    }

    /// Makes room for `n` elements in all. The elements stay as they are.
    pub fn reserve(&mut self, n: usize)
        ensures
            final(self)@ == old(self)@,
    {
        let mut data = self.take_data();
        let held = data.len();
        if n > held {
            data.reserve(n - held);
        }
        *self = PriorityQueue { data };
    }

    /// Returns a largest element, without removing it; `None` where the
    /// queue is empty.
    pub fn top(&self) -> (r: Option<&T>)
        ensures
            self@.len() == 0 ==> r.is_none(),
            self@.len() > 0 ==> r.is_some() && is_maximum(*r.unwrap(), self@),
    {
        proof {
            use_type_invariant(self);
            self.data@.to_multiset_ensures();
        }
        if self.data.len() == 0 {
            None
        } else {
            proof {
                lemma_root_is_maximum(self.data@);
            }
            Some(&self.data[0])
        }
    }

    /// Puts `item` into the queue.
    pub fn push(&mut self, item: T)
        ensures
            final(self)@ == old(self)@.insert(item),
    {
        let mut data = self.take_data();
        let ghost before = data@;
        data.push(item);
        let new_len = data.len() - 1;
        proof {
            before.to_multiset_ensures();
            assert forall|c: int| 1 <= c < data@.len() && parent(c) >= 0 && c != new_len implies #[trigger] child_ok(
                data@,
                c,
            ) by {
                assert(child_ok(before, c));
            }
            lemma_is_below_root(new_len as int);
        }
        let ghost end = data.len();
        Self::siftup(&mut data, 0, new_len, Ghost(end));
        *self = PriorityQueue { data };
    }

    /// Removes and returns a largest element; `None` where the queue is empty.
    pub fn pop(&mut self) -> (r: Option<T>)
        ensures
            old(self)@.len() == 0 ==> r.is_none() && final(self)@ == old(self)@,
            old(self)@.len() > 0 ==> r.is_some() && is_maximum(r.unwrap(), old(self)@)
                && final(self)@ == old(self)@.remove(r.unwrap()),
    {
        let mut data = self.take_data();
        let ghost before = data@;
        proof {
            before.to_multiset_ensures();
        }
        if data.len() == 0 {
            *self = PriorityQueue { data };
            None
        } else {
            proof {
                lemma_root_is_maximum(before);
            }
            let mut item = data.pop().unwrap();
            let ghost shorter = data@;
            proof {
                assert(before =~= shorter.push(item));
                shorter.to_multiset_ensures();
            }
            if data.len() != 0 {
                core::mem::swap(&mut item, &mut data[0]);
                proof {
                    broadcast use vstd::multiset::group_multiset_axioms;

                    to_multiset_update(shorter, 0, before.last());
                    assert(data@ =~= shorter.update(0, before.last()));
                    assert(item == before[0]);
                    assert(data@.to_multiset() =~= before.to_multiset().remove(item));
                    assert forall|c: int| 1 <= c < data@.len() && parent(c) >= 1 implies #[trigger] child_ok(
                        data@,
                        c,
                    ) by {
                        assert(child_ok(before, c));
                    }
                }
                Self::siftdown(&mut data, 0);
            } else {
                proof {
                    broadcast use vstd::multiset::group_multiset_axioms;

                    assert(before =~= seq![item]);
                    assert(data@.to_multiset() =~= before.to_multiset().remove(item));
                }
            }
            *self = PriorityQueue { data };
            Some(item)
        }
    }

    /// Hands out the elements as a vector, in heap order.
    pub fn to_vec(self) -> (v: Vec<T>)
        ensures
            v@.to_multiset() == self@,
            heap_between(v@, 0, v@.len() as int),
    {
        proof {
            use_type_invariant(&self);
        }
        self.data
    }

    /// Hands out the elements as a vector, smallest first.
    pub fn to_sorted_vec(self) -> (v: Vec<T>)
        ensures
            v@.to_multiset() == self@,
            is_ascending(v@),
    {
        proof {
            use_type_invariant(&self);
        }
        let mut data = self.data;
        let ghost before = data@;
        let mut end = data.len();
        while end > 1
            invariant
                end <= data@.len(),
                data@.len() == before.len(),
                data@.to_multiset() == before.to_multiset(),
                heap_between(data@, 0, end as int),
                forall|i: int, j: int|
                    0 <= i <= j < data@.len() && end <= j ==> at_least(
                        #[trigger] data@[j],
                        #[trigger] data@[i],
                    ),
            decreases end,
        {
            end = end - 1;
            let ghost heap = data@;
            proof {
                lemma_swap_keeps_multiset(heap, 0, end as int);
                assert forall|i: int| 0 <= i <= end implies at_least(heap[0], #[trigger] heap[i]) by {
                    lemma_root_is_largest(heap, end + 1, i);
                }
            }
            swap(data.as_mut_slice(), 0, end);
            let ghost swapped = data@;
            proof {
                assert forall|c: int| 1 <= c < end && parent(c) >= 1 implies #[trigger] child_ok(
                    swapped,
                    c,
                ) by {
                    assert(child_ok(heap, c));
                }
            }
            if end > 0 {
                Self::siftdown_range(&mut data, 0, end);
            }
            proof {
                let sifted = data@;
                sifted.to_multiset_ensures();
                swapped.to_multiset_ensures();
                assert forall|i: int, j: int|
                    0 <= i <= j < sifted.len() && end <= j implies at_least(
                    #[trigger] sifted[j],
                    #[trigger] sifted[i],
                ) by {
                    assert(sifted[j] == swapped[j]);
                    if i >= end {
                        assert(sifted[i] == swapped[i]);
                        if i == end {
                            if j == end {
                                T::lemma_irreflexive(sifted[j]);
                            } else {
                                assert(at_least(heap[j], heap[0]));
                            }
                        } else {
                            assert(at_least(heap[j], heap[i]));
                        }
                    } else {
                        // sifted[i] is one of the first `end` elements of `swapped`
                        lemma_prefix_member(swapped, sifted, end as int, i);
                        let k = choose|k: int| 0 <= k < end && swapped[k] == sifted[i];
                        if j == end {
                            if k == 0 {
                                assert(swapped[0] == heap[end as int]);
                            } else {
                                assert(swapped[k] == heap[k]);
                            }
                        } else {
                            if k == 0 {
                                assert(swapped[0] == heap[end as int]);
                                assert(at_least(heap[j], heap[end as int]));
                            } else {
                                assert(swapped[k] == heap[k]);
                                assert(at_least(heap[j], heap[k]));
                            }
                        }
                    }
                }
            }
        }
        proof {
            assert forall|i: int, j: int| 0 <= i <= j < data@.len() implies at_least(
                #[trigger] data@[j],
                #[trigger] data@[i],
            ) by {
                if j == 0 {
                    T::lemma_irreflexive(data@[0]);
                }
            }
        }
        data
    }

    /// Returns an empty queue.
    pub fn new() -> (r: PriorityQueue<T>)
        ensures
            r@ == Multiset::<T>::empty(),
    {
        let r = PriorityQueue { data: Vec::new() };
        assert(r.data@.to_multiset() =~= Multiset::<T>::empty()) by {
            r.data@.to_multiset_ensures();
            broadcast use vstd::multiset::group_multiset_axioms;

        }
        r
    }

    /// Returns an empty queue with room for `capacity` elements.
    pub fn with_capacity(capacity: usize) -> (r: PriorityQueue<T>)
        ensures
            r@ == Multiset::<T>::empty(),
    {
        let r = PriorityQueue { data: Vec::with_capacity(capacity) };
        assert(r.data@.to_multiset() =~= Multiset::<T>::empty()) by {
            r.data@.to_multiset_ensures();
            broadcast use vstd::multiset::group_multiset_axioms;

        }
        r
    }

    /// Makes a queue of the elements of `xs`.
    pub fn from_vec(xs: Vec<T>) -> (r: PriorityQueue<T>)
        ensures
            r@ == xs@.to_multiset(),
    {
        let mut data = xs;
        let len = data.len();
        let mut n = len / 2;
        assert forall|c: int| 1 <= c < len && parent(c) >= n implies #[trigger] child_ok(data@, c) by {
            assert(false);
        }
        while n > 0
            invariant
                n <= len,
                data@.len() == len,
                data@.to_multiset() == xs@.to_multiset(),
                heap_between(data@, n as int, len as int),
            decreases n,
        {
            n = n - 1;
            Self::siftdown(&mut data, n);
        }
        PriorityQueue { data }
    }

    /// Moves the element at `pos` up, towards `start`, until its parent is
    /// not below it.
    fn siftup(data: &mut Vec<T>, start: usize, pos: usize, Ghost(end): Ghost<usize>)
        requires
            pos < end <= old(data)@.len(),
            is_below(start as int, pos as int),
            forall|c: int|
                1 <= c < end && parent(c) >= start && c != pos ==> #[trigger] child_ok(old(data)@, c),
            pos > start ==> forall|c: int|
                1 <= c < end && parent(c) == pos ==> at_least(
                    old(data)@[parent(pos as int)],
                    #[trigger] old(data)@[c],
                ),
        ensures
            final(data)@.len() == old(data)@.len(),
            final(data)@.to_multiset() == old(data)@.to_multiset(),
            heap_between(final(data)@, start as int, end as int),
            forall|k: int| end <= k < old(data)@.len() ==> final(data)@[k] == old(data)@[k],
    {
        let mut pos = pos;
        let ghost before = data@;
        while pos > start
            invariant_except_break
                pos < end <= data@.len(),
                is_below(start as int, pos as int),
                forall|c: int|
                    1 <= c < end && parent(c) >= start && c != pos ==> #[trigger] child_ok(data@, c),
                pos > start ==> forall|c: int|
                    1 <= c < end && parent(c) == pos ==> at_least(
                        data@[parent(pos as int)],
                        #[trigger] data@[c],
                    ),
            invariant
                data@.len() == before.len(),
                data@.to_multiset() == before.to_multiset(),
                forall|k: int| end <= k < before.len() ==> data@[k] == before[k],
            ensures
                heap_between(data@, start as int, end as int),
            decreases pos,
        {
            let up = (pos - 1) / 2;
            proof {
                assert(is_below(start as int, parent(pos as int)));
            }
            if data[pos].gt(&data[up]) {
                let ghost s = data@;
                proof {
                    lemma_swap_keeps_multiset(s, up as int, pos as int);
                }
                swap(data.as_mut_slice(), up, pos);
                proof {
                    let t = data@;
                    let x = s[pos as int];
                    let y = s[up as int];
                    assert(at_least(x, y)) by {
                        T::lemma_transitive(x, y, x);
                        T::lemma_irreflexive(x);
                    }
                    assert forall|c: int|
                        1 <= c < end && parent(c) >= start && c != up implies #[trigger] child_ok(
                        t,
                        c,
                    ) by {
                        if c == pos {
                        } else if parent(c) == pos {
                            assert(at_least(s[parent(pos as int)], s[c]));
                        } else if parent(c) == up {
                            assert(child_ok(s, c));
                            lemma_at_least_transitive(x, y, s[c]);
                        } else {
                            assert(child_ok(s, c));
                        }
                    }
                    if up > start {
                        assert(is_below(start as int, parent(up as int)));
                        assert(child_ok(s, up as int));
                        assert forall|c: int| 1 <= c < end && parent(c) == up implies at_least(
                            t[parent(up as int)],
                            #[trigger] t[c],
                        ) by {
                            if c == pos {
                            } else {
                                assert(child_ok(s, c));
                                lemma_at_least_transitive(s[parent(up as int)], y, s[c]);
                            }
                        }
                    }
                }
                pos = up;
            } else {
                proof {
                    assert(child_ok(data@, pos as int));
                }
                break ;
            }
        }
    }

    /// Moves the element at `pos` down to the bottom of the first `end`
    /// elements, each time raising the larger child, and then up again to
    /// where it belongs.
    fn siftdown_range(data: &mut Vec<T>, pos: usize, end: usize)
        requires
            pos < end <= old(data)@.len(),
            heap_between(old(data)@, pos + 1, end as int),
        ensures
            final(data)@.len() == old(data)@.len(),
            final(data)@.to_multiset() == old(data)@.to_multiset(),
            heap_between(final(data)@, pos as int, end as int),
            forall|k: int| end <= k < old(data)@.len() ==> final(data)@[k] == old(data)@[k],
    {
        let start = pos;
        let mut pos = pos;
        let ghost before = data@;
        let mut child = first_child(pos, end);
        while child < end
            invariant
                start <= pos < end <= data@.len(),
                child == if 2 * pos + 1 < end { 2 * pos + 1 } else { end as int },
                is_below(start as int, pos as int),
                data@.len() == before.len(),
                data@.to_multiset() == before.to_multiset(),
                forall|k: int| end <= k < before.len() ==> data@[k] == before[k],
                forall|c: int|
                    1 <= c < end && parent(c) >= start && parent(c) != pos && c != pos
                        ==> #[trigger] child_ok(data@, c),
                pos > start ==> forall|c: int|
                    1 <= c < end && parent(c) == pos ==> at_least(
                        data@[parent(pos as int)],
                        #[trigger] data@[c],
                    ),
            decreases end - pos,
        {
            let left = child;
            let right = child + 1;
            if right < end && !data[child].gt(&data[right]) {
                child = right;
            }
            let ghost s = data@;
            proof {
                lemma_swap_keeps_multiset(s, child as int, pos as int);
            }
            swap(data.as_mut_slice(), child, pos);
            proof {
                let t = data@;
                let m = child as int;
                assert(parent(m) == pos);
                assert forall|c: int|
                    1 <= c < end && parent(c) >= start && parent(c) != m && c != m
                    implies #[trigger] child_ok(t, c) by {
                    if parent(c) == pos {
                        // the other child of `pos`
                        if c == right {
                            let l = s[left as int];
                            let r = s[right as int];
                            T::lemma_transitive(l, r, l);
                            T::lemma_irreflexive(l);
                        } else {
                            assert(c == left);
                        }
                    } else if c == pos {
                        assert(at_least(s[parent(pos as int)], s[m]));
                    } else {
                        assert(child_ok(s, c));
                    }
                }
                assert forall|c: int| 1 <= c < end && parent(c) == m implies at_least(
                    t[parent(m)],
                    #[trigger] t[c],
                ) by {
                    assert(child_ok(s, c));
                }
                assert(is_below(start as int, m));
            }
            pos = child;
            child = first_child(pos, end);
        }
        Self::siftup(data, start, pos, Ghost(end));
    }

    /// Moves the element at `pos` down to where it belongs in the whole heap.
    fn siftdown(data: &mut Vec<T>, pos: usize)
        requires
            pos < old(data)@.len(),
            heap_between(old(data)@, pos + 1, old(data)@.len() as int),
        ensures
            final(data)@.len() == old(data)@.len(),
            final(data)@.to_multiset() == old(data)@.to_multiset(),
            heap_between(final(data)@, pos as int, old(data)@.len() as int),
    {
        let len = data.len();
        Self::siftdown_range(data, pos, len);
    }

    /// Moves the vector out, leaving the queue empty, so that it can be
    /// worked on before the queue is put together again.
    fn take_data(&mut self) -> (data: Vec<T>)
        ensures
            data@.to_multiset() == old(self)@,
            heap_between(data@, 0, data@.len() as int),
    {
        let mut taken = PriorityQueue::new();
        core::mem::swap(self, &mut taken);
        proof {
            use_type_invariant(&taken);
        }
        taken.data
    }
}

/// Every position is the root or lies below it.
proof fn lemma_is_below_root(d: int)
    requires
        0 <= d,
    ensures
        is_below(0, d),
    decreases d,
{
    if d > 0 {
        lemma_is_below_root(parent(d));
    }
}

/// Where two sequences hold the same elements and agree from `end` on, each
/// of the first `end` elements of the one is among the first `end` of the other.
proof fn lemma_prefix_member<T>(a: Seq<T>, b: Seq<T>, end: int, i: int)
    requires
        a.len() == b.len(),
        0 <= i < end <= a.len(),
        a.to_multiset() == b.to_multiset(),
        forall|k: int| end <= k < a.len() ==> a[k] == b[k],
    ensures
        exists|k: int| 0 <= k < end && a[k] == b[i],
{
    broadcast use vstd::multiset::group_multiset_axioms;

    let a1 = a.subrange(0, end);
    let a2 = a.subrange(end, a.len() as int);
    let b1 = b.subrange(0, end);
    let b2 = b.subrange(end, b.len() as int);
    assert(a =~= a1 + a2);
    assert(b =~= b1 + b2);
    assert(a2 =~= b2);
    vstd::seq_lib::lemma_multiset_commutative(a1, a2);
    vstd::seq_lib::lemma_multiset_commutative(b1, b2);
    assert(a1.to_multiset() =~= b1.to_multiset()) by {
        assert forall|x: T| a1.to_multiset().count(x) == b1.to_multiset().count(x) by {
            assert(a.to_multiset().count(x) == a1.to_multiset().count(x) + a2.to_multiset().count(x));
            assert(b.to_multiset().count(x) == b1.to_multiset().count(x) + b2.to_multiset().count(x));
        }
    }
    a1.to_multiset_ensures();
    b1.to_multiset_ensures();
    assert(b1[i] == b[i]);
    assert(b1.contains(b[i]));
    assert(b1.to_multiset().count(b[i]) > 0);
    assert(a1.to_multiset().count(b[i]) > 0);
    assert(a1.contains(b[i]));
    let k = choose|k: int| 0 <= k < a1.len() && a1[k] == b[i];
    assert(a[k] == b[i]);
}

impl<T: crate::order::Ord> Container for PriorityQueue<T> {
    open spec fn size(&self) -> nat {
        self@.len()
    }

    fn len(&self) -> (n: usize) {
        PriorityQueue::len(self)
    }
}

/// `Vec::capacity` of std: the number of elements that the vector can hold
/// without allocating again, which is never less than its length.
#[verifier::external_body]
fn vec_capacity<T>(v: &Vec<T>) -> (n: usize)
    ensures
        n >= v@.len(),
{
    v.capacity()
}

} // verus!
