//! Concurrent data structures: blocking queues and hash maps that threads
//! share through handles.
//!
//! Each structure keeps its state behind one lock, and no operation holds
//! two locks. What a thread finds behind the lock is whatever the threads
//! before it left there, so the functions on handles promise little about
//! the values they return. What a single operation does to the state is
//! stated by the functions on the state itself: the containers, and
//! `BoundedState` for the bounded queues. That the state is consistent
//! whenever a thread finds it is a matter of its type: every value of a
//! container type, and of `BoundedState`, meets the invariant of the type.
use vstd::prelude::*;
use crate::arc::Arc;
use crate::container::Container;
use crate::deque::Deque;
use crate::hash::HashMap;
use crate::priority_queue::{is_maximum, PriorityQueue};
use crate::thread::{Cond, Mutex, TimeoutStatus};
use crate::time::Time;

verus! {

/// A container with one way in and one way out.
pub trait GenericQueue: Container + Sized {
    /// What goes in and comes out.
    type Item;

    /// `after` is the queue once `item` went in.
    spec fn pushed(&self, item: Self::Item, after: &Self) -> bool;

    /// `after` is the queue once `item` came out.
    spec fn popped(&self, item: Self::Item, after: &Self) -> bool;

    /// Returns an empty queue.
    fn generic_new() -> (r: Self)
        ensures
            r.size() == 0,
    ;

    /// Puts `item` into the queue.
    fn generic_push(&mut self, item: Self::Item)
        ensures
            old(self).pushed(item, final(self)),
            final(self).size() == old(self).size() + 1,
    ;

    /// Takes the next item out of the queue; `None` where the queue is empty.
    fn generic_pop(&mut self) -> (r: Option<Self::Item>)
        ensures
            old(self).size() == 0 ==> r.is_none() && final(self).size() == 0,
            old(self).size() > 0 ==> r.is_some() && old(self).popped(r.unwrap(), final(self))
                && final(self).size() == old(self).size() - 1,
    ;
}

impl<T> GenericQueue for Deque<T> {
    type Item = T;

    /// The item goes to the back.
    open spec fn pushed(&self, item: T, after: &Self) -> bool {
        after@ == self@.push(item)
    }

    /// The item comes from the front.
    open spec fn popped(&self, item: T, after: &Self) -> bool {
        self@.len() > 0 && item == self@.first() && after@ == self@.drop_first()
    }

    fn generic_new() -> (r: Self) {
        Deque::new()
    }

    fn generic_push(&mut self, item: T) {
        self.push_back(item)
    }

    fn generic_pop(&mut self) -> (r: Option<T>) {
        self.pop_front()
    }
}

impl<T: crate::order::Ord> GenericQueue for PriorityQueue<T> {
    type Item = T;

    /// The item joins the others.
    open spec fn pushed(&self, item: T, after: &Self) -> bool {
        after@ == self@.insert(item)
    }

    /// The item is a largest one.
    open spec fn popped(&self, item: T, after: &Self) -> bool {
        is_maximum(item, self@) && after@ == self@.remove(item)
    }

    fn generic_new() -> (r: Self) {
        PriorityQueue::new()
    }

    fn generic_push(&mut self, item: T) {
        proof {
            broadcast use vstd::multiset::group_multiset_axioms;

        }
        self.push(item)
    }

    fn generic_pop(&mut self) -> (r: Option<T>) {
        proof {
            broadcast use vstd::multiset::group_multiset_axioms;

        }
        self.pop()
    }
}

/// Returns `true` where the queue holds no item: what a thread that wants
/// an item has to wait out.
fn has_no_item<Q: GenericQueue>(queue: &Q) -> (b: bool)
    ensures
        b == (queue.size() == 0),
{
    queue.is_empty()
}

/// What the handles of an unbounded queue share.
#[verifier::reject_recursive_types(Q)]
pub struct QueueBox<Q> {
    queue: Mutex<Q>,
    not_empty: Cond,
}

/// A handle to an unbounded blocking queue over the container `Q`.
#[verifier::reject_recursive_types(Q)]
pub struct QueuePtr<Q> {
    ptr: Arc<QueueBox<Q>>,
}

impl<Q> QueueBox<Q> {
    /// The condition variable is one of the lock.
    #[verifier::type_invariant]
    spec fn inv(&self) -> bool {
        self.not_empty.lock() == self.queue.id()
    }
}

impl<Q: GenericQueue> QueuePtr<Q> {
    /// Returns the first handle to a queue that starts as `queue`.
    pub fn new(queue: Q) -> (r: QueuePtr<Q>) {
        let queue = Mutex::new(queue);
        let not_empty = queue.cond();
        QueuePtr { ptr: Arc::new(QueueBox { queue, not_empty }) }
    }

    /// What a `pop` that has waited does to the queue: it takes the next
    /// item out, which is there.
    pub fn pop_after_wait(queue: &mut Q) -> (r: Q::Item)
        requires
            old(queue).size() > 0,
        ensures
            old(queue).popped(r, final(queue)),
            final(queue).size() == old(queue).size() - 1,
    {
        match queue.generic_pop() {
            Some(item) => item,
            None => vstd::pervasive::unreached(),
        }
    }

    /// What a `pop_timeout` does to the queue once its wait is over: it
    /// takes the next item out where there is one, whatever has ended the
    /// wait, and gives up only where the queue is still empty.
    pub fn pop_after_timed_wait(queue: &mut Q, status: TimeoutStatus) -> (r: Option<Q::Item>)
        requires
            status == TimeoutStatus::NoTimeout ==> old(queue).size() > 0,
        ensures
            old(queue).size() == 0 ==> r.is_none() && *final(queue) == *old(queue),
            old(queue).size() > 0 ==> r.is_some() && old(queue).popped(r.unwrap(), final(queue))
                && final(queue).size() == old(queue).size() - 1,
    {
        if queue.is_empty() {
            None
        } else {
            Some(Self::pop_after_wait(queue))
        }
    }

    /// Takes the next item out of the queue, waiting until there is one.
    pub fn pop(&self) -> (r: Q::Item) {
        let shared = self.ptr.borrow();
        proof {
            use_type_invariant(shared);
        }
        let mut guard = shared.queue.lock_guard();
        let queue = shared.not_empty.wait_guard(&mut guard, has_no_item::<Q>);
        Self::pop_after_wait(queue)
    }

    /// Takes the next item out of the queue; `None` where the queue is empty.
    pub fn try_pop(&self) -> (r: Option<Q::Item>) {
        let shared = self.ptr.borrow();
        let mut guard = shared.queue.lock_guard();
        guard.get().generic_pop()
    }

    /// Takes the next item out of the queue, waiting until there is one,
    /// but no longer than `reltime`: the deadline of the wait is now and
    /// `reltime`. `None` where the queue is still empty when the wait ends.
    pub fn pop_timeout(&self, reltime: Time) -> (r: Option<Q::Item>)
        requires
            reltime.is_normal(),
    {
        let shared = self.ptr.borrow();
        proof {
            use_type_invariant(shared);
        }
        let abstime = shared.not_empty.now().after(&reltime);
        let mut guard = shared.queue.lock_guard();
        let (status, queue) = shared.not_empty.wait_until_guard(&mut guard, abstime, has_no_item::<Q>);
        Self::pop_after_timed_wait(queue, status)
    }

    /// Puts `item` into the queue and wakes a thread that waits for one.
    pub fn push(&self, item: Q::Item) {
        let shared = self.ptr.borrow();
        let mut guard = shared.queue.lock_guard();
        guard.get().generic_push(item);
        shared.not_empty.signal()
    }
}

impl<Q> crate::clone::Clone for QueuePtr<Q> {
    fn clone(&self) -> (r: QueuePtr<Q>) {
        QueuePtr { ptr: crate::clone::Clone::clone(&self.ptr) }
    }
}

/// An unbounded, blocking concurrent queue. Items come out in the order in
/// which they went in.
#[verifier::reject_recursive_types(T)]
pub struct Queue<T> {
    ptr: QueuePtr<Deque<T>>,
}

impl<T> Queue<T> {
    /// Returns the first handle to a new, empty queue.
    pub fn new() -> (r: Queue<T>) {
        Queue { ptr: QueuePtr::new(Deque::new()) }
    }

    /// Takes the item at the front out of the queue, waiting until there is one.
    pub fn pop(&self) -> (r: T) {
        self.ptr.pop()
    }

    /// Takes the item at the front out of the queue; `None` where the queue
    /// is empty.
    pub fn try_pop(&self) -> (r: Option<T>) {
        self.ptr.try_pop()
    }

    /// Takes the item at the front out of the queue, waiting until there is
    /// one, but no longer than `reltime`; `None` where the queue is
    /// still empty when the wait ends.
    pub fn pop_timeout(&self, reltime: Time) -> (r: Option<T>)
        requires
            reltime.is_normal(),
    {
        self.ptr.pop_timeout(reltime)
    }

    /// Puts `item` at the back of the queue.
    pub fn push(&self, item: T) {
        self.ptr.push(item)
    }
}

impl<T> crate::clone::Clone for Queue<T> {
    /// Returns one more handle to the same queue.
    fn clone(&self) -> (r: Queue<T>) {
        Queue { ptr: crate::clone::Clone::clone(&self.ptr) }
    }
}

/// An unbounded, blocking concurrent priority queue. A largest item comes
/// out first.
#[verifier::reject_recursive_types(T)]
pub struct BlockingPriorityQueue<T: crate::order::Ord> {
    ptr: QueuePtr<PriorityQueue<T>>,
}

impl<T: crate::order::Ord> BlockingPriorityQueue<T> {
    /// Returns the first handle to a new, empty queue.
    pub fn new() -> (r: BlockingPriorityQueue<T>) {
        BlockingPriorityQueue { ptr: QueuePtr::new(PriorityQueue::new()) }
    }

    /// Takes a largest item out of the queue, waiting until there is one.
    pub fn pop(&self) -> (r: T) {
        self.ptr.pop()
    }

    /// Takes a largest item out of the queue; `None` where the queue is empty.
    pub fn try_pop(&self) -> (r: Option<T>) {
        self.ptr.try_pop()
    }

    /// Takes a largest item out of the queue, waiting until there is one,
    /// but no longer than `reltime`; `None` where the queue is
    /// still empty when the wait ends.
    pub fn pop_timeout(&self, reltime: Time) -> (r: Option<T>)
        requires
            reltime.is_normal(),
    {
        self.ptr.pop_timeout(reltime)
    }

    /// Puts `item` into the queue.
    pub fn push(&self, item: T) {
        self.ptr.push(item)
    }
}

impl<T: crate::order::Ord> crate::clone::Clone for BlockingPriorityQueue<T> {
    /// Returns one more handle to the same queue.
    fn clone(&self) -> (r: BlockingPriorityQueue<T>) {
        BlockingPriorityQueue { ptr: crate::clone::Clone::clone(&self.ptr) }
    }
}

/// The state of a bounded queue: a container and the number of items that
/// it may hold at most. The container never holds more.
pub struct BoundedState<Q: GenericQueue> {
    deque: Q,
    maximum: usize,
}

impl<Q: GenericQueue> BoundedState<Q> {
    #[verifier::type_invariant]
    spec fn inv(&self) -> bool {
        self.deque.size() <= self.maximum
    }

    /// The container.
    pub closed spec fn queue(&self) -> Q {
        self.deque
    }

    /// The number of items that the queue may hold at most.
    pub closed spec fn maximum(&self) -> usize {
        self.maximum
    }

    /// Returns the state of a queue that starts as `queue` and may hold
    /// `maximum` items.
    pub fn new(maximum: usize, queue: Q) -> (r: BoundedState<Q>)
        requires
            queue.size() <= maximum,
        ensures
            r.queue() == queue,
            r.maximum() == maximum,
    {
        BoundedState { deque: queue, maximum }
    }

    /// Returns the number of items in the queue, which is never above the maximum.
    pub fn len(&self) -> (n: usize)
        ensures
            n == self.queue().size(),
            n <= self.maximum(),
    {
        proof {
            use_type_invariant(self);
        }
        self.deque.len()
    }

    /// Returns the number of items that the queue may hold at most.
    pub fn limit(&self) -> (n: usize)
        ensures
            n == self.maximum(),
    {
        self.maximum
    }

    /// Returns `true` where the queue holds as many items as it may.
    pub fn is_full(&self) -> (b: bool)
        ensures
            b == (self.queue().size() == self.maximum()),
    {
        self.deque.len() == self.maximum
    }

    /// Returns `true` where the queue holds no item.
    pub fn is_empty(&self) -> (b: bool)
        ensures
            b == (self.queue().size() == 0),
    {
        self.deque.is_empty()
    }

    /// Puts `item` into the queue where it is not full. Returns `None` then,
    /// and the item itself where the queue is full, which stays as it is.
    pub fn try_push(&mut self, item: Q::Item) -> (r: Option<Q::Item>)
        ensures
            final(self).maximum() == old(self).maximum(),
            old(self).queue().size() <= old(self).maximum(),
            final(self).queue().size() <= final(self).maximum(),
            old(self).queue().size() == old(self).maximum() ==> r == Some(item) && final(self).queue() == old(self).queue(),
            old(self).queue().size() < old(self).maximum() ==> r.is_none() && old(self).queue().pushed(item, &final(self).queue()) && final(self).queue().size() == old(self).queue().size() + 1,
    {
        let (mut deque, maximum) = self.take_parts();
        if deque.len() == maximum {
            *self = BoundedState { deque, maximum };
            Some(item)
        } else {
            deque.generic_push(item);
            *self = BoundedState { deque, maximum };
            None
        }
    }

    /// Takes the next item out of the queue; `None` where the queue is empty.
    pub fn try_pop(&mut self) -> (r: Option<Q::Item>)
        ensures
            final(self).maximum() == old(self).maximum(),
            old(self).queue().size() <= old(self).maximum(),
            final(self).queue().size() <= final(self).maximum(),
            old(self).queue().size() == 0 ==> r.is_none() && final(self).queue().size() == 0,
            old(self).queue().size() > 0 ==> r.is_some() && old(self).queue().popped(
                r.unwrap(),
                &final(self).queue(),
            ) && final(self).queue().size() == old(self).queue().size() - 1,
    {
        let (mut deque, maximum) = self.take_parts();
        let r = deque.generic_pop();
        *self = BoundedState { deque, maximum };
        r
    }

    /// What a `push_timeout` does to the queue once its wait is over: it
    /// puts the item in where there is room, whatever has ended the wait,
    /// and hands the item back only where the queue is still full.
    pub fn push_after_timed_wait(&mut self, item: Q::Item, status: TimeoutStatus) -> (r: Option<
        Q::Item,
    >)
        requires
            status == TimeoutStatus::NoTimeout ==> old(self).queue().size() < old(self).maximum(),
        ensures
            final(self).maximum() == old(self).maximum(),
            old(self).queue().size() <= old(self).maximum(),
            old(self).queue().size() == old(self).maximum() ==> r == Some(item) && final(self).queue()
                == old(self).queue(),
            old(self).queue().size() < old(self).maximum() ==> r.is_none() && old(self).queue().pushed(
                item,
                &final(self).queue(),
            ) && final(self).queue().size() == old(self).queue().size() + 1,
    {
        self.try_push(item)
    }

    /// What a `pop` that has waited does to the queue: it takes the next
    /// item out, which is there.
    pub fn pop_after_wait(&mut self) -> (r: Q::Item)
        requires
            old(self).queue().size() > 0,
        ensures
            final(self).maximum() == old(self).maximum(),
            old(self).queue().popped(r, &final(self).queue()),
            final(self).queue().size() == old(self).queue().size() - 1,
    {
        match self.try_pop() {
            Some(item) => item,
            None => vstd::pervasive::unreached(),
        }
    }

    /// What a `pop_timeout` does to the queue once its wait is over: it
    /// takes the next item out where there is one, whatever has ended the
    /// wait, and gives up only where the queue is still empty.
    pub fn pop_after_timed_wait(&mut self, status: TimeoutStatus) -> (r: Option<Q::Item>)
        requires
            status == TimeoutStatus::NoTimeout ==> old(self).queue().size() > 0,
        ensures
            final(self).maximum() == old(self).maximum(),
            old(self).queue().size() == 0 ==> r.is_none() && final(self).queue() == old(self).queue(),
            old(self).queue().size() > 0 ==> r.is_some() && old(self).queue().popped(
                r.unwrap(),
                &final(self).queue(),
            ) && final(self).queue().size() == old(self).queue().size() - 1,
    {
        if self.is_empty() {
            None
        } else {
            Some(self.pop_after_wait())
        }
    }

    /// Moves the parts of the state out, leaving an empty queue, so that
    /// they can be worked on before the state is put together again.
    fn take_parts(&mut self) -> (parts: (Q, usize))
        ensures
            parts.0 == old(self).queue(),
            parts.1 == old(self).maximum(),
            parts.0.size() <= parts.1,
    {
        let mut taken = BoundedState { deque: Q::generic_new(), maximum: self.maximum };
        core::mem::swap(self, &mut taken);
        proof {
            use_type_invariant(&taken);
        }
        (taken.deque, taken.maximum)
    }
}

/// Returns `true` where the queue is full: what a thread that brings an
/// item has to wait out.
fn has_no_room<Q: GenericQueue>(state: &BoundedState<Q>) -> (b: bool)
    ensures
        b == (state.queue().size() == state.maximum()),
{
    state.is_full()
}

/// Returns `true` where the queue holds no item: what a thread that wants
/// an item has to wait out.
fn has_nothing<Q: GenericQueue>(state: &BoundedState<Q>) -> (b: bool)
    ensures
        b == (state.queue().size() == 0),
{
    state.is_empty()
}

/// What the handles of a bounded queue share.
#[verifier::reject_recursive_types(Q)]
pub struct BoundedQueueBox<Q: GenericQueue> {
    state: Mutex<BoundedState<Q>>,
    not_empty: Cond,
    not_full: Cond,
}

/// A handle to a bounded blocking queue over the container `Q`.
#[verifier::reject_recursive_types(Q)]
pub struct BoundedQueuePtr<Q: GenericQueue> {
    ptr: Arc<BoundedQueueBox<Q>>,
}

impl<Q: GenericQueue> BoundedQueueBox<Q> {
    /// Both condition variables are of the lock.
    #[verifier::type_invariant]
    spec fn inv(&self) -> bool {
        self.not_empty.lock() == self.state.id() && self.not_full.lock() == self.state.id()
    }
}

impl<Q: GenericQueue> BoundedQueuePtr<Q> {
    /// Returns the first handle to a queue that starts as `queue` and may
    /// hold `maximum` items.
    pub fn new(maximum: usize, queue: Q) -> (r: BoundedQueuePtr<Q>)
        requires
            queue.size() <= maximum,
    {
        let state = Mutex::new(BoundedState::new(maximum, queue));
        let not_empty = state.cond();
        let not_full = state.cond();
        BoundedQueuePtr { ptr: Arc::new(BoundedQueueBox { state, not_empty, not_full }) }
    }

    /// Takes the next item out of the queue, waiting until there is one,
    /// and wakes a thread that waits for room.
    pub fn pop(&self) -> (r: Q::Item) {
        let shared = self.ptr.borrow();
        proof {
            use_type_invariant(shared);
        }
        let mut guard = shared.state.lock_guard();
        let state = shared.not_empty.wait_guard(&mut guard, has_nothing::<Q>);
        let item = state.pop_after_wait();
        shared.not_full.signal();
        item
    }

    /// Takes the next item out of the queue and wakes a thread that waits
    /// for room; `None` where the queue is empty.
    pub fn try_pop(&self) -> (r: Option<Q::Item>) {
        let shared = self.ptr.borrow();
        proof {
            use_type_invariant(shared);
        }
        let mut guard = shared.state.lock_guard();
        match guard.get().try_pop() {
            Some(x) => {
                shared.not_full.signal();
                Some(x)
            },
            None => None,
        }
    }

    /// Takes the next item out of the queue, waiting until there is one,
    /// but no longer than `reltime`; `None` where the queue is
    /// still empty when the wait ends.
    pub fn pop_timeout(&self, reltime: Time) -> (r: Option<Q::Item>)
        requires
            reltime.is_normal(),
    {
        let shared = self.ptr.borrow();
        proof {
            use_type_invariant(shared);
        }
        let abstime = shared.not_empty.now().after(&reltime);
        let mut guard = shared.state.lock_guard();
        let (status, state) = shared.not_empty.wait_until_guard(&mut guard, abstime, has_nothing::<Q>);
        let item = state.pop_after_timed_wait(status);
        if item.is_some() {
            shared.not_full.signal();
        }
        item
    }

    /// Puts `item` into the queue, waiting until there is room, and wakes a
    /// thread that waits for an item.
    pub fn push(&self, item: Q::Item) {
        let shared = self.ptr.borrow();
        proof {
            use_type_invariant(shared);
        }
        let mut guard = shared.state.lock_guard();
        let state = shared.not_full.wait_guard(&mut guard, has_no_room::<Q>);
        let rejected = state.try_push(item);
        assert(rejected.is_none());
        shared.not_empty.signal()
    }

    /// Puts `item` into the queue where there is room, and wakes a thread
    /// that waits for an item. Returns `None` then, and the item itself
    /// where the queue is full.
    pub fn try_push(&self, item: Q::Item) -> (r: Option<Q::Item>)
        ensures
            r.is_some() ==> r.unwrap() == item,
    {
        let shared = self.ptr.borrow();
        proof {
            use_type_invariant(shared);
        }
        let mut guard = shared.state.lock_guard();
        let rejected = guard.get().try_push(item);
        if rejected.is_none() {
            shared.not_empty.signal();
        }
        rejected
    }

    /// Puts `item` into the queue, waiting until there is room, but no
    /// longer than `reltime`. Returns `None` then, and the item itself where
    /// the queue is still full when the wait ends.
    pub fn push_timeout(&self, item: Q::Item, reltime: Time) -> (r: Option<Q::Item>)
        requires
            reltime.is_normal(),
        ensures
            r.is_some() ==> r.unwrap() == item,
    {
        let shared = self.ptr.borrow();
        proof {
            use_type_invariant(shared);
        }
        let abstime = shared.not_full.now().after(&reltime);
        let mut guard = shared.state.lock_guard();
        let (status, state) = shared.not_full.wait_until_guard(&mut guard, abstime, has_no_room::<Q>);
        proof {
            use_type_invariant(&*state);
        }
        let rejected = state.push_after_timed_wait(item, status);
        if rejected.is_none() {
            shared.not_empty.signal();
        }
        rejected
    }
}

impl<Q: GenericQueue> crate::clone::Clone for BoundedQueuePtr<Q> {
    fn clone(&self) -> (r: BoundedQueuePtr<Q>) {
        BoundedQueuePtr { ptr: crate::clone::Clone::clone(&self.ptr) }
    }
}

/// A bounded, blocking concurrent queue. Items come out in the order in
/// which they went in.
#[verifier::reject_recursive_types(T)]
pub struct BoundedQueue<T> {
    ptr: BoundedQueuePtr<Deque<T>>,
}

impl<T> BoundedQueue<T> {
    /// Returns the first handle to a new, empty queue that holds at most
    /// `maximum` items.
    pub fn new(maximum: usize) -> (r: BoundedQueue<T>) {
        BoundedQueue { ptr: BoundedQueuePtr::new(maximum, Deque::new()) }
    }

    /// Takes the item at the front out of the queue, waiting until there is one.
    pub fn pop(&self) -> (r: T) {
        self.ptr.pop()
    }

    /// Takes the item at the front out of the queue; `None` where the queue
    /// is empty.
    pub fn try_pop(&self) -> (r: Option<T>) {
        self.ptr.try_pop()
    }

    /// Takes the item at the front out of the queue, waiting until there is
    /// one, but no longer than `reltime`; `None` where the queue is
    /// still empty when the wait ends.
    pub fn pop_timeout(&self, reltime: Time) -> (r: Option<T>)
        requires
            reltime.is_normal(),
    {
        self.ptr.pop_timeout(reltime)
    }

    /// Puts `item` at the back of the queue, waiting until there is room.
    pub fn push(&self, item: T) {
        self.ptr.push(item)
    }

    /// Puts `item` at the back of the queue where there is room. Returns
    /// `None` then, and the item itself where the queue is full.
    pub fn try_push(&self, item: T) -> (r: Option<T>)
        ensures
            r.is_some() ==> r.unwrap() == item,
    {
        self.ptr.try_push(item)
    }

    /// Puts `item` at the back of the queue, waiting until there is room,
    /// but no longer than `reltime`. Returns `None` then, and the item
    /// itself where the queue is still full when the wait ends.
    pub fn push_timeout(&self, item: T, reltime: Time) -> (r: Option<T>)
        requires
            reltime.is_normal(),
        ensures
            r.is_some() ==> r.unwrap() == item,
    {
        self.ptr.push_timeout(item, reltime)
    }
}

impl<T> crate::clone::Clone for BoundedQueue<T> {
    /// Returns one more handle to the same queue.
    fn clone(&self) -> (r: BoundedQueue<T>) {
        BoundedQueue { ptr: crate::clone::Clone::clone(&self.ptr) }
    }
}

/// A bounded, blocking concurrent priority queue. A largest item comes out first.
#[verifier::reject_recursive_types(T)]
pub struct BoundedPriorityQueue<T: crate::order::Ord> {
    ptr: BoundedQueuePtr<PriorityQueue<T>>,
}

impl<T: crate::order::Ord> BoundedPriorityQueue<T> {
    /// Returns the first handle to a new, empty queue that holds at most
    /// `maximum` items.
    pub fn new(maximum: usize) -> (r: BoundedPriorityQueue<T>) {
        BoundedPriorityQueue { ptr: BoundedQueuePtr::new(maximum, PriorityQueue::new()) }
    }

    /// Takes a largest item out of the queue, waiting until there is one.
    pub fn pop(&self) -> (r: T) {
        self.ptr.pop()
    }

    /// Takes a largest item out of the queue; `None` where the queue is empty.
    pub fn try_pop(&self) -> (r: Option<T>) {
        self.ptr.try_pop()
    }

    /// Takes a largest item out of the queue, waiting until there is one,
    /// but no longer than `reltime`; `None` where the queue is
    /// still empty when the wait ends.
    pub fn pop_timeout(&self, reltime: Time) -> (r: Option<T>)
        requires
            reltime.is_normal(),
    {
        self.ptr.pop_timeout(reltime)
    }

    /// Puts `item` into the queue, waiting until there is room.
    pub fn push(&self, item: T) {
        self.ptr.push(item)
    }

    /// Puts `item` into the queue where there is room. Returns `None` then,
    /// and the item itself where the queue is full.
    pub fn try_push(&self, item: T) -> (r: Option<T>)
        ensures
            r.is_some() ==> r.unwrap() == item,
    {
        self.ptr.try_push(item)
    }

    /// Puts `item` into the queue, waiting until there is room, but no
    /// longer than `reltime`. Returns `None` then, and the item itself
    /// where the queue is still full when the wait ends.
    pub fn push_timeout(&self, item: T, reltime: Time) -> (r: Option<T>)
        requires
            reltime.is_normal(),
        ensures
            r.is_some() ==> r.unwrap() == item,
    {
        self.ptr.push_timeout(item, reltime)
    }
}

impl<T: crate::order::Ord> crate::clone::Clone for BoundedPriorityQueue<T> {
    /// Returns one more handle to the same queue.
    fn clone(&self) -> (r: BoundedPriorityQueue<T>) {
        BoundedPriorityQueue { ptr: crate::clone::Clone::clone(&self.ptr) }
    }
}

/// A hash map behind a lock.
#[verifier::reject_recursive_types(K)]
#[verifier::reject_recursive_types(V)]
pub struct LockedHashMap<K: crate::hash::Hash + crate::order::Eq, V> {
    map: Mutex<HashMap<K, V>>,
}

impl<K: crate::hash::Hash + crate::order::Eq, V> LockedHashMap<K, V> {
    /// Returns an empty map with the hash key `(k0, k1)` and room for
    /// `capacity` slots.
    pub fn with_capacity_and_keys(k0: u64, k1: u64, capacity: usize) -> (r: LockedHashMap<K, V>) {
        LockedHashMap { map: Mutex::new(HashMap::with_capacity_and_keys(k0, k1, capacity)) }
    }

    /// Puts the key `k` with the value `v` into the map. Returns the value
    /// that the key had.
    pub fn swap(&self, k: K, v: V) -> (r: Option<V>) {
        let mut guard = self.map.lock_guard();
        guard.get().swap(k, v)
    }

    /// Takes the key `k` out of the map. Returns the value that the key had.
    pub fn pop(&self, k: &K) -> (r: Option<V>) {
        let mut guard = self.map.lock_guard();
        guard.get().pop(k)
    }
}

impl<K: crate::hash::Hash + crate::order::Eq, V: crate::clone::Clone> LockedHashMap<K, V> {
    /// Returns a copy of the value of the key `k`.
    pub fn find(&self, k: &K) -> (r: Option<V>) {
        let mut guard = self.map.lock_guard();
        copy_of(guard.get().find(k))
    }
}

/// Returns a copy of the value that `found` refers to, where there is one:
/// what a lookup hands out of a map that it may not keep a reference into.
pub fn copy_of<V: crate::clone::Clone>(found: Option<&V>) -> (r: Option<V>)
    ensures
        r == match found {
            Some(v) => Some(*v),
            None => None,
        },
{
    match found {
        Some(v) => Some(v.clone()),
        None => None,
    }
}

/// A concurrent hash map with one lock for the whole map.
#[verifier::reject_recursive_types(K)]
#[verifier::reject_recursive_types(V)]
pub struct ConcurrentHashMap<K: crate::hash::Hash + crate::order::Eq, V> {
    ptr: Arc<LockedHashMap<K, V>>,
}

impl<K: crate::hash::Hash + crate::order::Eq, V> ConcurrentHashMap<K, V> {
    /// Returns the first handle to a new, empty map with the hash key
    /// `(k0, k1)` and room for `capacity` slots.
    pub fn with_capacity_and_keys(k0: u64, k1: u64, capacity: usize) -> (r: ConcurrentHashMap<K, V>) {
        let b = LockedHashMap::with_capacity_and_keys(k0, k1, capacity);
        ConcurrentHashMap { ptr: Arc::new(b) }
    }

    /// Puts the key `k` with the value `v` into the map. Returns the value
    /// that the key had.
    pub fn swap(&self, k: K, v: V) -> (r: Option<V>) {
        self.ptr.borrow().swap(k, v)
    }

    /// Takes the key `k` out of the map. Returns the value that the key had.
    pub fn pop(&self, k: &K) -> (r: Option<V>) {
        self.ptr.borrow().pop(k)
    }
}

impl<K: crate::hash::Hash + crate::order::Eq, V: crate::clone::Clone> ConcurrentHashMap<K, V> {
    /// Returns a copy of the value of the key `k`. A reference into the map
    /// cannot be handed out: the lock is released when the function returns.
    pub fn find(&self, k: &K) -> (r: Option<V>) {
        self.ptr.borrow().find(k)
    }
}

impl<K: crate::hash::Hash + crate::order::Eq, V> crate::clone::Clone for ConcurrentHashMap<K, V> {
    /// Returns one more handle to the same map.
    fn clone(&self) -> (r: ConcurrentHashMap<K, V>) {
        ConcurrentHashMap { ptr: crate::clone::Clone::clone(&self.ptr) }
    }
}

/// The shard, of `shards` shards, that holds the keys with the hash `hash`.
pub open spec fn shard_of(hash: u64, shards: int) -> int {
    ((hash as usize) as int) % shards
}

/// What the handles of a sharded map share: the shards and the hash key.
#[verifier::reject_recursive_types(K)]
#[verifier::reject_recursive_types(V)]
pub struct ShardMapBox<K: crate::hash::Hash + crate::order::Eq, V> {
    maps: Vec<LockedHashMap<K, V>>,
    k0: u64,
    k1: u64,
}

impl<K: crate::hash::Hash + crate::order::Eq, V> ShardMapBox<K, V> {
    #[verifier::type_invariant]
    spec fn inv(&self) -> bool {
        self.maps@.len() > 0
    }

    /// The number of shards.
    pub closed spec fn shards(&self) -> nat {
        self.maps@.len()
    }

    /// The hash key.
    pub closed spec fn keys(&self) -> (u64, u64) {
        (self.k0, self.k1)
    }

    /// Returns the shard that holds the key `k`: the hash of the key modulo
    /// the number of shards.
    pub fn get_shard(&self, k: &K) -> (r: usize)
        ensures
            r == shard_of(k.hashed(self.keys().0, self.keys().1), self.shards() as int),
            r < self.shards(),
    {
        proof {
            use_type_invariant(self);
        }
        #[verifier::truncate]
        (k.hash(self.k0, self.k1) as usize) % self.maps.len()
    }
}

/// A concurrent hash map that spreads its keys over shards, each with a
/// lock of its own.
#[verifier::reject_recursive_types(K)]
#[verifier::reject_recursive_types(V)]
pub struct ShardMap<K: crate::hash::Hash + crate::order::Eq, V> {
    ptr: Arc<ShardMapBox<K, V>>,
}

impl<K: crate::hash::Hash + crate::order::Eq, V> ShardMap<K, V> {
    /// The number of shards.
    pub closed spec fn shards(&self) -> nat {
        self.ptr@.shards()
    }

    /// The hash key.
    pub closed spec fn keys(&self) -> (u64, u64) {
        self.ptr@.keys()
    }

    /// Returns the first handle to a new, empty map of `shards` shards,
    /// each with the hash key `(k0, k1)` and room for `capacity` slots.
    pub fn with_capacity_and_keys(shards: usize, k0: u64, k1: u64, capacity: usize) -> (r: ShardMap<K, V>)
        requires
            shards > 0,
        ensures
            r.shards() == shards,
            r.keys() == (k0, k1),
    {
        let mut xs: Vec<LockedHashMap<K, V>> = Vec::with_capacity(shards);
        let mut i: usize = 0;
        while i < shards
            invariant
                i <= shards,
                xs@.len() == i,
            decreases shards - i,
        {
            xs.push(LockedHashMap::with_capacity_and_keys(k0, k1, capacity));
            i += 1;
        }
        let inner = ShardMapBox { maps: xs, k0, k1 };
        ShardMap { ptr: Arc::new(inner) }
    }

    /// Returns the shard that holds the key `k`. It depends on the key, the
    /// hash key and the number of shards, and on nothing else.
    pub fn get_shard(&self, k: &K) -> (r: usize)
        ensures
            r == shard_of(k.hashed(self.keys().0, self.keys().1), self.shards() as int),
            r < self.shards(),
    {
        self.ptr.borrow().get_shard(k)
    }

    /// Puts the key `k` with the value `v` into the shard of the key.
    /// Returns the value that the key had.
    pub fn swap(&self, k: K, v: V) -> (r: Option<V>) {
        let shared = self.ptr.borrow();
        let shard = shared.get_shard(&k);
        shared.maps[shard].swap(k, v)
    }

    /// Takes the key `k` out of its shard. Returns the value that the key had.
    pub fn pop(&self, k: &K) -> (r: Option<V>) {
        let shared = self.ptr.borrow();
        let shard = shared.get_shard(k);
        shared.maps[shard].pop(k)
    }
}

impl<K: crate::hash::Hash + crate::order::Eq, V: crate::clone::Clone> ShardMap<K, V> {
    /// Returns a copy of the value of the key `k`. A reference into the map
    /// cannot be handed out: the lock is released when the function returns.
    pub fn find(&self, k: &K) -> (r: Option<V>) {
        let shared = self.ptr.borrow();
        let shard = shared.get_shard(k);
        shared.maps[shard].find(k)
    }
}

impl<K: crate::hash::Hash + crate::order::Eq, V> crate::clone::Clone for ShardMap<K, V> {
    /// Returns one more handle to the same map.
    fn clone(&self) -> (r: ShardMap<K, V>) {
        ShardMap { ptr: crate::clone::Clone::clone(&self.ptr) }
    }
}

/// One operation on a queue, as it takes effect behind the lock.
pub enum QueueOp<T> {
    /// An item goes in.
    Push(T),
    /// A thread takes the next item out, if there is one.
    Pop,
}

/// The items that went into a queue in the course of `ops`, in that order.
pub open spec fn items_pushed<T>(ops: Seq<QueueOp<T>>) -> Seq<T>
    decreases ops.len(),
{
    if ops.len() == 0 {
        Seq::empty()
    } else {
        match ops.last() {
            QueueOp::Push(item) => items_pushed(ops.drop_last()).push(item),
            QueueOp::Pop => items_pushed(ops.drop_last()),
        }
    }
}

/// What a first-in-first-out queue that started empty holds after `ops`:
/// a push puts the item at the back, as `Deque::push_back` does, and a pop
/// takes the front away, as `Deque::pop_front` does.
pub open spec fn fifo_content<T>(ops: Seq<QueueOp<T>>) -> Seq<T>
    decreases ops.len(),
{
    if ops.len() == 0 {
        Seq::empty()
    } else {
        let before = fifo_content(ops.drop_last());
        match ops.last() {
            QueueOp::Push(item) => before.push(item),
            QueueOp::Pop => if before.len() > 0 {
                before.drop_first()
            } else {
                before
            },
        }
    }
}

/// The items that the pops among `ops` handed out, in that order.
pub open spec fn fifo_handed_out<T>(ops: Seq<QueueOp<T>>) -> Seq<T>
    decreases ops.len(),
{
    if ops.len() == 0 {
        Seq::empty()
    } else {
        let before = fifo_content(ops.drop_last());
        let out = fifo_handed_out(ops.drop_last());
        match ops.last() {
            QueueOp::Push(_) => out,
            QueueOp::Pop => if before.len() > 0 {
                out.push(before.first())
            } else {
                out
            },
        }
    }
}

/// Whatever the order in which the pushes and pops of the threads take
/// effect: the items handed out, followed by the items still in the queue,
/// are the items pushed, in the order of the pushes. So every item handed
/// out was pushed, none is handed out more often than it was pushed, and
/// none is lost.
pub proof fn lemma_fifo_no_loss_no_duplication<T>(ops: Seq<QueueOp<T>>)
    ensures
        fifo_handed_out(ops) + fifo_content(ops) == items_pushed(ops),
        fifo_handed_out(ops).to_multiset().add(fifo_content(ops).to_multiset()) == items_pushed(ops).to_multiset(),
    decreases ops.len(),
{
    if ops.len() == 0 {
        assert(fifo_handed_out(ops) + fifo_content(ops) =~= items_pushed(ops));
    } else {
        let earlier = ops.drop_last();
        lemma_fifo_no_loss_no_duplication(earlier);
        let before = fifo_content(earlier);
        let out = fifo_handed_out(earlier);
        match ops.last() {
            QueueOp::Push(item) => {
                assert(out + before.push(item) =~= (out + before).push(item));
            },
            QueueOp::Pop => {
                if before.len() > 0 {
                    assert(out.push(before.first()) + before.drop_first() =~= out + before);
                }
            },
        }
    }
    vstd::seq_lib::lemma_multiset_commutative(fifo_handed_out(ops), fifo_content(ops));
}

/// A queue that is empty at the end has handed out every item that was
/// pushed, in the order of the pushes.
pub proof fn lemma_fifo_drained<T>(ops: Seq<QueueOp<T>>)
    requires
        fifo_content(ops).len() == 0,
    ensures
        fifo_handed_out(ops) == items_pushed(ops),
{
    lemma_fifo_no_loss_no_duplication(ops);
    assert(fifo_handed_out(ops) + fifo_content(ops) =~= fifo_handed_out(ops));
}

/// What a bounded first-in-first-out queue for `maximum` items that
/// started empty holds after `ops`: as `fifo_content`, but a push finds
/// room only while the queue holds fewer than `maximum` items, as
/// `BoundedState::try_push` has it. A push that finds none leaves the queue
/// as it is: the thread gets its item back, or waits.
pub open spec fn bounded_content<T>(ops: Seq<QueueOp<T>>, maximum: nat) -> Seq<T>
    decreases ops.len(),
{
    if ops.len() == 0 {
        Seq::empty()
    } else {
        let before = bounded_content(ops.drop_last(), maximum);
        match ops.last() {
            QueueOp::Push(item) => if before.len() < maximum {
                before.push(item)
            } else {
                before
            },
            QueueOp::Pop => if before.len() > 0 {
                before.drop_first()
            } else {
                before
            },
        }
    }
}

/// Whatever the order in which the pushes and pops of the threads take
/// effect, a bounded queue never holds more items than it may.
pub proof fn lemma_bounded_never_over<T>(ops: Seq<QueueOp<T>>, maximum: nat)
    ensures
        bounded_content(ops, maximum).len() <= maximum,
    decreases ops.len(),
{
    if ops.len() > 0 {
        lemma_bounded_never_over(ops.drop_last(), maximum);
    }
}

} // verus!
