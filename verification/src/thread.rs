//! Locks, condition variables and a pool of workers.
//!
//! A `Mutex` owns the value that it guards. The value is reached through a
//! `LockGuard`, which holds the lock until it is dropped. A `Cond` lets a
//! thread that holds a guard wait until another thread has changed the
//! guarded value. A `Cond` belongs to the lock that made it.
use vstd::prelude::*;
use crate::concurrent::Queue;
use crate::time::{Clock, Time, NANOS_PER_SECOND};

verus! {

/// `Mutex` of std, as a type whose inside is not looked into.
#[verifier::external_type_specification]
#[verifier::external_body]
#[verifier::reject_recursive_types(T)]
pub struct ExMutex<T: ?Sized>(std::sync::Mutex<T>);

/// `MutexGuard` of std, as a type whose inside is not looked into.
#[verifier::external_type_specification]
#[verifier::external_body]
#[verifier::reject_recursive_types(T)]
pub struct ExMutexGuard<'a, T: ?Sized + 'a>(std::sync::MutexGuard<'a, T>);

/// `Condvar` of std, as a type whose inside is not looked into.
#[verifier::external_type_specification]
#[verifier::external_body]
pub struct ExCondvar(std::sync::Condvar);

/// How a timed wait ended.
#[derive(Clone, Copy, Debug, PartialEq, Eq, Structural)]
pub enum TimeoutStatus {
    NoTimeout,
    Timeout,
}

impl crate::order::Eq for TimeoutStatus {
    fn eq(&self, other: &TimeoutStatus) -> (r: bool) {
        match (*self, *other) {
            (TimeoutStatus::Timeout, TimeoutStatus::Timeout) => true,
            (TimeoutStatus::NoTimeout, TimeoutStatus::NoTimeout) => true,
            _ => false,
        }
    }
}

/// A lock that owns the value it guards.
#[verifier::reject_recursive_types(T)]
pub struct Mutex<T> {
    inner: std::sync::Mutex<T>,
    id: Ghost<int>,
}

/// The right to use the value of a `Mutex`. Dropping the guard releases the lock.
#[verifier::reject_recursive_types(T)]
pub struct LockGuard<'a, T> {
    held: Option<std::sync::MutexGuard<'a, T>>,
    lock: Ghost<int>,
}

/// A condition variable of one lock, with a clock of its own for the
/// deadlines of timed waits. It is made by the lock, and threads wait on it
/// with guards of that lock only.
pub struct Cond {
    inner: std::sync::Condvar,
    clock: Clock,
    lock: Ghost<int>,
}

impl<T> Mutex<T> {
    /// What tells this lock from others. It stands for the lock itself:
    /// nothing is known of it but that the guards and condition variables of
    /// the lock carry it.
    pub closed spec fn id(&self) -> int {
        self.id@
    }

    /// `Mutex::new` of std: a lock that guards `value`. What tells the
    /// lock from others is left open: nothing is claimed of it, so that no
    /// two locks are known to be the same.
    #[verifier::external_body]
    pub fn new(value: T) -> (r: Mutex<T>) {
        Mutex { inner: std::sync::Mutex::new(value), id: Ghost(arbitrary()) }
    }

    /// Returns a new condition variable of this lock, with a clock that
    /// starts now.
    pub fn cond(&self) -> (r: Cond)
        ensures
            r.lock() == self.id(),
    {
        self.cond_on(Clock::start())
    }

    /// Returns a new condition variable of this lock whose deadlines are
    /// times on `clock`. Condition variables that share a clock share their
    /// deadlines.
    pub fn cond_on(&self, clock: Clock) -> (r: Cond)
        ensures
            r.lock() == self.id(),
    {
        Cond { inner: new_condvar(), clock, lock: Ghost(self.id@) }
    }

    /// Waits until the lock is free and takes it. The guard of a lock
    /// whose holder panicked is handed out like any other.
    pub fn lock_guard<'a>(&'a self) -> (r: LockGuard<'a, T>)
        ensures
            r.lock() == self.id(),
    {
        LockGuard { held: Some(lock_std(&self.inner)), lock: Ghost(self.id@) }
    }

    /// Takes the lock where it is free and returns at once where it is
    /// not. `None` means that another guard holds the lock.
    pub fn trylock<'a>(&'a self) -> (r: Option<LockGuard<'a, T>>)
        ensures
            r.is_some() ==> r.unwrap().lock() == self.id(),
    {
        match try_lock_std(&self.inner) {
            Some(held) => Some(LockGuard { held: Some(held), lock: Ghost(self.id@) }),
            None => None,
        }
    }
}

/// `Mutex::lock` of std: waits until the lock is free and takes it. The
/// guard is taken out of the error that std gives where a holder of the lock
/// panicked.
#[verifier::external_body]
fn lock_std<'a, T>(lock: &'a std::sync::Mutex<T>) -> (r: std::sync::MutexGuard<'a, T>) {
    match lock.lock() {
        Ok(guard) => guard,
        Err(poisoned) => poisoned.into_inner(),
    }
}

/// `Mutex::try_lock` of std: takes the lock where it is free; `None` where
/// std says that taking it would block. The guard is taken out of the error
/// that std gives where a holder of the lock panicked.
#[verifier::external_body]
fn try_lock_std<'a, T>(lock: &'a std::sync::Mutex<T>) -> (r: Option<std::sync::MutexGuard<'a, T>>) {
    match lock.try_lock() {
        Ok(guard) => Some(guard),
        Err(std::sync::TryLockError::Poisoned(poisoned)) => Some(poisoned.into_inner()),
        Err(std::sync::TryLockError::WouldBlock) => None,
    }
}

/// `Condvar::new` of std.
#[verifier::external_body]
fn new_condvar() -> (r: std::sync::Condvar) {
    std::sync::Condvar::new()
}

impl<'a, T> LockGuard<'a, T> {
    /// The lock that the guard holds, by what tells it from others.
    pub closed spec fn lock(&self) -> int {
        self.lock@
    }

    /// The `DerefMut` of std's `MutexGuard`: the guarded value. Nothing is
    /// known of it: other threads may have changed it since it was last
    /// seen. The guard holds its lock as before.
    #[verifier::external_body]
    pub fn get<'g>(&'g mut self) -> (r: &'g mut T)
        ensures
            final(self).lock() == old(self).lock(),
    {
        &mut **self.held.as_mut().unwrap()
    }
}

impl Cond {
    /// The lock that made the condition variable, by what tells it from others.
    pub closed spec fn lock(&self) -> int {
        self.lock@
    }

    /// Returns the time on the clock of the condition variable. The
    /// deadlines of its timed waits are times on this clock.
    pub fn now(&self) -> (r: Time)
        ensures
            r.is_normal(),
            r@.tv_sec >= 0,
    {
        self.clock.monotonic()
    }

    /// `Condvar::notify_one` of std: wakes one thread that waits on the
    /// condition variable, if there is one.
    #[verifier::external_body]
    pub fn signal(&self) {
        self.inner.notify_one()
    }

    /// `Condvar::notify_all` of std: wakes every thread that waits on the
    /// condition variable.
    #[verifier::external_body]
    pub fn broadcast(&self) {
        self.inner.notify_all()
    }

    /// `Condvar::wait_while` of std: releases the lock and waits, again and
    /// again, until `blocked` returns `false` for the guarded value, with the
    /// lock held once more. Returns the guarded value, for which `blocked` has
    /// just returned `false`. Where std reports that a holder of the lock
    /// panicked, the wait is taken up again, as std returns then without
    /// having asked `blocked`. The guard is one of the lock that made the
    /// condition variable: std may panic where a condition variable is used
    /// with two locks.
    #[verifier::external_body]
    pub fn wait_guard<'g, 'a, T, F: Fn(&T) -> bool>(
        &self,
        guard: &'g mut LockGuard<'a, T>,
        blocked: F,
    ) -> (r: &'g mut T)
        requires
            old(guard).lock() == self.lock(),
            forall|t: &T| call_requires(blocked, (t,)),
        ensures
            call_ensures(blocked, (&*r,), false),
            final(guard).lock() == old(guard).lock(),
    {
        let mut held = guard.held.take().unwrap();
        loop {
            match self.inner.wait_while(held, |t| blocked(&*t)) {
                Ok(again) => return &mut **guard.held.insert(again),
                Err(poisoned) => held = poisoned.into_inner(),
            }
        }
    }

    /// Waits as `wait_guard` does, but no longer than until the clock of
    /// the condition variable reads `abstime`. A deadline that has passed
    /// is no wait at all. Returns the guarded value and how the wait ended:
    /// `NoTimeout` where `blocked` has just returned `false` for the value,
    /// `Timeout` where the wait was given up.
    pub fn wait_until_guard<'g, 'a, T, F: Fn(&T) -> bool>(
        &self,
        guard: &'g mut LockGuard<'a, T>,
        abstime: Time,
        blocked: F,
    ) -> (r: (TimeoutStatus, &'g mut T))
        requires
            old(guard).lock() == self.lock(),
            abstime.is_normal(),
            forall|t: &T| call_requires(blocked, (t,)),
        ensures
            r.0 == TimeoutStatus::NoTimeout ==> call_ensures(blocked, (&*r.1,), false),
            final(guard).lock() == old(guard).lock(),
    {
        let now = self.now();
        let (secs, nanos) = now.span_until(&abstime);
        let (timed_out, value) = self.timed_wait(guard, secs, nanos, blocked);
        if timed_out {
            (TimeoutStatus::Timeout, value)
        } else {
            (TimeoutStatus::NoTimeout, value)
        }
    }

    /// `Condvar::wait_timeout_while` of std: as `Condvar::wait_while`, but
    /// for no longer than the given time. Returns whether the wait was given
    /// up, and the guarded value. Where it was not given up, `blocked` has
    /// just returned `false` for the value. The wait is given up when the
    /// time has run out with `blocked` still returning `true`, and when std
    /// reports that a holder of the lock panicked. The guard is one of the
    /// lock that made the condition variable.
    #[verifier::external_body]
    fn timed_wait<'g, 'a, T, F: Fn(&T) -> bool>(
        &self,
        guard: &'g mut LockGuard<'a, T>,
        secs: u64,
        nanos: u32,
        blocked: F,
    ) -> (r: (bool, &'g mut T))
        requires
            old(guard).lock() == self.lock(),
            nanos < NANOS_PER_SECOND,
            forall|t: &T| call_requires(blocked, (t,)),
        ensures
            !r.0 ==> call_ensures(blocked, (&*r.1,), false),
            final(guard).lock() == old(guard).lock(),
    {
        let held = guard.held.take().unwrap();
        let span = std::time::Duration::new(secs, nanos);
        let (given_up, held) = match self.inner.wait_timeout_while(held, span, |t| blocked(&*t)) {
            Ok((held, result)) => (result.timed_out(), held),
            Err(poisoned) => (true, poisoned.into_inner().0),
        };
        (given_up, &mut **guard.held.insert(held))
    }
}

/// What travels through the queue of a pool: a task to run, or the notice
/// that tells one worker to stop.
pub enum Message<F> {
    Task(F),
    Shutdown,
}

/// What a worker does next.
pub enum WorkerStep<F> {
    /// Run the task, then ask again.
    Run(F),
    /// Stop.
    Exit,
}

/// What a worker does with a message: it runs a task, and stops at the
/// notice to stop.
pub fn worker_step<F>(message: Message<F>) -> (r: WorkerStep<F>)
    ensures
        r == match message {
            Message::Task(f) => WorkerStep::Run(f),
            Message::Shutdown => WorkerStep::Exit,
        },
{
    match message {
        Message::Task(function) => WorkerStep::Run(function),
        Message::Shutdown => WorkerStep::Exit,
    }
}

/// A pool of workers that share one queue of tasks. Each worker takes the
/// tasks one by one from the queue and runs each to its end, until it
/// finds the notice to stop.
#[verifier::reject_recursive_types(F)]
pub struct Pool<F> {
    queue: Queue<Message<F>>,
    n_threads: usize,
}

impl<F> Pool<F> {
    /// The number of workers.
    pub closed spec fn workers(&self) -> usize {
        self.n_threads
    }

    /// The handle through which the pool reaches its queue of tasks.
    pub closed spec fn tasks(&self) -> Queue<Message<F>> {
        self.queue
    }

    /// Returns a pool for `n_threads` workers, with an empty queue.
    pub fn new(n_threads: usize) -> (r: Pool<F>)
        ensures
            r.workers() == n_threads,
    {
        Pool { queue: Queue::new(), n_threads }
    }

    /// Returns the number of workers.
    pub fn size(&self) -> (n: usize)
        ensures
            n == self.workers(),
    {
        self.n_threads
    }

    /// Returns a handle to the queue of the pool, for one worker: one more
    /// handle to the queue that `submit` and `shutdown` push to.
    pub fn worker_queue(&self) -> (r: Queue<Message<F>>)
        ensures
            r == self.tasks(),
    {
        crate::clone::Clone::clone(&self.queue)
    }

    /// Waits for the next message on the queue of a pool and returns what
    /// the worker does next.
    pub fn next_step(queue: &Queue<Message<F>>) -> (r: WorkerStep<F>) {
        worker_step(queue.pop())
    }

    /// Hands a task to the pool. The tasks are taken from the queue in the
    /// order in which they were handed in.
    pub fn submit(&self, task: F) {
        self.queue.push(Message::Task(task))
    }

    /// Tells the workers to stop: puts one notice per worker behind the
    /// tasks that are in the queue, so that each worker finds one.
    pub fn shutdown(&self) {
        let mut i: usize = 0;
        while i < self.n_threads
            invariant
                i <= self.n_threads,
            decreases self.n_threads - i,
        {
            self.queue.push(Message::Shutdown);
            i += 1;
        }
    }
}

} // verus!
