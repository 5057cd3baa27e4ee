use rust_core::thread::{worker_step, Message, Mutex, Pool, TimeoutStatus, WorkerStep};
use rust_core::c_types::timespec;
use rust_core::time::Time;
use std::cell::RefCell;
use std::rc::Rc;

type Job = Box<dyn FnOnce()>;

/// Runs one worker of the pool to its end. Returns how many tasks it ran.
fn run_worker(pool: &Pool<Job>) -> usize {
    let queue = pool.worker_queue();
    let mut ran = 0;
    loop {
        match Pool::next_step(&queue) {
            WorkerStep::Run(job) => {
                job();
                ran += 1;
            }
            WorkerStep::Exit => return ran,
        }
    }
}

#[test]
fn pool_of_four_runs_sixteen_tasks_once_each() {
    let pool: Pool<Job> = Pool::new(4);
    assert_eq!(pool.size(), 4);
    let runs: Vec<Rc<RefCell<usize>>> = (0..16).map(|_| Rc::new(RefCell::new(0))).collect();
    for run in &runs {
        let run = run.clone();
        pool.submit(Box::new(move || {
            *run.borrow_mut() += 1;
        }));
    }
    pool.shutdown();
    // one worker after the other: each finds exactly one notice to stop
    let ran: Vec<usize> = (0..4).map(|_| run_worker(&pool)).collect();
    assert_eq!(ran.iter().sum::<usize>(), 16);
    for run in &runs {
        assert_eq!(*run.borrow(), 1);
    }
    assert!(pool.worker_queue().try_pop().is_none());
}

#[test]
fn pool_of_one_runs_the_tasks_in_order() {
    let pool: Pool<Job> = Pool::new(1);
    let order: Rc<RefCell<Vec<usize>>> = Rc::new(RefCell::new(Vec::new()));
    for i in 0..16 {
        let order = order.clone();
        pool.submit(Box::new(move || {
            order.borrow_mut().push(i);
        }));
    }
    pool.shutdown();
    assert_eq!(run_worker(&pool), 16);
    assert_eq!(*order.borrow(), (0..16).collect::<Vec<usize>>());
    assert!(pool.worker_queue().try_pop().is_none());
}

#[test]
fn pool_without_workers_sends_no_notice() {
    let pool: Pool<Job> = Pool::new(0);
    pool.shutdown();
    assert!(pool.worker_queue().try_pop().is_none());
}

#[test]
fn worker_runs_tasks_and_stops_at_the_notice() {
    assert!(matches!(worker_step(Message::Task(5u8)), WorkerStep::Run(5)));
    assert!(matches!(worker_step(Message::<u8>::Shutdown), WorkerStep::Exit));
}

#[test]
fn mutex_guards_its_value() {
    let m = Mutex::new(5);
    {
        let mut guard = m.lock_guard();
        *guard.get() += 1;
    }
    let mut guard = m.lock_guard();
    assert_eq!(*guard.get(), 6);
}

#[test]
fn trylock_fails_while_the_lock_is_held() {
    let m = Mutex::new(0u8);
    {
        let _guard = m.lock_guard();
        assert!(m.trylock().is_none());
    }
    let taken = m.trylock();
    assert!(taken.is_some());
    assert!(m.trylock().is_none());
    drop(taken);
    assert!(m.trylock().is_some());
}

#[test]
fn wait_guard_returns_once_nothing_blocks() {
    let m = Mutex::new(3u32);
    let c = m.cond();
    let mut guard = m.lock_guard();
    let value = c.wait_guard(&mut guard, |v: &u32| *v == 0);
    assert_eq!(*value, 3);
    *value = 4;
    assert_eq!(*guard.get(), 4);
}

#[test]
fn wait_until_guard_gives_up_when_the_time_is_over() {
    let m = Mutex::new(0u32);
    let c = m.cond();
    let span = Time::from_timespec(timespec { tv_sec: 0, tv_nsec: 20_000_000 });
    let start = c.now();
    let deadline = start.after(&span);
    let mut guard = m.lock_guard();
    let (status, value) = c.wait_until_guard(&mut guard, deadline, |v: &u32| *v == 0);
    assert_eq!(status, TimeoutStatus::Timeout);
    assert_eq!(*value, 0);
    assert_eq!(c.now().span_until(&deadline), (0, 0));
    *value = 1;
    let (status, value) = c.wait_until_guard(&mut guard, deadline, |v: &u32| *v == 0);
    assert_eq!(status, TimeoutStatus::NoTimeout);
    assert_eq!(*value, 1);
    *value = 0;
    let (status, _) = c.wait_until_guard(&mut guard, Time::from_seconds(0), |v: &u32| *v == 0);
    assert_eq!(status, TimeoutStatus::Timeout);
}

#[test]
fn the_clock_of_a_condition_variable_goes_on() {
    let m = Mutex::new(());
    let c = m.cond();
    let a = c.now();
    let b = c.now();
    assert!(!rust_core::order::Ord::lt(&b, &a));
    assert!(a.to_timespec().tv_sec >= 0);
    assert!(a.to_timespec().tv_nsec >= 0 && a.to_timespec().tv_nsec < 1_000_000_000);
}

#[test]
fn condition_variables_on_one_clock_share_their_deadlines() {
    let clock = rust_core::time::Clock::start();
    let m = Mutex::new(0u32);
    let n = Mutex::new(0u32);
    let c = m.cond_on(clock);
    let d = n.cond_on(clock);
    let deadline = clock.monotonic().after(&Time::from_timespec(timespec { tv_sec: 0, tv_nsec: 20_000_000 }));
    let mut guard = m.lock_guard();
    let (status, _) = c.wait_until_guard(&mut guard, deadline, |v: &u32| *v == 0);
    assert_eq!(status, TimeoutStatus::Timeout);
    assert_eq!(d.now().span_until(&deadline), (0, 0));
    assert_eq!(clock.monotonic().span_until(&deadline), (0, 0));
    let mut guard = n.lock_guard();
    let before = std::time::Instant::now();
    let (status, _) = d.wait_until_guard(&mut guard, deadline, |v: &u32| *v == 0);
    assert_eq!(status, TimeoutStatus::Timeout);
    assert!(before.elapsed() < std::time::Duration::from_millis(15));
}

#[test]
fn signal_and_broadcast_without_waiters() {
    let m = Mutex::new(0u8);
    let c = m.cond();
    c.signal();
    c.broadcast();
}

#[test]
fn timeout_status_equality() {
    assert!(rust_core::order::Eq::eq(&TimeoutStatus::Timeout, &TimeoutStatus::Timeout));
    assert!(rust_core::order::Eq::eq(&TimeoutStatus::NoTimeout, &TimeoutStatus::NoTimeout));
    assert!(rust_core::order::Eq::ne(&TimeoutStatus::Timeout, &TimeoutStatus::NoTimeout));
}
