use rust_core::concurrent::{
    BlockingPriorityQueue, BoundedPriorityQueue, BoundedQueue, BoundedState, ConcurrentHashMap,
    GenericQueue, Queue, QueuePtr, ShardMap,
};
use rust_core::deque::Deque;
use rust_core::thread::TimeoutStatus;
use rust_core::c_types::timespec;
use rust_core::time::Time;

#[test]
fn queue_hands_out_in_order() {
    let q: Queue<u32> = Queue::new();
    assert_eq!(q.try_pop(), None);
    q.push(1);
    q.push(2);
    q.push(3);
    assert_eq!(q.pop(), 1);
    assert_eq!(q.try_pop(), Some(2));
    assert_eq!(q.pop_timeout(Time::from_seconds(1)), Some(3));
    assert_eq!(q.try_pop(), None);
}

#[test]
fn queue_pop_timeout_waits_out_its_span() {
    let q: Queue<u32> = Queue::new();
    let before = std::time::Instant::now();
    assert_eq!(q.pop_timeout(Time::from_timespec(timespec { tv_sec: 0, tv_nsec: 30_000_000 })), None);
    assert!(before.elapsed() >= std::time::Duration::from_millis(30));
    let b: BoundedQueue<u32> = BoundedQueue::new(0);
    let before = std::time::Instant::now();
    assert_eq!(b.push_timeout(1, Time::from_timespec(timespec { tv_sec: 0, tv_nsec: 30_000_000 })), Some(1));
    assert!(before.elapsed() >= std::time::Duration::from_millis(30));
}

#[test]
fn queue_pop_timeout_gives_up_on_an_empty_queue() {
    let q: Queue<u32> = Queue::new();
    assert_eq!(q.pop_timeout(Time::from_seconds(0)), None);
    assert_eq!(q.pop_timeout(Time::from_seconds(-5)), None);
}

#[test]
fn queue_handles_share_one_queue() {
    let q: Queue<u32> = Queue::new();
    let other = rust_core::clone::Clone::clone(&q);
    q.push(7);
    assert_eq!(other.pop(), 7);
}

#[test]
fn queue_loses_and_repeats_nothing() {
    let q: Queue<u32> = Queue::new();
    let handles: Vec<Queue<u32>> = (0..4).map(|_| rust_core::clone::Clone::clone(&q)).collect();
    let mut pushed = Vec::new();
    let mut popped = Vec::new();
    let mut x: u32 = 7;
    for round in 0..2000u32 {
        x = x.wrapping_mul(1664525).wrapping_add(1013904223);
        let handle = &handles[(x >> 8) as usize % 4];
        if (x >> 16) % 2 == 0 {
            handle.push(round);
            pushed.push(round);
        } else if let Some(item) = handle.try_pop() {
            popped.push(item);
        }
    }
    while let Some(item) = q.try_pop() {
        popped.push(item);
    }
    assert_eq!(popped, pushed);
}

#[test]
fn blocking_priority_queue_hands_out_the_largest() {
    let q: BlockingPriorityQueue<u32> = BlockingPriorityQueue::new();
    q.push(3);
    q.push(9);
    q.push(1);
    assert_eq!(q.pop(), 9);
    q.push(5);
    assert_eq!(q.try_pop(), Some(5));
    assert_eq!(q.pop_timeout(Time::from_seconds(1)), Some(3));
    assert_eq!(q.pop(), 1);
    assert_eq!(q.try_pop(), None);
    assert_eq!(q.pop_timeout(Time::from_seconds(0)), None);
}

#[test]
fn bounded_queue_of_two() {
    let q: BoundedQueue<u32> = BoundedQueue::new(2);
    q.push(1);
    q.push(2);
    assert_eq!(q.try_push(3), Some(3));
    assert_eq!(q.pop(), 1);
    assert_eq!(q.try_push(3), None);
    assert_eq!(q.try_pop(), Some(2));
    assert_eq!(q.try_pop(), Some(3));
    assert_eq!(q.try_pop(), None);
}

#[test]
fn bounded_queue_timeouts() {
    let q: BoundedQueue<u32> = BoundedQueue::new(1);
    assert_eq!(q.pop_timeout(Time::from_seconds(0)), None);
    assert_eq!(q.push_timeout(1, Time::from_seconds(0)), None);
    assert_eq!(q.push_timeout(2, Time::from_seconds(0)), Some(2));
    assert_eq!(q.pop_timeout(Time::from_seconds(0)), Some(1));
    assert_eq!(q.pop_timeout(Time::from_seconds(0)), None);
}

#[test]
fn bounded_queue_of_none_takes_nothing() {
    let q: BoundedQueue<u32> = BoundedQueue::new(0);
    assert_eq!(q.try_push(1), Some(1));
    assert_eq!(q.push_timeout(1, Time::from_seconds(0)), Some(1));
    assert_eq!(q.try_pop(), None);
}

#[test]
fn bounded_priority_queue_of_two() {
    let q: BoundedPriorityQueue<u32> = BoundedPriorityQueue::new(2);
    q.push(1);
    q.push(2);
    assert_eq!(q.try_push(3), Some(3));
    assert_eq!(q.push_timeout(3, Time::from_seconds(0)), Some(3));
    assert_eq!(q.pop(), 2);
    assert_eq!(q.try_push(3), None);
    assert_eq!(q.try_pop(), Some(3));
    assert_eq!(q.pop_timeout(Time::from_seconds(0)), Some(1));
    assert_eq!(q.pop_timeout(Time::from_seconds(0)), None);
}

#[test]
fn bounded_state_of_two() {
    let mut s: BoundedState<Deque<u32>> = BoundedState::new(2, Deque::new());
    assert_eq!(s.limit(), 2);
    assert!(s.is_empty());
    assert_eq!(s.try_push(1), None);
    assert_eq!(s.try_push(2), None);
    assert!(s.is_full());
    assert_eq!(s.len(), 2);
    assert_eq!(s.try_push(3), Some(3));
    assert_eq!(s.len(), 2);
    assert_eq!(s.try_pop(), Some(1));
    assert_eq!(s.try_push(3), None);
    assert_eq!(s.try_pop(), Some(2));
    assert_eq!(s.try_pop(), Some(3));
    assert_eq!(s.try_pop(), None);
}

#[test]
fn bounded_state_after_a_timed_wait() {
    let mut s: BoundedState<Deque<u32>> = BoundedState::new(1, Deque::new());
    assert_eq!(s.pop_after_timed_wait(TimeoutStatus::Timeout), None);
    assert_eq!(s.push_after_timed_wait(4, TimeoutStatus::NoTimeout), None);
    assert_eq!(s.push_after_timed_wait(5, TimeoutStatus::Timeout), Some(5));
    assert_eq!(s.len(), 1);
    assert_eq!(s.pop_after_timed_wait(TimeoutStatus::NoTimeout), Some(4));
    assert_eq!(s.pop_after_timed_wait(TimeoutStatus::Timeout), None);
    assert_eq!(s.len(), 0);
}

#[test]
fn a_wait_that_was_given_up_still_takes_what_is_there() {
    let mut s: BoundedState<Deque<u32>> = BoundedState::new(2, Deque::new());
    assert_eq!(s.push_after_timed_wait(4, TimeoutStatus::Timeout), None);
    assert_eq!(s.len(), 1);
    assert_eq!(s.pop_after_timed_wait(TimeoutStatus::Timeout), Some(4));
    assert_eq!(s.len(), 0);
    let mut d: Deque<u32> = Deque::new();
    d.generic_push(9);
    assert_eq!(QueuePtr::pop_after_timed_wait(&mut d, TimeoutStatus::Timeout), Some(9));
    assert_eq!(QueuePtr::pop_after_timed_wait(&mut d, TimeoutStatus::Timeout), None);
}

#[test]
fn bounded_state_after_a_wait() {
    let mut s: BoundedState<Deque<u32>> = BoundedState::new(2, Deque::new());
    assert_eq!(s.try_push(7), None);
    assert_eq!(s.try_push(8), None);
    assert_eq!(s.pop_after_wait(), 7);
    assert_eq!(s.len(), 1);
    assert_eq!(s.pop_after_wait(), 8);
    assert!(s.is_empty());
}

#[test]
fn queue_after_a_wait() {
    let mut d: Deque<u32> = Deque::new();
    d.generic_push(1);
    d.generic_push(2);
    assert_eq!(QueuePtr::pop_after_wait(&mut d), 1);
    assert_eq!(QueuePtr::pop_after_timed_wait(&mut d, TimeoutStatus::NoTimeout), Some(2));
    assert_eq!(QueuePtr::pop_after_timed_wait(&mut d, TimeoutStatus::Timeout), None);
    assert_eq!(d.generic_pop(), None);
}

#[test]
fn concurrent_hash_map_swap_find_pop() {
    let m: ConcurrentHashMap<char, i32> = ConcurrentHashMap::with_capacity_and_keys(1, 2, 8);
    assert_eq!(m.swap('a', 1), None);
    assert_eq!(m.swap('a', 2), Some(1));
    assert_eq!(m.find(&'a'), Some(2));
    assert_eq!(m.pop(&'a'), Some(2));
    assert_eq!(m.find(&'a'), None);
}

#[test]
fn shard_map_swap_find_pop() {
    let m: ShardMap<char, i32> = ShardMap::with_capacity_and_keys(4, 1, 2, 8);
    assert_eq!(m.swap('a', 1), None);
    assert_eq!(m.swap('a', 2), Some(1));
    assert_eq!(m.find(&'a'), Some(2));
    assert_eq!(m.pop(&'a'), Some(2));
    assert_eq!(m.find(&'a'), None);
}

#[test]
fn shard_map_keeps_a_key_in_its_shard() {
    let m: ShardMap<u64, u64> = ShardMap::with_capacity_and_keys(8, 11, 13, 0);
    let other: ShardMap<u64, u64> = ShardMap::with_capacity_and_keys(8, 11, 13, 64);
    for k in 0..500u64 {
        let shard = m.get_shard(&k);
        assert!(shard < 8);
        assert_eq!(m.get_shard(&k), shard);
        m.swap(k, k);
        assert_eq!(m.get_shard(&k), shard);
        assert_eq!(other.get_shard(&k), shard);
    }
}

#[test]
fn shard_map_spreads_its_keys() {
    let shards = 8usize;
    let keys = 8000u64;
    let m: ShardMap<u64, ()> = ShardMap::with_capacity_and_keys(shards, 0x1234, 0x5678, 0);
    let mut count = vec![0u64; shards];
    let mut x: u64 = 1;
    for _ in 0..keys {
        x = x.wrapping_mul(6364136223846793005).wrapping_add(1442695040888963407);
        count[m.get_shard(&x)] += 1;
    }
    let mean = keys / shards as u64;
    for c in count {
        assert!(c > mean * 8 / 10 && c < mean * 12 / 10);
    }
}
