//! A small concurrency toolkit: shared handles, locks, blocking queues,
//! concurrent hash maps and a worker pool, together with the sequential
//! containers they are built on.
use vstd::prelude::*;

pub mod order;
pub mod arc;
pub mod c_types;
pub mod cell;
pub mod clone;
pub mod concurrent;
pub mod container;
pub mod deque;
pub mod hash;
pub mod i16;
pub mod i32;
pub mod i64;
pub mod i8;
pub mod sint;
pub mod iter;
pub mod lru;
pub mod mem;
pub mod priority_queue;
pub mod rc;
pub mod slice;
pub mod str;
pub mod thread;
pub mod time;
pub mod u16;
pub mod u32;
pub mod u64;
pub mod u8;
pub mod uint;

verus! {

/// Consumes a value and does nothing with it.
pub fn ignore<T>(_value: T) {
}

} // verus!
