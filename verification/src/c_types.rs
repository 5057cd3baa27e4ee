//! The plain data types of the system interface that the library shares
//! with its callers.
use vstd::prelude::*;

verus! {

/// Seconds since an epoch.
#[allow(non_camel_case_types)]
pub type time_t = i64;

/// A point in time or a span of time: whole seconds and the nanoseconds
/// beyond them.
#[allow(non_camel_case_types)]
#[derive(Clone, Copy, Debug, PartialEq, Eq, Structural)]
pub struct timespec {
    pub tv_sec: time_t,
    pub tv_nsec: i64,
}

} // verus!
