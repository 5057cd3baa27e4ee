//! Points in time and spans of time.
use vstd::prelude::*;
use crate::c_types::{time_t, timespec};

verus! {

/// The number of nanoseconds in a second.
pub const NANOS_PER_SECOND: i64 = 1_000_000_000;

/// `Instant` of std, as a type whose inside is not looked into.
#[verifier::external_type_specification]
#[verifier::external_body]
pub struct ExInstant(std::time::Instant);

/// The length of a time in nanoseconds.
pub open spec fn nanos_of(t: timespec) -> int {
    t.tv_sec * NANOS_PER_SECOND + t.tv_nsec
}

/// The longest time that a `Time` can hold, in nanoseconds.
pub open spec fn longest_time() -> int {
    i64::MAX * NANOS_PER_SECOND + (NANOS_PER_SECOND - 1)
}

/// The shortest (most negative) time that a `Time` can hold, in nanoseconds.
pub open spec fn shortest_time() -> int {
    i64::MIN * NANOS_PER_SECOND
}

/// `n`, or the nearest length that a `Time` can hold.
pub open spec fn within_time(n: int) -> int {
    if n > longest_time() {
        longest_time()
    } else if n < shortest_time() {
        shortest_time()
    } else {
        n
    }
}

/// The span from the time `now` to the time `then`, in nanoseconds;
/// nothing where `then` is not later.
pub open spec fn span_between(now: timespec, then: timespec) -> int {
    if nanos_of(then) > nanos_of(now) {
        nanos_of(then) - nanos_of(now)
    } else {
        0
    }
}

/// A point in time or a span of time. Its view is its `timespec`.
#[derive(Clone, Copy, Debug)]
pub struct Time {
    time: timespec,
}

/// The whole seconds and the nanoseconds that a wait for `span` lasts:
/// those of `span`, and nothing where `span` is negative.
pub open spec fn wait_span(span: timespec) -> (u64, u32) {
    if span.tv_sec < 0 {
        (0, 0)
    } else {
        (span.tv_sec as u64, span.tv_nsec as u32)
    }
}

impl Time {
    /// The seconds and nanoseconds of the time.
    pub closed spec fn view(&self) -> timespec {
        self.time
    }

    /// The nanoseconds lie within one second.
    pub open spec fn is_normal(&self) -> bool {
        0 <= self@.tv_nsec < NANOS_PER_SECOND
    }

    /// Returns the time `seconds` whole seconds long.
    pub fn from_seconds(seconds: time_t) -> (r: Time)
        ensures
            r@ == (timespec { tv_sec: seconds, tv_nsec: 0 }),
    {
        Time { time: timespec { tv_sec: seconds, tv_nsec: 0 } }
    }

    /// Returns the time that `time` holds.
    pub fn from_timespec(time: timespec) -> (r: Time)
        ensures
            r@ == time,
    {
        Time { time }
    }

    /// Returns the seconds and nanoseconds of the time.
    pub fn to_timespec(&self) -> (r: timespec)
        ensures
            r == self@,
    {
        self.time
    }

    /// Returns how long a wait for this span lasts, in whole seconds and
    /// nanoseconds. A negative span is no wait at all.
    pub fn to_wait_span(&self) -> (r: (u64, u32))
        requires
            self.is_normal(),
        ensures
            r == wait_span(self@),
            r.1 < NANOS_PER_SECOND,
    {
        if self.time.tv_sec < 0 {
            (0, 0)
        } else {
            (self.time.tv_sec as u64, self.time.tv_nsec as u32)
        }
    }
}

impl Time {
    /// Returns the time that lies the span `span` after this one: a
    /// deadline, where this is now. Where the sum is more than a `Time` can
    /// hold, the result is the nearest time that it can hold.
    pub fn after(&self, span: &Time) -> (r: Time)
        requires
            self.is_normal(),
            span.is_normal(),
        ensures
            r.is_normal(),
            nanos_of(r@) == within_time(nanos_of(self@) + nanos_of(span@)),
    {
        let sum = self.time.tv_nsec + span.time.tv_nsec;
        let (tv_nsec, carry): (i64, i128) = if sum >= NANOS_PER_SECOND {
            (sum - NANOS_PER_SECOND, 1)
        } else {
            (sum, 0)
        };
        let whole: i128 = (self.time.tv_sec as i128) + (span.time.tv_sec as i128) + carry;
        if whole > i64::MAX as i128 {
            Time { time: timespec { tv_sec: i64::MAX, tv_nsec: NANOS_PER_SECOND - 1 } }
        } else if whole < i64::MIN as i128 {
            Time { time: timespec { tv_sec: i64::MIN, tv_nsec: 0 } }
        } else {
            Time { time: timespec { tv_sec: whole as i64, tv_nsec } }
        }
    }

    /// Returns the span from this time to the time `then`, in whole seconds
    /// and nanoseconds: how long a wait that starts now, at this time, may
    /// last until `then`. Nothing where `then` is not later.
    pub fn span_until(&self, then: &Time) -> (r: (u64, u32))
        requires
            self.is_normal(),
            then.is_normal(),
        ensures
            r.1 < NANOS_PER_SECOND,
            r.0 * NANOS_PER_SECOND + r.1 == span_between(self@, then@),
    {
        let billion: i128 = 1_000_000_000;
        let from = (self.time.tv_sec as i128) * billion + (self.time.tv_nsec as i128);
        let to = (then.time.tv_sec as i128) * billion + (then.time.tv_nsec as i128);
        if to > from {
            let span = to - from;
            ((span / billion) as u64, (span % billion) as u32)
        } else {
            (0, 0)
        }
    }
}

/// A clock that no change of the system time moves. It counts the time
/// since it was started. A copy of a clock reads the same time as the clock.
#[derive(Clone, Copy)]
pub struct Clock {
    start: std::time::Instant,
}

impl Clock {
    /// Returns a clock that starts to count now.
    pub fn start() -> (r: Clock) {
        Clock { start: instant_now() }
    }

    /// Returns the time of the clock: the time since it was started.
    pub fn monotonic(&self) -> (r: Time)
        ensures
            r.is_normal(),
            r@.tv_sec >= 0,
    {
        let (secs, nanos) = self.elapsed();
        let tv_sec: i64 = if secs > i64::MAX as u64 {
            i64::MAX
        } else {
            secs as i64
        };
        Time { time: timespec { tv_sec, tv_nsec: nanos as i64 } }
    }

    /// `Instant::elapsed` of std: the time since the clock was started, in
    /// whole seconds and the nanoseconds beyond them, which are fewer than
    /// a second.
    #[verifier::external_body]
    fn elapsed(&self) -> (r: (u64, u32))
        ensures
            r.1 < NANOS_PER_SECOND,
    {
        let since = self.start.elapsed();
        (since.as_secs(), since.subsec_nanos())
    }
}

/// `Instant::now` of std: the present moment, of which nothing is known.
#[verifier::external_body]
fn instant_now() -> (r: std::time::Instant) {
    std::time::Instant::now()
}

impl crate::order::Eq for Time {
    fn eq(&self, other: &Time) -> (r: bool) {
        self.time.tv_sec == other.time.tv_sec && self.time.tv_nsec == other.time.tv_nsec
    }
}

impl crate::order::Ord for Time {
    /// Earlier seconds first; among equal seconds, earlier nanoseconds first.
    open spec fn before(&self, other: &Time) -> bool {
        self@.tv_sec < other@.tv_sec || (self@.tv_sec == other@.tv_sec && self@.tv_nsec
            < other@.tv_nsec)
    }

    proof fn lemma_irreflexive(a: Time) {
    }

    proof fn lemma_transitive(a: Time, b: Time, c: Time) {
    }

    proof fn lemma_total(a: Time, b: Time) {
    }

    fn lt(&self, other: &Time) -> (r: bool) {
        self.time.tv_sec < other.time.tv_sec || (self.time.tv_sec == other.time.tv_sec
            && self.time.tv_nsec < other.time.tv_nsec)
    }
}

/// Returns the time of the system's clock, counted from the Unix epoch.
pub fn realtime() -> (r: Time)
    ensures
        r.is_normal(),
        r@.tv_sec >= 0,
{
    let (secs, nanos) = system_clock();
    let tv_sec: i64 = if secs > i64::MAX as u64 {
        i64::MAX
    } else {
        secs as i64
    };
    Time { time: timespec { tv_sec, tv_nsec: nanos as i64 } }
}

/// `SystemTime::now` of std, as the time since `UNIX_EPOCH`: whole seconds
/// and the nanoseconds beyond them, which are fewer than a second. A clock
/// set before the epoch reads as the epoch.
#[verifier::external_body]
fn system_clock() -> (r: (u64, u32))
    ensures
        r.1 < NANOS_PER_SECOND,
{
    match std::time::SystemTime::now().duration_since(std::time::UNIX_EPOCH) {
        Ok(since) => (since.as_secs(), since.subsec_nanos()),
        Err(_) => (0, 0),
    }
}

} // verus!
