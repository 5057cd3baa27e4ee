use rust_core::c_types::timespec;
use rust_core::time::{Clock, Time};

#[test]
fn a_deadline_is_now_and_the_span() {
    let at = |s: i64, n: i64| Time::from_timespec(timespec { tv_sec: s, tv_nsec: n });
    assert_eq!(at(5, 600_000_000).after(&at(2, 500_000_000)).to_timespec(), timespec { tv_sec: 8, tv_nsec: 100_000_000 });
    assert_eq!(at(5, 1).after(&at(0, 2)).to_timespec(), timespec { tv_sec: 5, tv_nsec: 3 });
    assert_eq!(at(5, 0).after(&at(-2, 500_000_000)).to_timespec(), timespec { tv_sec: 3, tv_nsec: 500_000_000 });
    assert_eq!(at(i64::MAX, 999_999_999).after(&at(0, 1)).to_timespec(), timespec { tv_sec: i64::MAX, tv_nsec: 999_999_999 });
    assert_eq!(at(i64::MAX, 0).after(&at(1, 0)).to_timespec(), timespec { tv_sec: i64::MAX, tv_nsec: 999_999_999 });
    assert_eq!(at(i64::MIN, 5).after(&at(-1, 0)).to_timespec(), timespec { tv_sec: i64::MIN, tv_nsec: 0 });
    assert_eq!(at(i64::MIN, 0).after(&at(-1, 999_999_999)).to_timespec(), timespec { tv_sec: i64::MIN, tv_nsec: 0 });
    assert_eq!(at(i64::MIN, 7).after(&at(-1, 999_999_999)).to_timespec(), timespec { tv_sec: i64::MIN, tv_nsec: 6 });
}

#[test]
fn the_span_until_a_deadline() {
    let at = |s: i64, n: i64| Time::from_timespec(timespec { tv_sec: s, tv_nsec: n });
    assert_eq!(at(5, 600_000_000).span_until(&at(8, 100_000_000)), (2, 500_000_000));
    assert_eq!(at(5, 0).span_until(&at(5, 0)), (0, 0));
    assert_eq!(at(5, 1).span_until(&at(5, 0)), (0, 0));
    assert_eq!(at(9, 0).span_until(&at(5, 0)), (0, 0));
    assert_eq!(at(-1, 0).span_until(&at(1, 5)), (2, 5));
    assert_eq!(at(i64::MIN, 0).span_until(&at(i64::MAX, 999_999_999)), (u64::MAX, 999_999_999));
}

#[test]
fn a_clock_counts_from_its_start() {
    let clock = Clock::start();
    let a = clock.monotonic();
    let began = std::time::Instant::now();
    while began.elapsed() < std::time::Duration::from_millis(5) {}
    let b = clock.monotonic();
    assert!(rust_core::order::Ord::lt(&a, &b));
    assert!(a.to_timespec().tv_sec < 5);
    let (secs, nanos) = a.span_until(&b);
    assert!(secs == 0 && nanos >= 5_000_000);
}
