use rust_core::order::{compare, max, min, Comparison};
use rust_core::time::Time;
use rust_core::c_types::timespec;

#[test]
fn max_and_min_of_integers() {
    assert_eq!(max(3u32, 9), 9);
    assert_eq!(max(9u32, 3), 9);
    assert_eq!(min(3i8, -9), -9);
    assert_eq!(min(-9i8, 3), -9);
    assert_eq!(max(4u8, 4), 4);
    assert_eq!(min(false, true), false);
    assert_eq!(max(false, true), true);
}

#[test]
fn three_way_comparison() {
    assert_eq!(compare(&1u8, &2), Comparison::Less);
    assert_eq!(compare(&2u8, &1), Comparison::Greater);
    assert_eq!(compare(&2u8, &2), Comparison::Equal);
    assert_eq!(rust_core::order::Ord::cmp(&-1i64, &1), Comparison::Less);
}

#[test]
fn the_comparisons_of_the_primitive_types() {
    assert!(rust_core::order::Ord::lt(&1u16, &2));
    assert!(rust_core::order::Ord::le(&2u16, &2));
    assert!(rust_core::order::Ord::gt(&3i32, &2));
    assert!(rust_core::order::Ord::ge(&2usize, &2));
    assert!(!rust_core::order::Ord::lt(&(), &()));
    assert!(rust_core::order::Ord::le(&(), &()));
    assert!(rust_core::order::Eq::eq(&'x', &'x'));
    assert!(rust_core::order::Eq::ne(&'x', &'y'));
    assert!(rust_core::order::Eq::eq(&(), &()));
    assert!(rust_core::order::Ord::gt(&true, &false));
    assert!(rust_core::order::Ord::lt(&'a', &'b'));
    assert!(!rust_core::order::Ord::lt(&'b', &'a'));
    assert_eq!(max('x', '\u{e9}'), '\u{e9}');
}

#[test]
fn times_are_ordered_by_seconds_then_nanoseconds() {
    let a = Time::from_timespec(timespec { tv_sec: 1, tv_nsec: 999 });
    let b = Time::from_timespec(timespec { tv_sec: 2, tv_nsec: 0 });
    let c = Time::from_timespec(timespec { tv_sec: 2, tv_nsec: 5 });
    assert!(rust_core::order::Ord::lt(&a, &b));
    assert!(!rust_core::order::Ord::lt(&b, &a));
    assert!(rust_core::order::Ord::lt(&b, &c));
    assert!(!rust_core::order::Ord::lt(&c, &c));
    assert!(rust_core::order::Eq::eq(&c, &c));
    assert!(rust_core::order::Eq::ne(&a, &c));
    assert_eq!(max(a, c).to_timespec(), timespec { tv_sec: 2, tv_nsec: 5 });
}

#[test]
fn time_keeps_its_timespec() {
    assert_eq!(Time::from_seconds(7).to_timespec(), timespec { tv_sec: 7, tv_nsec: 0 });
    let t = timespec { tv_sec: -3, tv_nsec: 12 };
    assert_eq!(Time::from_timespec(t).to_timespec(), t);
}

#[test]
fn wait_spans() {
    assert_eq!(Time::from_seconds(7).to_wait_span(), (7, 0));
    assert_eq!(Time::from_seconds(-7).to_wait_span(), (0, 0));
    let t = Time::from_timespec(timespec { tv_sec: 1, tv_nsec: 999_999_999 });
    assert_eq!(t.to_wait_span(), (1, 999_999_999));
}

#[test]
fn the_system_clock_is_past_the_epoch() {
    let now = rust_core::time::realtime().to_timespec();
    assert!(now.tv_sec > 1_000_000_000);
    assert!(now.tv_nsec >= 0 && now.tv_nsec < 1_000_000_000);
}

#[test]
fn ignore_takes_anything() {
    rust_core::ignore(5);
    rust_core::ignore(vec![1, 2]);
}

#[test]
fn clones_are_the_same_value() {
    assert_eq!(rust_core::clone::Clone::clone(&5u8), 5);
    assert_eq!(rust_core::clone::DeepClone::deep_clone(&-5i64), -5);
    assert_eq!(rust_core::clone::Clone::clone(&Box::new(7u32)), Box::new(7));
    let mut x = 1u16;
    rust_core::clone::Clone::clone_from(&mut x, &9);
    assert_eq!(x, 9);
    rust_core::clone::DeepClone::deep_clone_from(&mut x, &10);
    assert_eq!(x, 10);
    let a = rust_core::arc::Arc::new(String::from("shared"));
    let b = rust_core::clone::Clone::clone(&a);
    assert_eq!(a.borrow(), "shared");
    assert!(std::ptr::eq(a.borrow(), b.borrow()));
    let c = rust_core::clone::DeepClone::deep_clone(&rust_core::arc::Arc::new(3u8));
    assert_eq!(*c.borrow(), 3);
}

#[test]
fn arc_and_the_handle_of_std() {
    let a = rust_core::arc::Arc::new(5u32);
    let same = rust_core::arc::Arc::from_std(a.as_std().clone());
    assert!(std::ptr::eq(a.borrow(), same.borrow()));
    assert_eq!(std::sync::Arc::strong_count(a.as_std()), 2);
}
