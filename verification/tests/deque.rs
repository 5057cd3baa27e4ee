use rust_core::container::Container;
use rust_core::deque::{raw_index, Deque};

#[test]
fn deque_new_is_empty_without_slots() {
    let d: Deque<u32> = Deque::new();
    assert_eq!(d.len(), 0);
    assert_eq!(d.capacity(), 0);
    assert!(d.is_empty());
}

#[test]
fn deque_with_capacity_has_the_slots() {
    let d: Deque<u32> = Deque::with_capacity(7);
    assert_eq!(d.len(), 0);
    assert_eq!(d.capacity(), 7);
}

#[test]
fn deque_with_capacity_zero() {
    let mut d: Deque<u32> = Deque::with_capacity(0);
    assert_eq!(d.capacity(), 0);
    d.push_back(1);
    assert_eq!(d.capacity(), 4);
    assert_eq!(d.pop_front(), Some(1));
}

#[test]
fn deque_reserve_keeps_the_elements() {
    let mut d: Deque<u32> = Deque::new();
    for i in 0..6 {
        d.push_back(i);
    }
    d.pop_front();
    d.pop_front();
    d.push_back(6);
    d.push_back(7);
    d.push_back(8);
    d.reserve(40);
    assert_eq!(d.capacity(), 40);
    assert_eq!(d.len(), 7);
    for i in 0..7usize {
        assert_eq!(d.get(i), Some(&(i as u32 + 2)));
    }
    d.reserve(3);
    assert_eq!(d.capacity(), 40);
}

#[test]
fn deque_is_first_in_first_out() {
    let mut d: Deque<u32> = Deque::new();
    for i in 0..100 {
        d.push_back(i);
    }
    for i in 0..100 {
        assert_eq!(d.pop_front(), Some(i));
    }
    assert_eq!(d.pop_front(), None);
}

#[test]
fn deque_grows_by_doubling() {
    let mut d: Deque<u32> = Deque::new();
    d.push_back(0);
    assert_eq!(d.capacity(), 4);
    for i in 1..5 {
        d.push_back(i);
    }
    assert_eq!(d.capacity(), 8);
    for i in 5..9 {
        d.push_back(i);
    }
    assert_eq!(d.capacity(), 16);
}

#[test]
fn deque_grows_while_wrapped_with_short_head() {
    // lo is near the start: the wrapped part is the shorter one
    let mut d: Deque<u32> = Deque::with_capacity(4);
    for i in 0..4 {
        d.push_back(i);
    }
    assert_eq!(d.pop_front(), Some(0));
    d.push_back(4);
    d.push_back(5);
    assert_eq!(d.capacity(), 8);
    let got: Vec<u32> = (0..d.len()).map(|i| *d.get(i).unwrap()).collect();
    assert_eq!(got, vec![1, 2, 3, 4, 5]);
}

#[test]
fn deque_grows_while_wrapped_with_short_tail() {
    // lo is near the end: the part from lo on is the shorter one
    let mut d: Deque<u32> = Deque::with_capacity(4);
    for i in 0..4 {
        d.push_back(i);
    }
    for i in 0..3 {
        assert_eq!(d.pop_front(), Some(i));
    }
    for i in 4..7 {
        d.push_back(i);
    }
    d.push_back(7);
    assert_eq!(d.capacity(), 8);
    let got: Vec<u32> = (0..d.len()).map(|i| *d.get(i).unwrap()).collect();
    assert_eq!(got, vec![3, 4, 5, 6, 7]);
}

#[test]
fn deque_works_at_both_ends() {
    let mut d: Deque<i32> = Deque::new();
    d.push_front(2);
    d.push_front(1);
    d.push_back(3);
    d.push_front(0);
    d.push_back(4);
    assert_eq!(d.len(), 5);
    assert_eq!(d.get(0), Some(&0));
    assert_eq!(d.get(4), Some(&4));
    assert_eq!(d.get(5), None);
    assert_eq!(d.pop_back(), Some(4));
    assert_eq!(d.pop_front(), Some(0));
    assert_eq!(d.pop_back(), Some(3));
    assert_eq!(d.pop_back(), Some(2));
    assert_eq!(d.pop_back(), Some(1));
    assert_eq!(d.pop_back(), None);
    assert_eq!(d.pop_front(), None);
}

#[test]
fn deque_swap_exchanges_two_elements() {
    let mut d: Deque<u32> = Deque::new();
    for i in 0..5 {
        d.push_back(i);
    }
    d.swap(1, 3);
    d.swap(2, 2);
    let got: Vec<u32> = (0..d.len()).map(|i| *d.get(i).unwrap()).collect();
    assert_eq!(got, vec![0, 3, 2, 1, 4]);
}

#[test]
fn raw_index_wraps_round() {
    assert_eq!(raw_index(0, 8, 3), 3);
    assert_eq!(raw_index(6, 8, 1), 7);
    assert_eq!(raw_index(6, 8, 2), 0);
    assert_eq!(raw_index(7, 8, 7), 6);
}

#[test]
fn deque_get_mut_changes_one_element() {
    let mut d: Deque<u32> = Deque::with_capacity(4);
    for i in 0..4 {
        d.push_back(i);
    }
    d.pop_front();
    d.push_back(4);
    *d.get_mut(3).unwrap() = 40;
    *d.get_mut(0).unwrap() += 10;
    assert!(d.get_mut(4).is_none());
    let got: Vec<u32> = (0..d.len()).map(|i| *d.get(i).unwrap()).collect();
    assert_eq!(got, vec![11, 2, 3, 40]);
}

#[test]
fn deque_test_new() {
    let xs = Deque::<isize>::new();
    assert_eq!(xs.len(), 0);
    assert_eq!(xs.capacity(), 0);
}

#[test]
fn deque_test_with_capacity() {
    let xs = Deque::<isize>::with_capacity(50);
    assert_eq!(xs.len(), 0);
    assert_eq!(xs.capacity(), 50);
}

#[test]
fn deque_test_with_capacity_zero() {
    let xs = Deque::<isize>::with_capacity(0);
    assert_eq!(xs.len(), 0);
    assert_eq!(xs.capacity(), 0);
}

#[test]
fn deque_test_reserve() {
    let mut xs = Deque::<isize>::new();
    xs.reserve(10);
    assert_eq!(xs.len(), 0);
    assert_eq!(xs.capacity(), 10);
}

#[test]
fn deque_test_destructor() {
    let mut xs = Deque::with_capacity(10);
    xs.push_back(Box::new(10));
    xs.push_back(Box::new(2));
    xs.push_back(Box::new(5));
    xs.push_back(Box::new(11));
    assert_eq!(xs.len(), 4);
}

#[test]
fn test_swap() {
    let mut xs = Deque::new();
    xs.push_back(3);
    xs.push_front(2);
    xs.push_back(4);
    xs.push_front(1);
    xs.push_back(5);
    let content = |xs: &Deque<i32>| -> Vec<i32> { (0..5).map(|i| *xs.get(i).unwrap()).collect() };
    assert_eq!(content(&xs), vec![1, 2, 3, 4, 5]);
    xs.swap(2, 4);
    assert_eq!(content(&xs), vec![1, 2, 5, 4, 3]);
    xs.swap(3, 2);
    assert_eq!(content(&xs), vec![1, 2, 4, 5, 3]);
}
