use rust_core::iter::{DoubleEndedIterator, Iterator};
use rust_core::slice::iter;

#[test]
fn slice_iterator_hands_out_first_to_last() {
    let xs = [1, 2, 3];
    let mut it = iter(&xs);
    assert_eq!(it.size_hint(), (3, Some(3)));
    assert_eq!(it.next(), Some(&1));
    assert_eq!(it.next_back(), Some(&3));
    assert_eq!(it.size_hint(), (1, Some(1)));
    assert_eq!(it.next(), Some(&2));
    assert_eq!(it.next(), None);
    assert_eq!(it.next_back(), None);
}

#[test]
fn inverted_iterator_hands_out_last_to_first() {
    let xs = [1, 2, 3, 4];
    let mut it = iter(&xs).invert();
    assert_eq!(it.size_hint(), (4, Some(4)));
    assert_eq!(it.next(), Some(&4));
    assert_eq!(it.next_back(), Some(&1));
    assert_eq!(it.next(), Some(&3));
    assert_eq!(it.next(), Some(&2));
    assert_eq!(it.next(), None);
}

#[test]
fn fold_folds_first_to_last() {
    let xs = [1u32, 2, 3];
    assert_eq!(iter(&xs).fold(0, |acc, x| acc * 10 + *x), 123);
    assert_eq!(iter(&xs).invert().fold(0, |acc, x| acc * 10 + *x), 321);
    let none: [u32; 0] = [];
    assert_eq!(iter(&none).fold(7, |acc, x| acc + *x), 7);
}

#[test]
fn all_stops_at_the_first_failure() {
    let xs = [2, 4, 5, 6];
    let mut it = iter(&xs);
    assert!(!it.all(|x| *x % 2 == 0));
    assert_eq!(it.next(), Some(&6));
    assert!(iter(&xs[..2]).all(|x| *x % 2 == 0));
    let none: [u32; 0] = [];
    assert!(iter(&none).all(|_x| false));
}

#[test]
fn any_stops_at_the_first_success() {
    let xs = [2, 4, 5, 6];
    let mut it = iter(&xs);
    assert!(it.any(|x| *x % 2 == 1));
    assert_eq!(it.next(), Some(&6));
    assert!(!iter(&xs[..2]).any(|x| *x % 2 == 1));
    let none: [u32; 0] = [];
    assert!(!iter(&none).any(|_x| true));
}
