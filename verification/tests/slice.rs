use rust_core::order::Comparison;
use rust_core::slice::{
    bsearch, bsearch_with, mut_slice, mut_slice_from, mut_slice_to, mut_split, slice, slice_from,
    slice_to, split, swap,
};

#[test]
fn swap_exchanges_two_elements() {
    let mut xs = [1, 2, 3, 4];
    swap(&mut xs, 0, 3);
    assert_eq!(xs, [4, 2, 3, 1]);
    swap(&mut xs, 2, 1);
    assert_eq!(xs, [4, 3, 2, 1]);
    swap(&mut xs, 1, 1);
    assert_eq!(xs, [4, 3, 2, 1]);
}

#[test]
fn bsearch_finds_what_is_there() {
    let xs = [1u32, 3, 5, 7, 9, 11, 13];
    for (i, x) in xs.iter().enumerate() {
        assert_eq!(bsearch(&xs, x), Some(i));
    }
    for x in [0u32, 2, 4, 6, 8, 10, 12, 14] {
        assert_eq!(bsearch(&xs, &x), None);
    }
    let none: [u32; 0] = [];
    assert_eq!(bsearch(&none, &1), None);
    assert_eq!(bsearch(&[4u32], &4), Some(0));
    assert_eq!(bsearch(&[4u32], &5), None);
}

#[test]
fn bsearch_with_follows_the_order_it_is_given() {
    let xs = [10i32, 20, 30, 40];
    let at = |target: i32| {
        bsearch_with(&xs, |x: &i32| {
            if *x < target {
                Comparison::Less
            } else if *x > target {
                Comparison::Greater
            } else {
                Comparison::Equal
            }
        })
    };
    assert_eq!(at(10), Some(0));
    assert_eq!(at(20), Some(1));
    assert_eq!(at(30), Some(2));
    assert_eq!(at(40), Some(3));
    assert_eq!(at(5), None);
    assert_eq!(at(25), None);
    assert_eq!(at(45), None);
}

#[test]
fn sub_slices() {
    let xs = [1, 2, 3, 4, 5];
    assert_eq!(slice(&xs, 1, 3), &[2, 3]);
    assert_eq!(slice(&xs, 2, 2), &[] as &[i32]);
    assert_eq!(slice_from(&xs, 3), &[4, 5]);
    assert_eq!(slice_to(&xs, 2), &[1, 2]);
    assert_eq!(split(&xs, 2), (&[1, 2][..], &[3, 4, 5][..]));
    assert_eq!(split(&xs, 5), (&xs[..], &[][..]));
}

#[test]
fn sub_slices_open_to_change() {
    let mut xs = [1, 2, 3, 4, 5];
    mut_slice(&mut xs, 1, 3)[0] = 20;
    assert_eq!(xs, [1, 20, 3, 4, 5]);
    mut_slice_from(&mut xs, 3)[1] = 50;
    assert_eq!(xs, [1, 20, 3, 4, 50]);
    mut_slice_to(&mut xs, 2)[0] = 10;
    assert_eq!(xs, [10, 20, 3, 4, 50]);
    let (a, b) = mut_split(&mut xs, 2);
    a[1] = 0;
    b[0] = 30;
    assert_eq!(xs, [10, 0, 30, 4, 50]);
}

#[test]
fn strings_as_bytes() {
    assert_eq!(rust_core::str::as_bytes("abc"), &[97, 98, 99]);
    assert_eq!(rust_core::container::Container::len(&"h\u{e9}"), 3);
    assert!(rust_core::container::Container::is_empty(&""));
    assert!(rust_core::str::eq_slice("same", "same"));
    assert!(!rust_core::str::eq_slice("same", "sane"));
    assert!(!rust_core::str::eq_slice("same", "sam"));
    assert!(rust_core::str::eq_slice("", ""));
    assert!(rust_core::str::same_bytes(&[1, 2, 3], &[1, 2, 4], 2));
    assert!(!rust_core::str::same_bytes(&[1, 2, 3], &[1, 2, 4], 3));
    assert!(rust_core::str::same_bytes(&[1], &[2], 0));
}
