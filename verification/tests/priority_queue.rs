use rust_core::priority_queue::PriorityQueue;

#[test]
fn priority_queue_new_is_empty() {
    let mut q: PriorityQueue<u32> = PriorityQueue::new();
    assert_eq!(q.len(), 0);
    assert_eq!(q.top(), None);
    assert_eq!(q.pop(), None);
}

#[test]
fn priority_queue_with_capacity_has_room() {
    let q: PriorityQueue<u32> = PriorityQueue::with_capacity(16);
    assert_eq!(q.len(), 0);
    assert!(q.capacity() >= 16);
}

#[test]
fn priority_queue_reserve_keeps_the_elements() {
    let mut q: PriorityQueue<u32> = PriorityQueue::new();
    q.push(3);
    q.reserve(100);
    assert!(q.capacity() >= 100);
    q.reserve(2);
    assert!(q.capacity() >= 100);
    assert_eq!(q.pop(), Some(3));
}

#[test]
fn test_new() {
    let xs = PriorityQueue::<isize>::new();
    assert_eq!(xs.len(), 0);
    assert_eq!(xs.capacity(), 0);
}

#[test]
fn test_with_capacity() {
    let xs = PriorityQueue::<isize>::with_capacity(50);
    assert_eq!(xs.len(), 0);
    assert!(xs.capacity() >= 50);
}

#[test]
fn test_with_capacity_zero() {
    let xs = PriorityQueue::<isize>::with_capacity(0);
    assert_eq!(xs.len(), 0);
    assert_eq!(xs.capacity(), 0);
}

#[test]
fn test_reserve() {
    let mut xs = PriorityQueue::<isize>::new();
    xs.reserve(10);
    assert_eq!(xs.len(), 0);
    assert!(xs.capacity() >= 10);
}

#[test]
fn test_destructor() {
    let mut xs = PriorityQueue::with_capacity(10);
    xs.push(rust_core::rc::Rc::new(10));
    xs.push(rust_core::rc::Rc::new(2));
    xs.push(rust_core::rc::Rc::new(5));
    xs.push(rust_core::rc::Rc::new(11));
    assert_eq!(xs.len(), 4);
}

#[test]
fn test_push_top_pop() {
    let mut heap = PriorityQueue::new();
    let mut len = 0;
    for (item, top) in [(2, 2), (4, 4), (9, 9), (11, 11), (5, 11), (27, 27), (3, 27), (103, 103)] {
        heap.push(item);
        len += 1;
        assert_eq!(heap.len(), len);
        assert_eq!(heap.top(), Some(&top));
    }
    for want in [103, 27, 11, 9, 5, 4, 3] {
        assert_eq!(heap.pop(), Some(want));
    }
    assert_eq!(heap.len(), 1);
}

#[test]
fn priority_queue_push_top_pop() {
    let mut q: PriorityQueue<i32> = PriorityQueue::new();
    for x in [2, 4, 6, 2, 1, 8, 10, 3, 5, 7, 0, 9, 1] {
        q.push(x);
    }
    assert_eq!(q.len(), 13);
    assert_eq!(q.top(), Some(&10));
    let mut out = Vec::new();
    while let Some(x) = q.pop() {
        out.push(x);
    }
    assert_eq!(out, vec![10, 9, 8, 7, 6, 5, 4, 3, 2, 2, 1, 1, 0]);
}

#[test]
fn priority_queue_pop_is_always_the_maximum() {
    let mut q: PriorityQueue<u64> = PriorityQueue::new();
    let mut held: Vec<u64> = Vec::new();
    let mut x: u64 = 12345;
    for round in 0..500 {
        x = x.wrapping_mul(6364136223846793005).wrapping_add(1442695040888963407);
        if round % 3 == 2 {
            let want = held.iter().copied().max();
            let got = q.pop();
            assert_eq!(got, want);
            if let Some(m) = got {
                let at = held.iter().position(|h| *h == m).unwrap();
                held.swap_remove(at);
            }
        } else {
            q.push(x >> 40);
            held.push(x >> 40);
        }
    }
}

#[test]
fn priority_queue_from_vec_and_sorted() {
    let q = PriorityQueue::from_vec(vec![5u8, 1, 9, 3, 9, 0, 7]);
    assert_eq!(q.len(), 7);
    assert_eq!(q.top(), Some(&9));
    assert_eq!(q.to_sorted_vec(), vec![0, 1, 3, 5, 7, 9, 9]);
}

#[test]
fn priority_queue_to_vec_holds_the_elements() {
    let q = PriorityQueue::from_vec(vec![4u8, 8, 2]);
    let mut v = q.to_vec();
    assert_eq!(v[0], 8);
    v.sort();
    assert_eq!(v, vec![2, 4, 8]);
}

#[test]
fn priority_queue_sorts_the_empty_and_the_single() {
    let q: PriorityQueue<u8> = PriorityQueue::from_vec(vec![]);
    assert_eq!(q.to_sorted_vec(), Vec::<u8>::new());
    let q = PriorityQueue::from_vec(vec![3u8]);
    assert_eq!(q.to_sorted_vec(), vec![3]);
}
