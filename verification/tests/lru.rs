use rust_core::container::Container;
use rust_core::lru::LruCache;

#[test]
fn lru_cache_keeps_what_was_used_last() {
    let mut cache: LruCache<isize, isize> = LruCache::new(1, 2, 2);
    cache.put(1, 10);
    cache.put(2, 20);
    cache.put(3, 30);
    assert!(cache.get(&1).is_none());
    assert_eq!(cache.get(&2), Some(&20));
    assert_eq!(cache.get(&3), Some(&30));

    cache.put(2, 22);
    assert_eq!(cache.get(&2), Some(&22));

    cache.put(6, 60);
    assert!(cache.get(&3).is_none());

    cache.change_capacity(1);
    assert!(cache.get(&2).is_none());
    assert_eq!(cache.get(&6), Some(&60));
    assert_eq!(cache.capacity(), 1);
    assert_eq!(cache.len(), 1);
}

#[test]
fn lru_cache_get_makes_a_pair_the_one_used_last() {
    let mut cache: LruCache<u8, u8> = LruCache::new(0, 0, 3);
    cache.put(1, 1);
    cache.put(2, 2);
    cache.put(3, 3);
    assert_eq!(cache.get(&1), Some(&1));
    cache.put(4, 4);
    assert_eq!(cache.get(&2), None);
    assert_eq!(cache.get(&1), Some(&1));
    assert_eq!(cache.get(&3), Some(&3));
    assert_eq!(cache.get(&4), Some(&4));
    assert_eq!(cache.len(), 3);
}

#[test]
fn lru_cache_pop_takes_a_pair_out() {
    let mut cache: LruCache<u8, u8> = LruCache::new(0, 0, 3);
    cache.put(1, 10);
    cache.put(2, 20);
    cache.put(3, 30);
    assert_eq!(cache.pop(&2), Some(20));
    assert_eq!(cache.pop(&2), None);
    assert_eq!(cache.len(), 2);
    cache.put(4, 40);
    cache.put(5, 50);
    assert_eq!(cache.get(&1), None);
    assert_eq!(cache.pop(&3), Some(30));
    assert_eq!(cache.pop(&5), Some(50));
    assert_eq!(cache.pop(&4), Some(40));
    assert_eq!(cache.len(), 0);
    cache.put(6, 60);
    assert_eq!(cache.get(&6), Some(&60));
}

#[test]
fn lru_cache_for_nothing_holds_nothing() {
    let mut cache: LruCache<u8, u8> = LruCache::new(0, 0, 0);
    cache.put(1, 10);
    assert_eq!(cache.len(), 0);
    assert_eq!(cache.get(&1), None);
}

#[test]
fn lru_cache_change_capacity_lets_every_other_pair_beyond_go() {
    let mut cache: LruCache<u8, u8> = LruCache::new(0, 0, 5);
    for i in 1..=5 {
        cache.put(i, i);
    }
    cache.change_capacity(1);
    assert_eq!(cache.capacity(), 1);
    assert_eq!(cache.len(), 3);
    assert_eq!(cache.get(&1), None);
    assert_eq!(cache.get(&2), None);
    assert_eq!(cache.get(&3), Some(&3));
    cache.change_capacity(10);
    assert_eq!(cache.len(), 3);
    cache.change_capacity(0);
    assert_eq!(cache.len(), 1);
    assert_eq!(cache.get(&3), Some(&3));
}

#[test]
fn lru_cache_against_a_list() {
    let mut cache: LruCache<u32, u32> = LruCache::new(9, 9, 8);
    let mut list: Vec<(u32, u32)> = Vec::new();
    let mut x: u32 = 5;
    for _ in 0..5000 {
        x = x.wrapping_mul(1664525).wrapping_add(1013904223);
        let key = (x >> 20) % 16;
        match (x >> 8) % 3 {
            0 => {
                let at = list.iter().position(|p| p.0 == key);
                match at {
                    Some(at) => {
                        list.remove(at);
                        list.insert(0, (key, x));
                    }
                    None => {
                        list.insert(0, (key, x));
                        if list.len() > 8 {
                            list.pop();
                        }
                    }
                }
                cache.put(key, x);
            }
            1 => {
                let at = list.iter().position(|p| p.0 == key);
                let want = at.map(|at| {
                    let pair = list.remove(at);
                    list.insert(0, pair);
                    pair.1
                });
                assert_eq!(cache.get(&key).copied(), want);
            }
            _ => {
                let at = list.iter().position(|p| p.0 == key);
                let want = at.map(|at| list.remove(at).1);
                assert_eq!(cache.pop(&key), want);
            }
        }
        assert_eq!(cache.len(), list.len());
    }
}
