use rust_core::container::Container;
use rust_core::hash::{next_power_of_two, resize_at, HashBytes, HashMap, State};

fn reference_key() -> (u64, u64) {
    (0x0706050403020100, 0x0f0e0d0c0b0a0908)
}

#[test]
fn siphash_of_nothing() {
    let (k0, k1) = reference_key();
    let s = State::new(k0, k1);
    assert_eq!(s.result(), 0x726fdb47dd0e0e31);
}

#[test]
fn siphash_of_fifteen_bytes() {
    let (k0, k1) = reference_key();
    let msg: Vec<u8> = (0u8..15).collect();
    let mut s = State::new(k0, k1);
    s.write(&msg);
    assert_eq!(s.result(), 0xa129ca6149be45e5);
}

#[test]
fn siphash_of_eight_bytes() {
    let (k0, k1) = reference_key();
    let msg: Vec<u8> = (0u8..8).collect();
    let mut s = State::new(k0, k1);
    s.write(&msg);
    assert_eq!(s.result(), 0x93f5f5799a932462);
}

#[test]
fn siphash_does_not_depend_on_how_the_bytes_arrive() {
    let (k0, k1) = reference_key();
    let msg: Vec<u8> = (0u8..63).collect();
    let mut whole = State::new(k0, k1);
    whole.write(&msg);
    let want = whole.result();
    for cut in 0..msg.len() {
        for cut2 in cut..msg.len() {
            let mut s = State::new(k0, k1);
            s.write(&msg[..cut]);
            s.write(&msg[cut..cut2]);
            s.write(&msg[cut2..]);
            assert_eq!(s.result(), want);
        }
    }
}

#[test]
fn state_reset_starts_again() {
    let (k0, k1) = reference_key();
    let mut s = State::new(k0, k1);
    s.write(&[1, 2, 3]);
    s.reset();
    assert_eq!(s.result(), 0x726fdb47dd0e0e31);
}

#[test]
fn hash_of_u64_is_siphash_of_its_little_endian_bytes() {
    let (k0, k1) = reference_key();
    let x: u64 = 0x0706050403020100;
    assert_eq!(rust_core::hash::Hash::hash(&x, k0, k1), 0x93f5f5799a932462);
}

#[test]
fn hash_bytes_of_integers() {
    let (k0, k1) = reference_key();
    let mut a = State::new(k0, k1);
    0x0100u16.hash_bytes(&mut a);
    0x05040302u32.hash_bytes(&mut a);
    6u8.hash_bytes(&mut a);
    7i8.hash_bytes(&mut a);
    let mut b = State::new(k0, k1);
    b.write(&[0, 1, 2, 3, 4, 5, 6, 7]);
    assert_eq!(a.result(), b.result());
}

#[test]
fn hash_bytes_of_a_slice_starts_with_its_length() {
    let (k0, k1) = reference_key();
    let xs: &[u8] = &[9, 8, 7];
    let mut a = State::new(k0, k1);
    xs.hash_bytes(&mut a);
    let mut b = State::new(k0, k1);
    b.write(&[3, 0, 0, 0, 0, 0, 0, 0, 9, 8, 7]);
    assert_eq!(a.result(), b.result());
}

#[test]
fn resize_at_is_three_quarters() {
    assert_eq!(resize_at(32), 24);
    assert_eq!(resize_at(1), 0);
    assert_eq!(resize_at(7), 5);
    assert_eq!(resize_at(usize::MAX), usize::MAX / 4 * 3 + 2);
}

#[test]
fn next_power_of_two_rounds_up() {
    assert_eq!(next_power_of_two(1), 1);
    assert_eq!(next_power_of_two(2), 2);
    assert_eq!(next_power_of_two(3), 4);
    assert_eq!(next_power_of_two(33), 64);
    assert_eq!(next_power_of_two(64), 64);
}

#[test]
fn hash_map_swap_find_pop() {
    let mut m: HashMap<char, i32> = HashMap::with_capacity_and_keys(1, 2, 0);
    assert_eq!(m.len(), 0);
    assert_eq!(m.swap('a', 1), None);
    assert_eq!(m.swap('a', 2), Some(1));
    assert_eq!(m.find(&'a'), Some(&2));
    assert_eq!(m.len(), 1);
    assert_eq!(m.pop(&'a'), Some(2));
    assert_eq!(m.find(&'a'), None);
    assert_eq!(m.pop(&'a'), None);
    assert_eq!(m.len(), 0);
}

#[test]
fn hash_map_grows_and_keeps_its_keys() {
    let mut m: HashMap<u64, u64> = HashMap::with_capacity_and_keys(7, 9, 0);
    for i in 0..1000u64 {
        assert_eq!(m.swap(i, i * i), None);
    }
    assert_eq!(m.len(), 1000);
    for i in 0..1000u64 {
        assert_eq!(m.find(&i), Some(&(i * i)));
    }
    assert_eq!(m.find(&1000), None);
}

#[test]
fn hash_map_pop_keeps_the_other_keys_in_reach() {
    let mut m: HashMap<u32, u32> = HashMap::with_capacity_and_keys(3, 4, 0);
    let mut model = std::collections::BTreeMap::new();
    let mut x: u32 = 99;
    for _ in 0..4000 {
        x = x.wrapping_mul(1664525).wrapping_add(1013904223);
        let key = (x >> 16) % 64;
        if x % 3 == 0 {
            assert_eq!(m.pop(&key), model.remove(&key));
        } else {
            assert_eq!(m.swap(key, x), model.insert(key, x));
        }
        assert_eq!(m.len(), model.len());
    }
    for key in 0..64u32 {
        assert_eq!(m.find(&key), model.get(&key));
    }
}

#[test]
fn hash_map_reserve_at_least_keeps_its_keys() {
    let mut m: HashMap<u8, u8> = HashMap::with_capacity_and_keys(0, 0, 0);
    for i in 0..20u8 {
        m.swap(i, i);
    }
    m.reserve_at_least(500);
    m.reserve_at_least(3);
    assert_eq!(m.len(), 20);
    for i in 0..20u8 {
        assert_eq!(m.find(&i), Some(&i));
    }
}

#[test]
fn hash_map_find_mut_changes_the_value() {
    let mut m: HashMap<u8, u32> = HashMap::with_capacity_and_keys(1, 1, 0);
    assert!(m.find_mut(&1).is_none());
    m.swap(1, 10);
    *m.find_mut(&1).unwrap() += 5;
    assert_eq!(m.find(&1), Some(&15));
    assert_eq!(m.len(), 1);
}

#[test]
fn hash_map_mangle_inserts_or_changes() {
    let mut m: HashMap<u8, u32> = HashMap::with_capacity_and_keys(1, 1, 0);
    assert_eq!(*m.mangle(7, 3, |k, a| *k as u32 + a, |_k, v: &mut u32, a| *v *= a), 10);
    assert_eq!(*m.mangle(7, 3, |k, a| *k as u32 + a, |_k, v: &mut u32, a| *v *= a), 30);
    *m.mangle(7, 0, |_k, _a| 0, |_k, _v: &mut u32, _a| ()) += 1;
    assert_eq!(m.find(&7), Some(&31));
    assert_eq!(m.len(), 1);
}

#[test]
fn hash_map_find_or_insert() {
    let mut m: HashMap<u8, u32> = HashMap::with_capacity_and_keys(1, 1, 0);
    assert_eq!(*m.find_or_insert(1, 10), 10);
    assert_eq!(*m.find_or_insert(1, 20), 10);
    assert_eq!(*m.find_or_insert_with(2, |k| *k as u32 * 100), 200);
    assert_eq!(*m.find_or_insert_with(2, |_k| 0), 200);
    assert_eq!(m.len(), 2);
}

#[test]
fn hash_map_insert_or_update_with() {
    let mut m: HashMap<u8, u32> = HashMap::with_capacity_and_keys(1, 1, 0);
    assert_eq!(*m.insert_or_update_with(1, 10, |_k, v: &mut u32| *v += 1), 10);
    assert_eq!(*m.insert_or_update_with(1, 10, |_k, v: &mut u32| *v += 1), 11);
    assert_eq!(*m.insert_or_update_with(1, 10, |k, v: &mut u32| *v += *k as u32), 12);
    assert_eq!(m.len(), 1);
}

#[test]
fn hash_map_mangle_grows_the_table() {
    let mut m: HashMap<u32, u32> = HashMap::with_capacity_and_keys(1, 1, 0);
    for i in 0..200u32 {
        *m.find_or_insert(i, 0) += i;
    }
    for i in 0..200u32 {
        *m.find_or_insert(i, 0) += 1;
    }
    assert_eq!(m.len(), 200);
    for i in 0..200u32 {
        assert_eq!(m.find(&i), Some(&(i + 1)));
    }
}
