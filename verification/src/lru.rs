//! A cache holding a limited number of key-value pairs. When a new pair
//! goes in and the cache then holds more than it may, the pair that was
//! used least recently leaves. A pair is used when it is looked up or put
//! into the cache.
//!
//! The pairs live in a hash map. Each one knows the keys of its neighbours
//! in the order of use, so that the pairs form a doubly linked list from
//! the one used last to the one used least recently.
use vstd::prelude::*;
use crate::container::Container;
use crate::hash::HashMap;

verus! {

/// A value in the cache with the keys of its neighbours in the order of
/// use: `prev` was used after it, `next` before it.
pub struct LruEntry<K, V> {
    value: V,
    next: Option<K>,
    prev: Option<K>,
}

impl<K, V> LruEntry<K, V> {
    /// Returns an entry with the value `v` and without neighbours.
    fn with_value(v: V) -> (r: LruEntry<K, V>)
        ensures
            r.value == v,
            r.next.is_none(),
            r.prev.is_none(),
    {
        LruEntry { value: v, next: None, prev: None }
    }
}

/// Each key of `order` is in `m`, with the key before it as `prev` and
/// the key behind it as `next`.
spec fn links_ok<K, V>(m: Map<K, LruEntry<K, V>>, order: Seq<K>) -> bool {
    forall|i: int|
        0 <= i < order.len() ==> m.contains_key(#[trigger] order[i]) && m[order[i]].prev == (if i
            == 0 {
            None
        } else {
            Some(order[i - 1])
        }) && m[order[i]].next == (if i == order.len() - 1 {
            None
        } else {
            Some(order[i + 1])
        })
}

/// `head` is the first key of `order` and `tail` the last.
spec fn ends_ok<K>(order: Seq<K>, head: Option<K>, tail: Option<K>) -> bool {
    &&& head == if order.len() == 0 {
        None
    } else {
        Some(order.first())
    }
    &&& tail == if order.len() == 0 {
        None
    } else {
        Some(order.last())
    }
}

/// `order` lists the keys of `m` but `skip`, each once.
spec fn keys_ok<K, V>(m: Map<K, LruEntry<K, V>>, order: Seq<K>, skip: Option<K>) -> bool {
    &&& order.no_duplicates()
    &&& forall|k: K| Some(k) != skip ==> (m.contains_key(k) <==> order.contains(k))
    &&& skip.is_some() ==> m.contains_key(skip.unwrap()) && !order.contains(skip.unwrap())
}

/// The pairs of `m` in the order `order`.
spec fn pairs_of<K, V>(m: Map<K, LruEntry<K, V>>, order: Seq<K>) -> Seq<(K, V)> {
    Seq::new(order.len(), |i: int| (order[i], m[order[i]].value))
}

/// Returns a copy of a key that may be there.
fn copy_key<K: crate::clone::Clone>(key: &Option<K>) -> (r: Option<K>)
    ensures
        r == *key,
{
    match key {
        Some(k) => Some(k.clone()),
        None => None,
    }
}

/// An LRU cache. Its view is the sequence of its pairs, the one used last first.
pub struct LruCache<K: crate::hash::Hash + crate::order::Eq + crate::clone::Clone, V> {
    map: HashMap<K, LruEntry<K, V>>,
    max_size: usize,
    head: Option<K>,
    tail: Option<K>,
    order: Ghost<Seq<K>>,
}

impl<K: crate::hash::Hash + crate::order::Eq + crate::clone::Clone, V> LruCache<K, V> {
    /// The list of the pairs is consistent but for the key `skip`, which
    /// is in the map and not in the list.
    spec fn wf_except(&self, skip: Option<K>) -> bool {
        &&& keys_ok(self.map@, self.order@, skip)
        &&& links_ok(self.map@, self.order@)
        &&& ends_ok(self.order@, self.head, self.tail)
    }

    /// The cache is consistent: its list holds the keys of its map, each once.
    pub closed spec fn wf(&self) -> bool {
        self.wf_except(None)
    }

    /// The pairs, the one used last first.
    pub closed spec fn view(&self) -> Seq<(K, V)> {
        pairs_of(self.map@, self.order@)
    }

    /// The number of pairs that the cache is meant to hold at most.
    pub closed spec fn limit(&self) -> usize {
        self.max_size
    }

    /// Returns an empty cache for `capacity` pairs, with the hash key `(k0, k1)`.
    pub fn new(k0: u64, k1: u64, capacity: usize) -> (r: LruCache<K, V>)
        ensures
            r.wf(),
            r@ == Seq::<(K, V)>::empty(),
            r.limit() == capacity,
    {
        let r = LruCache {
            map: HashMap::with_capacity_and_keys(k0, k1, capacity),
            max_size: capacity,
            head: None,
            tail: None,
            order: Ghost(Seq::empty()),
        };
        assert(r@ =~= Seq::<(K, V)>::empty());
        r
    }

    /// Returns the number of pairs that the cache is meant to hold at most.
    pub fn capacity(&self) -> (n: usize)
        ensures
            n == self.limit(),
    {
        self.max_size
    }
}

/// Taking the key at position `p` out of the list: its neighbours become
/// neighbours of each other. `after` is the map with their links mended.
proof fn lemma_detach<K, V>(m: Map<K, LruEntry<K, V>>, order: Seq<K>, p: int, after: Map<K, LruEntry<K, V>>)
    requires
        keys_ok(m, order, None),
        links_ok(m, order),
        0 <= p < order.len(),
        after.dom() == m.dom(),
        forall|k: K| #[trigger] m.contains_key(k) ==> after[k].value == m[k].value,
        forall|i: int|
            0 <= i < order.len() && i != p - 1 ==> (#[trigger] after[order[i]]).next == m[order[i]].next,
        forall|i: int|
            0 <= i < order.len() && i != p + 1 ==> (#[trigger] after[order[i]]).prev == m[order[i]].prev,
        p > 0 ==> after[order[p - 1]].next == m[order[p]].next,
        p < order.len() - 1 ==> after[order[p + 1]].prev == m[order[p]].prev,
    ensures
        keys_ok(after, order.remove(p), Some(order[p])),
        links_ok(after, order.remove(p)),
        pairs_of(after, order.remove(p)) == pairs_of(m, order).remove(p),
{
    let rest = order.remove(p);
    assert(rest.no_duplicates()) by {
        assert forall|i: int, j: int| 0 <= i < rest.len() && 0 <= j < rest.len() && i != j implies rest[i]
            != rest[j] by {
            let a = if i < p { i } else { i + 1 };
            let b = if j < p { j } else { j + 1 };
            assert(order[a] != order[b]);
        }
    }
    assert forall|k: K| Some(k) != Some(order[p]) implies (after.contains_key(k) <==> rest.contains(k)) by {
        if after.contains_key(k) {
            assert(m.contains_key(k));
            assert(order.contains(k));
            let i = choose|i: int| 0 <= i < order.len() && order[i] == k;
            let at = if i < p { i } else { i - 1 };
            assert(rest[at] == k);
        }
        if rest.contains(k) {
            let i = choose|i: int| 0 <= i < rest.len() && rest[i] == k;
            let at = if i < p { i } else { i + 1 };
            assert(order[at] == k);
            assert(order.contains(k));
        }
    }
    assert(!rest.contains(order[p])) by {
        if rest.contains(order[p]) {
            let i = choose|i: int| 0 <= i < rest.len() && rest[i] == order[p];
            let at = if i < p { i } else { i + 1 };
            assert(order[at] == order[p]);
        }
    }
    assert(m.contains_key(order[p]));
    assert forall|i: int| 0 <= i < rest.len() implies after.contains_key(#[trigger] rest[i]) && after[rest[i]].prev
        == (if i == 0 {
        None
    } else {
        Some(rest[i - 1])
    }) && after[rest[i]].next == (if i == rest.len() - 1 {
        None
    } else {
        Some(rest[i + 1])
    }) by {
        let at = if i < p { i } else { i + 1 };
        assert(rest[i] == order[at]);
        assert(m.contains_key(order[at]));
        assert(m.contains_key(order[p]));
        if at + 1 < order.len() {
            assert(m.contains_key(order[at + 1]));
        }
        if at > 0 {
            assert(m.contains_key(order[at - 1]));
        }
    }
    assert(pairs_of(after, rest) =~= pairs_of(m, order).remove(p)) by {
        assert forall|i: int| 0 <= i < rest.len() implies pairs_of(after, rest)[i] == pairs_of(
            m,
            order,
        ).remove(p)[i] by {
            let at = if i < p { i } else { i + 1 };
            assert(m.contains_key(order[at]));
        }
    }
}

/// `order` with `k` in front of it.
spec fn with_front<K>(k: K, order: Seq<K>) -> Seq<K> {
    Seq::new(order.len() + 1, |i: int| if i == 0 { k } else { order[i - 1] })
}

/// Putting a key that is in the map and not in the list in front of the
/// list keeps the list a list of the keys of the map.
proof fn lemma_attach_keys<K, V>(m: Map<K, LruEntry<K, V>>, order: Seq<K>, k: K, after: Map<K, LruEntry<K, V>>)
    requires
        keys_ok(m, order, Some(k)),
        after.dom() == m.dom(),
    ensures
        keys_ok(after, with_front(k, order), None),
{
    let all = with_front(k, order);
    assert forall|i: int, j: int| 0 <= i < all.len() && 0 <= j < all.len() && i != j implies all[i]
        != all[j] by {
        if i > 0 && j > 0 {
            assert(order[i - 1] != order[j - 1]);
        } else if i == 0 {
            assert(order.contains(order[j - 1]));
        } else {
            assert(order.contains(order[i - 1]));
        }
    }
    assert forall|x: K| after.contains_key(x) <==> all.contains(x) by {
        if after.contains_key(x) {
            assert(m.contains_key(x));
            if x == k {
                assert(all[0] == k);
            } else {
                assert(order.contains(x));
                let i = choose|i: int| 0 <= i < order.len() && order[i] == x;
                assert(all[i + 1] == x);
            }
        }
        if all.contains(x) {
            let i = choose|i: int| 0 <= i < all.len() && all[i] == x;
            if i > 0 {
                assert(order[i - 1] == x);
                assert(order.contains(x));
            }
        }
    }
}

/// Putting a key in front of the list, with the links of the key and of
/// the old first key mended in `after`, keeps the links right.
proof fn lemma_attach_links<K, V>(m: Map<K, LruEntry<K, V>>, order: Seq<K>, k: K, after: Map<K, LruEntry<K, V>>)
    requires
        links_ok(m, order),
        after.contains_key(k),
        after.dom() == m.dom(),
        forall|x: K| #[trigger] m.contains_key(x) ==> after[x].value == m[x].value,
        after[k].prev.is_none(),
        after[k].next == (if order.len() == 0 {
            None
        } else {
            Some(order[0])
        }),
        forall|i: int| 0 <= i < order.len() ==> (#[trigger] after[order[i]]).next == m[order[i]].next,
        forall|i: int| 1 <= i < order.len() ==> (#[trigger] after[order[i]]).prev == m[order[i]].prev,
        order.len() > 0 ==> after[order[0]].prev == Some(k),
    ensures
        links_ok(after, with_front(k, order)),
        pairs_of(after, with_front(k, order)) == seq![(k, m[k].value)] + pairs_of(m, order),
{
    let all = with_front(k, order);
    assert forall|i: int| 0 <= i < all.len() implies after.contains_key(#[trigger] all[i]) && after[all[i]].prev
        == (if i == 0 {
        None
    } else {
        Some(all[i - 1])
    }) && after[all[i]].next == (if i == all.len() - 1 {
        None
    } else {
        Some(all[i + 1])
    }) by {
        if i > 0 {
            assert(all[i] == order[i - 1]);
            assert(m.contains_key(order[i - 1]));
            if i - 1 > 0 {
                assert(all[i - 1] == order[i - 2]);
            }
            if i < all.len() - 1 {
                assert(all[i + 1] == order[i]);
            }
        } else {
            if all.len() > 1 {
                assert(all[1] == order[0]);
            }
        }
    }
    let want = seq![(k, m[k].value)] + pairs_of(m, order);
    assert forall|i: int| 0 <= i < all.len() implies pairs_of(after, all)[i] == want[i] by {
        if i > 0 {
            assert(all[i] == order[i - 1]);
            assert(m.contains_key(order[i - 1]));
            assert(want[i] == pairs_of(m, order)[i - 1]);
        }
    }
    assert(pairs_of(after, all) =~= want);
}

impl<K: crate::hash::Hash + crate::order::Eq + crate::clone::Clone, V> LruCache<K, V> {
    /// Takes the key `k` out of the list. The key stays in the map.
    fn detach(&mut self, k: &K)
        requires
            old(self).wf(),
            old(self).map@.contains_key(*k),
        ensures
            final(self).wf_except(Some(*k)),
            old(self).order@.contains(*k),
            final(self).order@ == old(self).order@.remove(old(self).order@.index_of(*k)),
            pairs_of(final(self).map@, final(self).order@) == old(self)@.remove(
                old(self).order@.index_of(*k),
            ),
            final(self).map@[*k].value == old(self).map@[*k].value,
            final(self).max_size == old(self).max_size,
            final(self).map.keys() == old(self).map.keys(),
    {
        let ghost m = self.map@;
        let ghost order = self.order@;
        let ghost p = order.index_of(*k);
        proof {
            assert(order.contains(*k));
            assert(m.contains_key(order[p]));
            if p > 0 {
                assert(m.contains_key(order[p - 1]));
            }
            if p < order.len() - 1 {
                assert(m.contains_key(order[p + 1]));
            }
        }
        let (prev, next) = match self.map.find(k) {
            Some(entry) => (copy_key(&entry.prev), copy_key(&entry.next)),
            None => (None, None),
        };
        match &prev {
            Some(before) => {
                match self.map.find_mut(before) {
                    Some(entry) => {
                        entry.next = copy_key(&next);
                    },
                    None => {},
                }
            },
            None => {
                self.head = copy_key(&next);
            },
        }
        match &next {
            Some(behind) => {
                match self.map.find_mut(behind) {
                    Some(entry) => {
                        entry.prev = prev;
                    },
                    None => {},
                }
            },
            None => {
                self.tail = prev;
            },
        }
        self.order = Ghost(order.remove(p));
        proof {
            let after = self.map@;
            assert(after.dom() =~= m.dom());
            assert forall|i: int| 0 <= i < order.len() && i != p - 1 implies (#[trigger] after[order[i]]).next
                == m[order[i]].next by {
                assert(m.contains_key(order[i]));
            }
            assert forall|i: int| 0 <= i < order.len() && i != p + 1 implies (#[trigger] after[order[i]]).prev
                == m[order[i]].prev by {
                assert(m.contains_key(order[i]));
            }
            lemma_detach(m, order, p, after);
            let rest = order.remove(p);
            if rest.len() > 0 {
                assert(rest.first() == if p == 0 { order[1] } else { order[0] });
                assert(rest.last() == if p == order.len() - 1 {
                    order[order.len() - 2]
                } else {
                    order[order.len() - 1]
                });
            }
        }
    }

    /// Puts the key `k`, which is in the map and not in the list, in front
    /// of the list.
    fn attach(&mut self, k: &K)
        requires
            old(self).wf_except(Some(*k)),
        ensures
            final(self).wf(),
            final(self)@ == seq![(*k, old(self).map@[*k].value)] + pairs_of(
                old(self).map@,
                old(self).order@,
            ),
            final(self).map@.contains_key(*k),
            final(self).map@[*k].value == old(self).map@[*k].value,
            final(self).max_size == old(self).max_size,
            final(self).map.keys() == old(self).map.keys(),
    {
        let ghost m = self.map@;
        let ghost order = self.order@;
        proof {
            if order.len() > 0 {
                assert(m.contains_key(order[0]));
                assert(order.contains(order[0]));
            }
        }
        let first = copy_key(&self.head);
        match self.map.find_mut(k) {
            Some(entry) => {
                entry.next = copy_key(&first);
                entry.prev = None;
            },
            None => {},
        }
        match &first {
            Some(old_first) => {
                match self.map.find_mut(old_first) {
                    Some(entry) => {
                        entry.prev = Some(k.clone());
                    },
                    None => {},
                }
            },
            None => {
                self.tail = Some(k.clone());
            },
        }
        self.head = Some(k.clone());
        self.order = Ghost(with_front(*k, order));
        proof {
            let after = self.map@;
            assert(after.dom() =~= m.dom());
            assert forall|i: int| 0 <= i < order.len() implies (#[trigger] after[order[i]]).next
                == m[order[i]].next by {
                assert(m.contains_key(order[i]));
                assert(order.contains(order[i]));
            }
            assert forall|i: int| 1 <= i < order.len() implies (#[trigger] after[order[i]]).prev
                == m[order[i]].prev by {
                assert(m.contains_key(order[i]));
                assert(order.contains(order[i]));
            }
            lemma_attach_keys(m, order, *k, after);
            lemma_attach_links(m, order, *k, after);
            let all = with_front(*k, order);
            assert(all.first() == *k);
            if order.len() > 0 {
                assert(all.last() == order.last());
            }
        }
    }

    /// Takes the pair that was used least recently out of the cache.
    fn remove_lru(&mut self)
        requires
            old(self).wf(),
        ensures
            final(self).wf(),
            final(self)@ == if old(self)@.len() > 0 {
                old(self)@.drop_last()
            } else {
                old(self)@
            },
            final(self).max_size == old(self).max_size,
            final(self).map.keys() == old(self).map.keys(),
    {
        let ghost order = self.order@;
        proof {
            if order.len() > 0 {
                assert(self.map@.contains_key(order[order.len() - 1]));
            }
        }
        match copy_key(&self.tail) {
            Some(lru) => {
                proof {
                    assert(order.last() == lru);
                    assert(order.index_of(lru) == order.len() - 1) by {
                        let i = order.index_of(lru);
                        assert(order.contains(lru));
                        assert(order[i] == lru);
                    }
                }
                self.detach(&lru);
                let ghost m = self.map@;
                self.map.pop(&lru);
                proof {
                    let rest = self.order@;
                    assert forall|i: int| 0 <= i < rest.len() implies m.contains_key(
                        #[trigger] rest[i],
                    ) && rest[i] != lru by {
                        assert(rest.contains(rest[i]));
                    }
                    assert(pairs_of(self.map@, rest) =~= pairs_of(m, rest));
                    assert(old(self)@.remove(order.len() - 1) =~= old(self)@.drop_last());
                }
            },
            None => {},
        }
    }

    /// Puts the key `k` with the value `v` into the cache, as the pair used
    /// last. A key that is in the cache gets the new value. With a new key,
    /// the pair that was used least recently leaves where the cache then
    /// holds more pairs than it may.
    pub fn put(&mut self, k: K, v: V)
        requires
            old(self).wf(),
        ensures
            final(self).wf(),
            final(self).limit() == old(self).limit(),
            final(self)@ == put_result(old(self)@, k, v, old(self).limit()),
    {
        let ghost before = self@;
        let ghost order = self.order@;
        proof {
            self.lemma_positions();
        }
        let key_existed = match self.map.find_mut(&k) {
            Some(node) => {
                node.value = v;
                true
            },
            None => {
                self.map.swap(k.clone(), LruEntry::with_value(v));
                false
            },
        };
        let ghost m = self.map@;
        proof {
            assert forall|i: int| 0 <= i < order.len() implies m.contains_key(#[trigger] order[i]) && (
            order[i] != k ==> m[order[i]] == old(self).map@[order[i]]) by {
                assert(old(self).map@.contains_key(order[i]));
            }
        }
        if key_existed {
            proof {
                assert(self.wf()) by {
                    assert forall|x: K| m.contains_key(x) <==> order.contains(x) by {}
                }
                let p = order.index_of(k);
                assert(order.contains(k));
                assert(pairs_of(m, order) =~= before.update(p, (k, v)));
            }
            self.detach(&k);
            self.attach(&k);
            proof {
                let p = position_of(before, k);
                assert(before.update(p, (k, v)).remove(p) =~= before.remove(p));
            }
        } else {
            proof {
                assert(!order.contains(k));
                assert(pairs_of(m, order) =~= before);
            }
            self.attach(&k);
            proof {
                self.lemma_size_is_len();
            }
            if self.len() > self.capacity() {
                self.remove_lru();
            }
        }
    }

    /// Returns the value of the key `k` and makes its pair the one used
    /// last; `None` where the cache lacks the key.
    pub fn get(&mut self, k: &K) -> (r: Option<&V>)
        requires
            old(self).wf(),
        ensures
            final(self).wf(),
            final(self).limit() == old(self).limit(),
            has_key(old(self)@, *k) ==> r == Some(&old(self)@[position_of(old(self)@, *k)].1)
                && final(self)@ == seq![old(self)@[position_of(old(self)@, *k)]] + old(self)@.remove(position_of(old(self)@, *k)),
            !has_key(old(self)@, *k) ==> r.is_none() && final(self)@ == old(self)@,
    {
        proof {
            self.lemma_positions();
        }
        if self.map.find(k).is_some() {
            self.detach(k);
            self.attach(k);
            match self.map.find(k) {
                Some(entry) => Some(&entry.value),
                None => None,
            }
        } else {
            None
        }
    }

    /// Takes the key `k` out of the cache and returns its value; `None`
    /// where the cache lacks the key.
    pub fn pop(&mut self, k: &K) -> (r: Option<V>)
        requires
            old(self).wf(),
        ensures
            final(self).wf(),
            final(self).limit() == old(self).limit(),
            has_key(old(self)@, *k) ==> r == Some(old(self)@[position_of(old(self)@, *k)].1)
                && final(self)@ == old(self)@.remove(position_of(old(self)@, *k)),
            !has_key(old(self)@, *k) ==> r.is_none() && final(self)@ == old(self)@,
    {
        proof {
            self.lemma_positions();
        }
        if self.map.find(k).is_some() {
            self.detach(k);
            let ghost m = self.map@;
            let gone = self.map.pop(k);
            proof {
                let rest = self.order@;
                assert forall|i: int| 0 <= i < rest.len() implies m.contains_key(#[trigger] rest[i])
                    && rest[i] != *k by {
                    assert(rest.contains(rest[i]));
                }
                assert(pairs_of(self.map@, rest) =~= pairs_of(m, rest));
            }
            match gone {
                Some(lru_entry) => Some(lru_entry.value),
                None => None,
            }
        } else {
            None
        }
    }

    /// Sets the number of pairs that the cache is meant to hold at most,
    /// and takes pairs that were used least recently out of the cache: one
    /// for every two pairs that the cache holds beyond `capacity`, and one
    /// more where their number is odd.
    pub fn change_capacity(&mut self, capacity: usize)
        requires
            old(self).wf(),
        ensures
            final(self).wf(),
            final(self).limit() == capacity,
            final(self)@ == old(self)@.take(old(self)@.len() - leaving(old(self)@.len(), capacity)),
    {
        let ghost before = self@;
        let mut i = capacity;
        assert(before.take(before.len() as int) =~= before);
        proof {
            self.lemma_size_is_len();
        }
        while i < self.len()
            invariant
                self.wf(),
                self@.len() == self.pairs_in_map(),
                self.max_size == old(self).max_size,
                capacity <= i,
                i - capacity <= before.len(),
                before == old(self)@,
                self@ == before.take(before.len() - (i - capacity)),
                i - capacity <= leaving(before.len(), capacity),
                i >= self@.len() ==> i - capacity == leaving(before.len(), capacity),
            decreases self@.len(),
        {
            let ghost held = self@;
            self.remove_lru();
            proof {
                assert(held.drop_last() =~= before.take(before.len() - (i + 1 - capacity)));
                self.lemma_size_is_len();
            }
            i += 1;
        }
        self.max_size = capacity;
    }

    /// The list has each key once, and the pairs of the view have the keys
    /// of the list.
    proof fn lemma_positions(&self)
        requires
            self.wf(),
        ensures
            forall|k: K| has_key(self@, k) <==> self.map@.contains_key(k),
            forall|k: K|
                #[trigger] self.map@.contains_key(k) ==> position_of(self@, k) == self.order@.index_of(
                    k,
                ) && 0 <= position_of(self@, k) < self@.len() && self@[position_of(self@, k)] == (
                    k,
                    self.map@[k].value,
                ),
            self@.len() == self.order@.len(),
    {
        let order = self.order@;
        let view = self@;
        assert forall|k: K| has_key(view, k) <==> self.map@.contains_key(k) by {
            if has_key(view, k) {
                let i = choose|i: int| 0 <= i < view.len() && view[i].0 == k;
                assert(order[i] == k);
                assert(order.contains(k));
            }
            if self.map@.contains_key(k) {
                assert(order.contains(k));
                let i = choose|i: int| 0 <= i < order.len() && order[i] == k;
                assert(view[i].0 == k);
            }
        }
        assert forall|k: K| #[trigger] self.map@.contains_key(k) implies position_of(view, k)
            == order.index_of(k) && 0 <= position_of(view, k) < view.len() && view[position_of(
            view,
            k,
        )] == (k, self.map@[k].value) by {
            assert(order.contains(k));
            let i = order.index_of(k);
            assert(order[i] == k);
            assert(view[i].0 == k);
            let j = position_of(view, k);
            assert(0 <= j < view.len() && view[j].0 == k);
            assert(order[j] == k);
        }
    }
}

/// The sequence `pairs` has a pair with the key `k`.
pub open spec fn has_key<K, V>(pairs: Seq<(K, V)>, k: K) -> bool {
    exists|i: int| 0 <= i < pairs.len() && (#[trigger] pairs[i]).0 == k
}

/// The position in `pairs` of a pair with the key `k`.
pub open spec fn position_of<K, V>(pairs: Seq<(K, V)>, k: K) -> int {
    choose|i: int| 0 <= i < pairs.len() && (#[trigger] pairs[i]).0 == k
}

/// The pairs of a cache for `limit` pairs after `k` was put into it with
/// the value `v`: in front the new pair, behind it the others, without the
/// old pair of `k`; and where `k` is new and the pairs are then more than
/// `limit`, without the last one.
pub open spec fn put_result<K, V>(pairs: Seq<(K, V)>, k: K, v: V, limit: usize) -> Seq<(K, V)> {
    if has_key(pairs, k) {
        seq![(k, v)] + pairs.remove(position_of(pairs, k))
    } else if pairs.len() + 1 > limit {
        (seq![(k, v)] + pairs).drop_last()
    } else {
        seq![(k, v)] + pairs
    }
}

/// The number of pairs that leave a cache of `len` pairs when it is told
/// to hold `capacity` pairs: half of those beyond `capacity`, rounded up.
pub open spec fn leaving(len: nat, capacity: usize) -> int {
    if len > capacity {
        (len - capacity + 1) / 2
    } else {
        0
    }
}

impl<K: crate::hash::Hash + crate::order::Eq + crate::clone::Clone, V> Container for LruCache<K, V> {
    /// The number of pairs in the map of the cache.
    open spec fn size(&self) -> nat {
        self.pairs_in_map()
    }

    fn len(&self) -> (n: usize) {
        self.map.len()
    }
}

impl<K: crate::hash::Hash + crate::order::Eq + crate::clone::Clone, V> LruCache<K, V> {
    /// The number of pairs in the map.
    pub closed spec fn pairs_in_map(&self) -> nat {
        self.map@.dom().len()
    }

    /// A consistent cache has as many pairs in its list as in its map: its
    /// size is the length of its view.
    pub proof fn lemma_size_is_len(&self)
        requires
            self.wf(),
        ensures
            self@.len() == self.pairs_in_map(),
    {
        let order = self.order@;
        order.unique_seq_to_set();
        assert(order.to_set() =~= self.map@.dom()) by {
            assert forall|k: K| order.to_set().contains(k) <==> self.map@.dom().contains(k) by {
                assert(order.contains(k) <==> self.map@.contains_key(k));
            }
        }
    }
}

} // verus!
