//! A small association-list store: the contracts' keyed storage.

use vstd::prelude::*;

verus! {

/// Keys that can be compared in executable code.
pub trait StoreKey: Sized {
    fn same_key(&self, other: &Self) -> (r: bool)
        ensures
            r == (*self == *other),
    ;
}

impl StoreKey for u64 {
    fn same_key(&self, other: &Self) -> (r: bool) {
        *self == *other
    }
}

impl StoreKey for (u64, u64) {
    fn same_key(&self, other: &Self) -> (r: bool) {
        self.0 == other.0 && self.1 == other.1
    }
}

impl StoreKey for (u64, u64, u64) {
    fn same_key(&self, other: &Self) -> (r: bool) {
        self.0 == other.0 && self.1 == other.1 && self.2 == other.2
    }
}

/// Key/value pairs with distinct keys, kept in insertion order.
#[derive(Debug)]
pub struct KeyedStore<K, V> {
    pub entries: Vec<(K, V)>,
}

impl<K, V> KeyedStore<K, V> {
    /// No key occurs twice.
    pub open spec fn wf(&self) -> bool {
        forall|i: int, j: int|
            0 <= i < self.entries@.len() && 0 <= j < self.entries@.len() && i != j ==> (#[trigger] self.entries@[i]).0
                != (#[trigger] self.entries@[j]).0
    }

    /// Whether `k` is stored.
    pub open spec fn has(&self, k: K) -> bool {
        exists|i: int| 0 <= i < self.entries@.len() && (#[trigger] self.entries@[i]).0 == k
    }

    /// The position at which `k` is stored.
    pub open spec fn pos(&self, k: K) -> int {
        choose|i: int| 0 <= i < self.entries@.len() && (#[trigger] self.entries@[i]).0 == k
    }

    /// The contents as a map.
    pub open spec fn view(&self) -> Map<K, V> {
        Map::new(|k: K| self.has(k), |k: K| self.entries@[self.pos(k)].1)
    }

    /// The keys in insertion order.
    pub open spec fn keys(&self) -> Seq<K> {
        self.entries@.map_values(|e: (K, V)| e.0)
    }

    pub fn new() -> (s: Self)
        ensures
            s.wf(),
            s.view() == Map::<K, V>::empty(),
            s.entries@.len() == 0,
    {
        let s = KeyedStore { entries: Vec::new() };
        assert(s.view() =~= Map::<K, V>::empty());
        s
    }

    pub fn len(&self) -> (r: usize)
        ensures
            r == self.entries@.len(),
    {
        self.entries.len()
    }
}

impl<K: StoreKey, V> KeyedStore<K, V> {
    /// Where `k` is stored, if it is.
    pub fn find(&self, k: &K) -> (r: Option<usize>)
        requires
            self.wf(),
        ensures
            r is Some <==> self.has(*k),
            r matches Some(i) ==> i < self.entries@.len() && self.entries@[i as int].0 == *k && i == self.pos(*k),
    {
        let mut i: usize = 0;
        while i < self.entries.len()
            invariant
                self.wf(),
                i <= self.entries@.len(),
                forall|j: int| 0 <= j < i ==> (#[trigger] self.entries@[j]).0 != *k,
            decreases self.entries@.len() - i,
        {
            if self.entries[i].0.same_key(k) {
                proof {
                    let p = self.pos(*k);
                    assert(self.entries@[i as int].0 == *k);
                    assert(self.entries@[p].0 == *k);
                    if p != i {
                        assert(self.entries@[p].0 != self.entries@[i as int].0);
                    }
                }
                return Some(i);
            }
            i = i + 1;
        }
        None
    }

    /// The value stored under `k`, if any.
    pub fn get(&self, k: &K) -> (r: Option<&V>)
        requires
            self.wf(),
        ensures
            r is Some <==> self.view().contains_key(*k),
            r matches Some(v) ==> *v == self.view()[*k],
    {
        match self.find(k) {
            Some(i) => Some(&self.entries[i].1),
            None => None,
        }
    }

    /// Stores `v` under `k`, replacing any earlier value; a new key goes
    /// last.
    pub fn set(&mut self, k: K, v: V)
        requires
            old(self).wf(),
        ensures
            final(self).wf(),
            final(self).view() == old(self).view().insert(k, v),
            old(self).has(k) ==> final(self).keys() == old(self).keys(),
            !old(self).has(k) ==> final(self).keys() == old(self).keys().push(k),
    {
        match self.find(&k) {
            Some(i) => {
                let ghost old_entries = self.entries@;
                self.entries.set(i, (k, v));
                proof {
                    assert forall|key: K| #[trigger] self.has(key) <==> old(self).has(key) || key == k by {
                        if old(self).has(key) {
                            let j = old(self).pos(key);
                            assert(self.entries@[j].0 == key);
                        }
                        if self.has(key) {
                            let j = self.pos(key);
                            assert(old_entries[j].0 == key);
                        }
                    }
                    assert forall|key: K| #[trigger] self.has(key) implies self.entries@[self.pos(key)].1 == (if key == k {
                        v
                    } else {
                        old(self).entries@[old(self).pos(key)].1
                    }) by {
                        let j = self.pos(key);
                        if key != k {
                            let j0 = old(self).pos(key);
                            assert(old_entries[j0].0 == key);
                            assert(self.entries@[j0].0 == key);
                        }
                    }
                    assert(self.view() =~= old(self).view().insert(k, v));
                    assert(self.keys() =~= old(self).keys());
                }
            },
            None => {
                let ghost old_entries = self.entries@;
                self.entries.push((k, v));
                proof {
                    let n = old_entries.len() as int;
                    assert forall|key: K| #[trigger] self.has(key) <==> old(self).has(key) || key == k by {
                        if old(self).has(key) {
                            let j = old(self).pos(key);
                            assert(self.entries@[j].0 == key);
                        }
                        if key == k {
                            assert(self.entries@[n].0 == k);
                        }
                        if self.has(key) && key != k {
                            let j = self.pos(key);
                            assert(j < n);
                            assert(old_entries[j].0 == key);
                        }
                    }
                    assert forall|key: K| #[trigger] self.has(key) implies self.entries@[self.pos(key)].1 == (if key == k {
                        v
                    } else {
                        old(self).entries@[old(self).pos(key)].1
                    }) by {
                        let j = self.pos(key);
                        if key != k {
                            let j0 = old(self).pos(key);
                            assert(old_entries[j0].0 == key);
                            assert(self.entries@[j0].0 == key);
                        } else {
                            assert(self.entries@[n].0 == k);
                        }
                    }
                    assert(self.view() =~= old(self).view().insert(k, v));
                    assert(self.keys() =~= old(self).keys().push(k));
                }
            },
        }
    }

    /// Removes `k` and its value, if stored; the other keys keep their
    /// order.
    pub fn remove(&mut self, k: &K)
        requires
            old(self).wf(),
        ensures
            final(self).wf(),
            final(self).view() == old(self).view().remove(*k),
            final(self).entries@.len() == if old(self).has(*k) {
                old(self).entries@.len() - 1
            } else {
                old(self).entries@.len() as int
            },
    {
        match self.find(k) {
            Some(i) => {
                let ghost old_entries = self.entries@;
                self.entries.remove(i);
                proof {
                    assert forall|key: K| #[trigger] self.has(key) <==> old(self).has(key) && key != *k by {
                        if old(self).has(key) && key != *k {
                            let j = old(self).pos(key);
                            assert(j != i);
                            if j < i {
                                assert(self.entries@[j].0 == key);
                            } else {
                                assert(self.entries@[j - 1].0 == key);
                            }
                        }
                        if self.has(key) {
                            let j = self.pos(key);
                            if j < i {
                                assert(old_entries[j].0 == key);
                            } else {
                                assert(old_entries[j + 1].0 == key);
                            }
                        }
                    }
                    assert forall|key: K| #[trigger] self.has(key) implies self.entries@[self.pos(key)].1
                        == old(self).entries@[old(self).pos(key)].1 by {
                        let j = self.pos(key);
                        let j0 = old(self).pos(key);
                        if j < i {
                            assert(old_entries[j].0 == key);
                        } else {
                            assert(old_entries[j + 1].0 == key);
                        }
                    }
                    assert(self.view() =~= old(self).view().remove(*k));
                }
            },
            None => {
                assert(self.view() =~= old(self).view().remove(*k));
            },
        }
    }
}


impl<K, V> KeyedStore<K, V> {
    /// The pair at position `i` is what the map holds for its key.
    pub proof fn lemma_entry_in_view(&self, i: int)
        requires
            self.wf(),
            0 <= i < self.entries@.len(),
        ensures
            self.has(self.entries@[i].0),
            self.pos(self.entries@[i].0) == i,
            self.view().contains_key(self.entries@[i].0),
            self.view()[self.entries@[i].0] == self.entries@[i].1,
    {
        let k = self.entries@[i].0;
        assert(self.has(k));
        let p = self.pos(k);
        if p != i {
            assert(self.entries@[p].0 != self.entries@[i].0);
        }
    }

    /// Every stored key is at some position.
    pub proof fn lemma_view_has_entry(&self, k: K)
        requires
            self.wf(),
            self.view().contains_key(k),
        ensures
            0 <= self.pos(k) < self.entries@.len(),
            self.entries@[self.pos(k)].0 == k,
    {
    }
}

} // verus!
