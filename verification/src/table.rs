//! A map that remembers the order in which its keys came.
//!
//! The protocol keeps a node's connections, capabilities and beliefs, and a
//! network's nodes, in maps by identifier. This table is such a map: no key
//! occurs twice, and walking it visits the keys in the order of their first
//! insertion, so that a run depends on nothing but its inputs.

use vstd::prelude::*;
use crate::types::{CapabilityId, NodeId};

verus! {

/// A key of a table: a value that can be compared with another of its kind.
pub trait Key: Sized + Copy {
    /// Whether the two keys are the same.
    fn same(&self, other: &Self) -> (r: bool)
        ensures
            r == (*self == *other),
    ;
}

impl Key for NodeId {
    fn same(&self, other: &Self) -> (r: bool) {
        self.same_as(other)
    }
}

impl Key for CapabilityId {
    fn same(&self, other: &Self) -> (r: bool) {
        self.0 == other.0
    }
}

/// A map from keys to values, in the order of insertion.
#[derive(Debug)]
pub struct Table<K: Key, V> {
    keys: Vec<K>,
    vals: Vec<V>,
}

impl<K: Key, V> Table<K, V> {
    /// The keys, in the order of insertion.
    pub closed spec fn keys(&self) -> Seq<K> {
        self.keys@
    }

    /// The values, each at the place of its key.
    pub closed spec fn values(&self) -> Seq<V> {
        self.vals@
    }

    /// Every key has a value, and no key occurs twice.
    pub open spec fn wf(&self) -> bool {
        &&& self.keys().len() == self.values().len()
        &&& self.keys().no_duplicates()
    }

    /// Whether the table holds the key.
    pub open spec fn has(&self, k: K) -> bool {
        self.keys().contains(k)
    }

    /// The value that the table holds for a key.
    pub open spec fn at(&self, k: K) -> V
        recommends
            self.has(k),
    {
        self.values()[self.keys().index_of(k)]
    }

    /// Whether the keys of this table stand in the order that they have in
    /// `other`: each is a key of `other`, and of two keys the one that comes
    /// first here comes first there.
    pub open spec fn in_order_of(&self, other: Self) -> bool {
        &&& forall|i: int| 0 <= i < self.keys().len() ==> other.has(#[trigger] self.keys()[i])
        &&& forall|i: int, j: int|
            0 <= i < j < self.keys().len() ==> other.keys().index_of(#[trigger] self.keys()[i])
                < other.keys().index_of(#[trigger] self.keys()[j])
    }

    /// The table as a map.
    pub open spec fn view_map(&self) -> Map<K, V> {
        Map::new(|k: K| self.has(k), |k: K| self.at(k))
    }

    /// An empty table.
    pub fn new() -> (t: Self)
        ensures
            t.wf(),
            t.keys() == Seq::<K>::empty(),
            t.values() == Seq::<V>::empty(),
            t.view_map() == Map::<K, V>::empty(),
    {
        let t = Table { keys: Vec::new(), vals: Vec::new() };
        assert(t.view_map() =~= Map::<K, V>::empty());
        t
    }

    /// The number of keys.
    pub fn len(&self) -> (n: usize)
        requires
            self.wf(),
        ensures
            n == self.keys().len(),
    {
        self.keys.len()
    }

    /// Whether the table holds no key.
    pub fn is_empty(&self) -> (r: bool)
        requires
            self.wf(),
        ensures
            r == (self.keys().len() == 0),
    {
        self.keys.len() == 0
    }

    /// The place of a key, if the table holds it.
    pub fn position(&self, k: &K) -> (r: Option<usize>)
        requires
            self.wf(),
        ensures
            match r {
                Some(i) => i < self.keys().len() && self.keys()[i as int] == *k && self.has(*k)
                    && self.keys().index_of(*k) == i,
                None => !self.has(*k),
            },
    {
        let mut i: usize = 0;
        while i < self.keys.len()
            invariant
                self.wf(),
                i <= self.keys.len(),
                forall|j: int| 0 <= j < i ==> self.keys@[j] != *k,
            decreases self.keys.len() - i,
        {
            if self.keys[i].same(k) {
                proof {
                    let j = self.keys().index_of(*k);
                    assert(self.keys()[i as int] == *k);
                    assert(self.keys().contains(*k));
                    assert(self.keys()[j] == *k);
                }
                return Some(i);
            }
            i += 1;
        }
        None
    }

    /// Whether the table holds the key.
    pub fn contains_key(&self, k: &K) -> (r: bool)
        requires
            self.wf(),
        ensures
            r == self.has(*k),
    {
        self.position(k).is_some()
    }

    /// The value of a key, if the table holds it.
    pub fn get(&self, k: &K) -> (r: Option<&V>)
        requires
            self.wf(),
        ensures
            match r {
                Some(v) => self.has(*k) && *v == self.at(*k),
                None => !self.has(*k),
            },
    {
        match self.position(k) {
            Some(i) => Some(&self.vals[i]),
            None => None,
        }
    }

    /// The key at a place.
    pub fn key_at(&self, i: usize) -> (k: K)
        requires
            self.wf(),
            i < self.keys().len(),
        ensures
            k == self.keys()[i as int],
            self.has(k),
    {
        self.keys[i]
    }

    /// The value at a place.
    pub fn value_at(&self, i: usize) -> (v: &V)
        requires
            self.wf(),
            i < self.keys().len(),
        ensures
            *v == self.values()[i as int],
            *v == self.at(self.keys()[i as int]),
    {
        proof {
            self.lemma_place(i as int);
        }
        &self.vals[i]
    }

    /// The value at a place, to be changed where it stands.
    pub fn value_at_mut(&mut self, i: usize) -> (v: &mut V)
        requires
            old(self).wf(),
            i < old(self).keys().len(),
        ensures
            *v == old(self).values()[i as int],
            *v == old(self).at(old(self).keys()[i as int]),
            final(self).wf(),
            final(self).keys() == old(self).keys(),
            final(self).values() == old(self).values().update(i as int, *final(v)),
            final(self).at(old(self).keys()[i as int]) == *final(v),
            forall|other: K|
                other != old(self).keys()[i as int] && old(self).has(other) ==> final(self).at(other)
                    == old(self).at(other),
    {
        proof {
            self.lemma_place(i as int);
            assert forall|other: K| self.has(other) implies self.keys()[self.keys().index_of(
                other,
            )] == other by {}
        }
        &mut self.vals[i]
    }

    /// Puts a value at a place.
    pub fn set_at(&mut self, i: usize, v: V)
        requires
            old(self).wf(),
            i < old(self).keys().len(),
        ensures
            final(self).wf(),
            final(self).keys() == old(self).keys(),
            final(self).values() == old(self).values().update(i as int, v),
    {
        self.vals[i] = v;
    }

    /// Sets the value of a key: in place where the table holds the key, at
    /// the end where it does not.
    pub fn insert(&mut self, k: K, v: V)
        requires
            old(self).wf(),
        ensures
            final(self).wf(),
            old(self).has(k) ==> final(self).keys() == old(self).keys() && final(self).values()
                == old(self).values().update(old(self).keys().index_of(k), v),
            !old(self).has(k) ==> final(self).keys() == old(self).keys().push(k) && final(self).values() == old(self).values().push(v),
            final(self).has(k),
            final(self).at(k) == v,
            forall|other: K| other != k ==> final(self).has(other) == old(self).has(other),
            forall|other: K| other != k && old(self).has(other) ==> final(self).at(other) == old(self).at(other),
            final(self).view_map() == old(self).view_map().insert(k, v),
    {
        self.insert_inner(k, v);
        assert(self.view_map() =~= old(self).view_map().insert(k, v));
    }

    /// Sets the value of a key, without a word on the table as a map.
    fn insert_inner(&mut self, k: K, v: V)
        requires
            old(self).wf(),
        ensures
            final(self).wf(),
            old(self).has(k) ==> final(self).keys() == old(self).keys() && final(self).values()
                == old(self).values().update(old(self).keys().index_of(k), v),
            !old(self).has(k) ==> final(self).keys() == old(self).keys().push(k) && final(self).values() == old(self).values().push(v),
            final(self).has(k),
            final(self).at(k) == v,
            forall|other: K| other != k ==> final(self).has(other) == old(self).has(other),
            forall|other: K| other != k && old(self).has(other) ==> final(self).at(other) == old(self).at(other),
    {
        match self.position(&k) {
            Some(i) => {
                self.vals[i] = v;
                proof {
                    assert forall|other: K| other != k && old(self).has(other) implies final(self).at(other) == old(self).at(other) by {
                        let j = old(self).keys().index_of(other);
                        assert(old(self).keys()[j] == other);
                    }
                }
            },
            None => {
                self.keys.push(k);
                self.vals.push(v);
                proof {
                    let before = old(self).keys();
                    let after = self.keys();
                    assert(after == before.push(k));
                    assert(after[before.len() as int] == k);
                    assert forall|other: K| other != k implies self.has(other) == old(self).has(
                        other,
                    ) by {
                        if before.contains(other) {
                            let j = before.index_of(other);
                            assert(after[j] == other);
                        }
                        if after.contains(other) {
                            let j = after.index_of(other);
                            assert(j < before.len());
                            assert(before[j] == other);
                        }
                    }
                    assert forall|other: K| other != k && old(self).has(other) implies self.at(
                        other,
                    ) == old(self).at(other) by {
                        let j = before.index_of(other);
                        assert(after[j] == other);
                        self.lemma_place(j);
                    }
                    self.lemma_place(before.len() as int);
                }
            },
        }
    }

    /// Takes a key out, with its value. The other keys keep their order.
    pub fn remove(&mut self, k: &K) -> (r: Option<V>)
        requires
            old(self).wf(),
        ensures
            final(self).wf(),
            !final(self).has(*k),
            match r {
                Some(v) => old(self).has(*k) && v == old(self).at(*k) && final(self).keys() == old(self).keys().remove(old(self).keys().index_of(*k)) && final(self).values() == old(self).values().remove(old(self).keys().index_of(*k)),
                None => !old(self).has(*k) && final(self).keys() == old(self).keys() && final(self).values() == old(self).values(),
            },
            forall|other: K| other != *k ==> final(self).has(other) == old(self).has(other),
            forall|other: K| other != *k && old(self).has(other) ==> final(self).at(other) == old(self).at(other),
            final(self).view_map() == old(self).view_map().remove(*k),
    {
        let r = self.remove_inner(k);
        assert(self.view_map() =~= old(self).view_map().remove(*k));
        r
    }

    /// Takes a key out, without a word on the table as a map.
    fn remove_inner(&mut self, k: &K) -> (r: Option<V>)
        requires
            old(self).wf(),
        ensures
            final(self).wf(),
            !final(self).has(*k),
            match r {
                Some(v) => old(self).has(*k) && v == old(self).at(*k) && final(self).keys() == old(self).keys().remove(old(self).keys().index_of(*k)) && final(self).values() == old(self).values().remove(old(self).keys().index_of(*k)),
                None => !old(self).has(*k) && final(self).keys() == old(self).keys() && final(self).values() == old(self).values(),
            },
            forall|other: K| other != *k ==> final(self).has(other) == old(self).has(other),
            forall|other: K| other != *k && old(self).has(other) ==> final(self).at(other) == old(self).at(other),
    {
        match self.position(k) {
            Some(i) => {
                let ghost before = self.keys();
                let ghost before_vals = self.values();
                self.keys.remove(i);
                let v = self.vals.remove(i);
                proof {
                    let after = self.keys();
                    assert(after == before.remove(i as int));
                    assert forall|a: int, b: int| 0 <= a < b < after.len() implies after[a]
                        != after[b] by {
                        let a0 = if a < i { a } else { a + 1 };
                        let b0 = if b < i { b } else { b + 1 };
                        assert(after[a] == before[a0]);
                        assert(after[b] == before[b0]);
                    }
                    assert forall|j: int| 0 <= j < after.len() implies after[j] != *k by {
                        let j0 = if j < i { j } else { j + 1 };
                        assert(after[j] == before[j0]);
                    }
                    assert forall|other: K| other != *k implies self.has(other) == old(self).has(
                        other,
                    ) by {
                        if before.contains(other) {
                            let j = before.index_of(other);
                            let j1 = if j < i { j } else { j - 1 };
                            assert(after[j1] == other);
                        }
                        if after.contains(other) {
                            let j = after.index_of(other);
                            let j0 = if j < i { j } else { j + 1 };
                            assert(before[j0] == other);
                        }
                    }
                    assert forall|other: K| other != *k && old(self).has(other) implies self.at(
                        other,
                    ) == old(self).at(other) by {
                        let j = before.index_of(other);
                        let j1 = if j < i { j } else { j - 1 };
                        assert(after[j1] == other);
                        self.lemma_place(j1);
                    }
                }
                Some(v)
            },
            None => None,
        }
    }

    /// The keys of a table stand in their own order.
    pub proof fn lemma_own_order(&self)
        requires
            self.wf(),
        ensures
            self.in_order_of(*self),
    {
        assert forall|i: int| 0 <= i < self.keys().len() implies self.has(
            #[trigger] self.keys()[i],
        ) && self.keys().index_of(self.keys()[i]) == i by {
            self.lemma_place(i);
        }
    }

    /// A table whose keys are those of `self` but for the one at `at` keeps
    /// the order of `other` where `self` has it.
    pub proof fn lemma_order_without(&self, other: Self, fewer: Self, at: int)
        requires
            self.in_order_of(other),
            0 <= at < self.keys().len(),
            fewer.keys() == self.keys().remove(at),
        ensures
            fewer.in_order_of(other),
    {
        assert forall|i: int| 0 <= i < fewer.keys().len() implies other.has(
            #[trigger] fewer.keys()[i],
        ) by {
            let i0 = if i < at {
                i
            } else {
                i + 1
            };
            assert(fewer.keys()[i] == self.keys()[i0]);
        }
        assert forall|i: int, j: int| 0 <= i < j < fewer.keys().len() implies other.keys().index_of(
            #[trigger] fewer.keys()[i],
        ) < other.keys().index_of(#[trigger] fewer.keys()[j]) by {
            let i0 = if i < at {
                i
            } else {
                i + 1
            };
            let j0 = if j < at {
                j
            } else {
                j + 1
            };
            assert(fewer.keys()[i] == self.keys()[i0]);
            assert(fewer.keys()[j] == self.keys()[j0]);
        }
    }

    /// In a well-formed table the value at a place is the value of the key at
    /// that place.
    pub proof fn lemma_place(&self, i: int)
        requires
            self.wf(),
            0 <= i < self.keys().len(),
        ensures
            self.has(self.keys()[i]),
            self.keys().index_of(self.keys()[i]) == i,
            self.at(self.keys()[i]) == self.values()[i],
    {
        let k = self.keys()[i];
        assert(self.keys().contains(k));
        let j = self.keys().index_of(k);
        assert(self.keys()[j] == k);
    }
}

} // verus!
