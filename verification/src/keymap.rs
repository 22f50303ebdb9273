//! An insertion-ordered map from byte-string keys to values.

use crate::text::{bytes_eq, to_vec};
use vstd::prelude::*;

verus! {

/// A map keyed by byte strings that remembers the order in which keys were
/// first inserted. Lookups walk the keys in that order.
pub struct KeyMap<V> {
    keys: Vec<Vec<u8>>,
    vals: Vec<V>,
}

/// In a sequence without duplicates, an element is found at its own position.
pub proof fn lemma_index_of_unique(keys: Seq<Seq<u8>>, i: int)
    requires
        keys.no_duplicates(),
        0 <= i < keys.len(),
    ensures
        keys.contains(keys[i]),
        keys.index_of(keys[i]) == i,
{
    assert(keys.contains(keys[i]));
    let j = keys.index_of(keys[i]);
    assert(0 <= j < keys.len() && keys[j] == keys[i]);
}

impl<V> KeyMap<V> {
    /// The keys, in insertion order.
    pub closed spec fn keys(&self) -> Seq<Seq<u8>> {
        Seq::new(self.keys@.len(), |i: int| self.keys@[i]@)
    }

    /// The values, each at the position of its key.
    pub closed spec fn vals(&self) -> Seq<V> {
        self.vals@
    }

    /// Every key has one value and no key occurs twice.
    pub open spec fn wf(&self) -> bool {
        &&& self.keys().len() == self.vals().len()
        &&& self.keys().no_duplicates()
    }

    /// Number of keys.
    pub open spec fn spec_len(&self) -> nat {
        self.keys().len()
    }

    /// True when `key` is present.
    pub open spec fn contains(&self, key: Seq<u8>) -> bool {
        self.keys().contains(key)
    }

    /// Position of `key`, meaningful when the key is present.
    pub open spec fn index_of(&self, key: Seq<u8>) -> int {
        self.keys().index_of(key)
    }

    /// The contents as a mathematical map.
    pub open spec fn map(&self) -> Map<Seq<u8>, V> {
        Map::new(|k: Seq<u8>| self.keys().contains(k), |k: Seq<u8>| self.vals()[self.keys().index_of(k)])
    }

    /// The contents as a sequence of pairs, in insertion order.
    pub open spec fn entries(&self) -> Seq<(Seq<u8>, V)> {
        Seq::new(self.keys().len(), |i: int| (self.keys()[i], self.vals()[i]))
    }

    /// An empty map.
    pub fn new() -> (m: Self)
        ensures
            m.wf(),
            m.keys() == Seq::<Seq<u8>>::empty(),
            m.vals() == Seq::<V>::empty(),
            m.map() == Map::<Seq<u8>, V>::empty(),
    {
        let m = KeyMap { keys: Vec::new(), vals: Vec::new() };
        assert(m.keys() =~= Seq::<Seq<u8>>::empty());
        assert(m.map() =~= Map::<Seq<u8>, V>::empty());
        m
    }

    /// Number of keys.
    pub fn len(&self) -> (n: usize)
        requires
            self.wf(),
        ensures
            n == self.keys().len(),
            n == self.vals().len(),
    {
        self.keys.len()
    }

    /// Position of `key`, if present.
    pub fn find(&self, key: &[u8]) -> (r: Option<usize>)
        requires
            self.wf(),
        ensures
            match r {
                Some(i) => i < self.keys().len() && self.keys()[i as int] == key@
                    && self.index_of(key@) == i && self.contains(key@),
                None => !self.contains(key@),
            },
    {
        let mut i: usize = 0;
        while i < self.keys.len()
            invariant
                self.wf(),
                i <= self.keys().len(),
                self.keys().len() == self.keys@.len(),
                forall|j: int| 0 <= j < i ==> self.keys()[j] != key@,
            decreases self.keys.len() - i,
        {
            if bytes_eq(self.keys[i].as_slice(), key) {
                proof {
                    lemma_index_of_unique(self.keys(), i as int);
                }
                return Some(i);
            }
            i += 1;
        }
        None
    }

    /// The key at position `i`.
    pub fn key(&self, i: usize) -> (k: &Vec<u8>)
        requires
            self.wf(),
            i < self.keys().len(),
        ensures
            k@ == self.keys()[i as int],
    {
        &self.keys[i]
    }

    /// The value at position `i`.
    pub fn value(&self, i: usize) -> (v: &V)
        requires
            self.wf(),
            i < self.keys().len(),
        ensures
            *v == self.vals()[i as int],
    {
        &self.vals[i]
    }

    /// The value at position `i`, for changing it in place.
    pub fn value_mut(&mut self, i: usize) -> (v: &mut V)
        requires
            old(self).wf(),
            i < old(self).keys().len(),
        ensures
            *v == old(self).vals()[i as int],
            final(self).keys() == old(self).keys(),
            final(self).vals() == old(self).vals().update(i as int, *final(v)),
    {
        &mut self.vals[i]
    }

    /// Replaces the value at position `i`.
    pub fn set(&mut self, i: usize, v: V)
        requires
            old(self).wf(),
            i < old(self).keys().len(),
        ensures
            final(self).wf(),
            final(self).keys() == old(self).keys(),
            final(self).vals() == old(self).vals().update(i as int, v),
            final(self).map() == old(self).map().insert(old(self).keys()[i as int], v),
    {
        self.vals[i] = v;
        proof {
            old(self).lemma_update(*self, i as int, v);
        }
    }

    /// Adds a key that is not present yet, after all others.
    pub fn push(&mut self, key: &[u8], v: V)
        requires
            old(self).wf(),
            !old(self).contains(key@),
        ensures
            final(self).wf(),
            final(self).keys() == old(self).keys().push(key@),
            final(self).vals() == old(self).vals().push(v),
            final(self).map() == old(self).map().insert(key@, v),
    {
        self.keys.push(to_vec(key));
        self.vals.push(v);
        assert(self.keys() =~= old(self).keys().push(key@));
        proof {
            old(self).lemma_push(*self, key@, v);
        }
    }

    /// Takes out the key at position `i` with its value; the others keep
    /// their order.
    pub fn remove(&mut self, i: usize) -> (v: V)
        requires
            old(self).wf(),
            i < old(self).keys().len(),
        ensures
            final(self).wf(),
            v == old(self).vals()[i as int],
            final(self).keys() == old(self).keys().remove(i as int),
            final(self).vals() == old(self).vals().remove(i as int),
            final(self).map() == old(self).map().remove(old(self).keys()[i as int]),
    {
        let _ = self.keys.remove(i);
        let v = self.vals.remove(i);
        assert(self.keys() =~= old(self).keys().remove(i as int));
        proof {
            old(self).lemma_remove(*self, i as int);
        }
        v
    }

    /// Removes every key.
    pub fn clear(&mut self)
        ensures
            final(self).wf(),
            final(self).keys() == Seq::<Seq<u8>>::empty(),
            final(self).vals() == Seq::<V>::empty(),
            final(self).map() == Map::<Seq<u8>, V>::empty(),
    {
        self.keys.clear();
        self.vals.clear();
        assert(self.keys() =~= Seq::<Seq<u8>>::empty());
        assert(self.map() =~= Map::<Seq<u8>, V>::empty());
    }

    /// Replacing a value is an insertion under the same key.
    pub proof fn lemma_update(self, after: Self, i: int, v: V)
        requires
            self.wf(),
            0 <= i < self.keys().len(),
            after.keys() == self.keys(),
            after.vals() == self.vals().update(i, v),
        ensures
            after.wf(),
            after.map() == self.map().insert(self.keys()[i], v),
    {
        let keys = self.keys();
        assert forall|k: Seq<u8>| #[trigger] after.map().contains_key(k) implies after.map()[k]
            == self.map().insert(keys[i], v)[k] by {
            let j = keys.index_of(k);
            lemma_index_of_unique(keys, j);
            lemma_index_of_unique(keys, i);
        }
        lemma_index_of_unique(keys, i);
        assert(after.map() =~= self.map().insert(keys[i], v));
    }

    /// Appending a fresh key is an insertion.
    pub proof fn lemma_push(self, after: Self, key: Seq<u8>, v: V)
        requires
            self.wf(),
            !self.contains(key),
            after.keys() == self.keys().push(key),
            after.vals() == self.vals().push(v),
        ensures
            after.wf(),
            after.map() == self.map().insert(key, v),
    {
        let keys = self.keys();
        let akeys = after.keys();
        assert forall|a: int, b: int|
            0 <= a < akeys.len() && 0 <= b < akeys.len() && a != b implies akeys[a] != akeys[b] by {
            if a < keys.len() {
                assert(keys.contains(akeys[a]));
            }
            if b < keys.len() {
                assert(keys.contains(akeys[b]));
            }
        }
        assert forall|k: Seq<u8>| akeys.contains(k) <==> (keys.contains(k) || k == key) by {
            if akeys.contains(k) {
                let j = akeys.index_of(k);
                if j < keys.len() {
                    assert(keys[j] == k);
                }
            }
            if keys.contains(k) {
                let j = keys.index_of(k);
                assert(akeys[j] == k);
            }
            if k == key {
                assert(akeys[keys.len() as int] == k);
            }
        }
        assert forall|k: Seq<u8>| #[trigger] after.map().contains_key(k) implies after.map()[k]
            == self.map().insert(key, v)[k] by {
            let j = akeys.index_of(k);
            lemma_index_of_unique(akeys, j);
            if j < keys.len() {
                lemma_index_of_unique(keys, j);
            }
        }
        assert(after.map() =~= self.map().insert(key, v));
    }

    /// Taking out a position removes its key.
    pub proof fn lemma_remove(self, after: Self, i: int)
        requires
            self.wf(),
            0 <= i < self.keys().len(),
            after.keys() == self.keys().remove(i),
            after.vals() == self.vals().remove(i),
        ensures
            after.wf(),
            after.map() == self.map().remove(self.keys()[i]),
    {
        let keys = self.keys();
        let akeys = after.keys();
        assert forall|a: int, b: int|
            0 <= a < akeys.len() && 0 <= b < akeys.len() && a != b implies akeys[a] != akeys[b] by {
            let a2 = if a < i { a } else { a + 1 };
            let b2 = if b < i { b } else { b + 1 };
            assert(akeys[a] == keys[a2]);
            assert(akeys[b] == keys[b2]);
        }
        assert forall|k: Seq<u8>| akeys.contains(k) <==> (keys.contains(k) && k != keys[i]) by {
            if akeys.contains(k) {
                let j = akeys.index_of(k);
                let j2 = if j < i { j } else { j + 1 };
                assert(keys[j2] == k);
            }
            if keys.contains(k) && k != keys[i] {
                let j = keys.index_of(k);
                let j2 = if j < i { j } else { j - 1 };
                assert(akeys[j2] == k);
            }
        }
        assert forall|k: Seq<u8>| #[trigger] after.map().contains_key(k) implies after.map()[k]
            == self.map().remove(keys[i])[k] by {
            let j = akeys.index_of(k);
            let j2 = if j < i { j } else { j + 1 };
            lemma_index_of_unique(akeys, j);
            assert(keys[j2] == k);
            lemma_index_of_unique(keys, j2);
        }
        assert(after.map() =~= self.map().remove(keys[i]));
    }

    /// A key that is present maps to the value at its position.
    pub proof fn lemma_map_at(self, i: int)
        requires
            self.wf(),
            0 <= i < self.keys().len(),
        ensures
            self.contains(self.keys()[i]),
            self.index_of(self.keys()[i]) == i,
            self.map().contains_key(self.keys()[i]),
            self.map()[self.keys()[i]] == self.vals()[i],
    {
        lemma_index_of_unique(self.keys(), i);
    }
}

} // verus!
