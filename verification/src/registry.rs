//! The subscription registry: which sessions watch which resource, and the
//! latest counter known for each.

use crate::model::{
    advances, entry_without, fresh_entry, registered_counter, registry_ingest, registry_subscribe,
    registry_unsubscribe, registry_unsubscribe_all, subscribed, vacant, EntryView, RegistryView,
};
use crate::keymap::KeyMap;
use vstd::prelude::*;

verus! {

/// One registry entry: the latest counter of a resource and the sessions
/// subscribed to it.
pub struct SubscribeElement {
    counter: u64,
    sessions: Vec<usize>,
}

impl View for SubscribeElement {
    type V = EntryView;

    closed spec fn view(&self) -> EntryView {
        EntryView { counter: self.counter, sessions: self.sessions@.to_set() }
    }
}

impl Default for SubscribeElement {
    /// An entry with counter 0 that nobody watches.
    fn default() -> (e: SubscribeElement)
        ensures
            e.wf(),
            e@ == fresh_entry(),
    {
        SubscribeElement::new()
    }
}

impl SubscribeElement {
    /// No session is listed twice.
    pub closed spec fn wf(&self) -> bool {
        self.sessions@.no_duplicates()
    }

    /// An entry with counter 0 that nobody watches.
    pub fn new() -> (e: Self)
        ensures
            e.wf(),
            e@ == fresh_entry(),
    {
        let e = SubscribeElement { counter: 0, sessions: Vec::new() };
        assert(e.sessions@.to_set() =~= Set::<usize>::empty());
        e
    }

    /// The latest counter.
    pub fn counter(&self) -> (c: u64)
        ensures
            c == self@.counter,
    {
        self.counter
    }

    /// Number of subscribed sessions.
    pub fn subscribers(&self) -> (n: usize)
        requires
            self.wf(),
        ensures
            n == self@.sessions.len(),
            self@.sessions.finite(),
            (n == 0) == vacant(self@),
    {
        proof {
            self.sessions@.unique_seq_to_set();
            if self.sessions@.len() == 0 {
                assert(self.sessions@.to_set() =~= Set::<usize>::empty());
            } else {
                assert(self.sessions@.contains(self.sessions@[0]));
                assert(self@.sessions.contains(self.sessions@[0]));
            }
        }
        self.sessions.len()
    }

    fn position(&self, session: usize) -> (r: Option<usize>)
        ensures
            match r {
                Some(i) => i < self.sessions@.len() && self.sessions@[i as int] == session,
                None => !self.sessions@.contains(session),
            },
    {
        let mut i: usize = 0;
        while i < self.sessions.len()
            invariant
                i <= self.sessions@.len(),
                forall|j: int| 0 <= j < i ==> self.sessions@[j] != session,
            decreases self.sessions.len() - i,
        {
            if self.sessions[i] == session {
                return Some(i);
            }
            i += 1;
        }
        None
    }

    /// True when `session` is subscribed.
    pub fn contains(&self, session: usize) -> (b: bool)
        ensures
            b == self@.sessions.contains(session),
    {
        self.position(session).is_some()
    }

    /// Subscribes `session`; a session that is already subscribed stays
    /// listed once.
    pub fn insert(&mut self, session: usize)
        requires
            old(self).wf(),
        ensures
            final(self).wf(),
            final(self)@ == (EntryView {
                counter: old(self)@.counter,
                sessions: old(self)@.sessions.insert(session),
            }),
    {
        if self.position(session).is_none() {
            self.sessions.push(session);
            assert(self.sessions@.to_set() =~= old(self).sessions@.to_set().insert(session)) by {
                assert forall|x: usize|
                    self.sessions@.contains(x) <==> (old(self).sessions@.contains(x) || x == session) by {
                    if self.sessions@.contains(x) {
                        let j = self.sessions@.index_of(x);
                        if j < old(self).sessions@.len() {
                            assert(old(self).sessions@[j] == x);
                        }
                    }
                    if old(self).sessions@.contains(x) {
                        let j = old(self).sessions@.index_of(x);
                        assert(self.sessions@[j] == x);
                    }
                    if x == session {
                        assert(self.sessions@[old(self).sessions@.len() as int] == x);
                    }
                }
            }
        } else {
            assert(self.sessions@.to_set() =~= old(self).sessions@.to_set().insert(session));
        }
    }

    /// Unsubscribes `session` if it is subscribed.
    pub fn remove(&mut self, session: usize)
        requires
            old(self).wf(),
        ensures
            final(self).wf(),
            final(self)@ == entry_without(old(self)@, session),
    {
        match self.position(session) {
            Some(i) => {
                let _ = self.sessions.remove(i);
                let ghost before = old(self).sessions@;
                let ghost after = self.sessions@;
                assert forall|a: int, b: int|
                    0 <= a < after.len() && 0 <= b < after.len() && a != b
                    implies after[a] != after[b] by {
                    let a2 = if a < i { a } else { a + 1 };
                    let b2 = if b < i { b } else { b + 1 };
                    assert(after[a] == before[a2]);
                    assert(after[b] == before[b2]);
                }
                assert forall|x: usize|
                    after.contains(x) <==> (before.contains(x) && x != session) by {
                    if after.contains(x) {
                        let j = after.index_of(x);
                        let j2 = if j < i { j } else { j + 1 };
                        assert(before[j2] == x);
                    }
                    if before.contains(x) && x != session {
                        let j = before.index_of(x);
                        let j2 = if j < i { j } else { j - 1 };
                        assert(after[j2] == x);
                    }
                }
                assert(after.to_set() =~= before.to_set().remove(session));
            },
            None => {
                assert(self.sessions@.to_set() =~= old(self).sessions@.to_set().remove(session));
            },
        }
    }

    /// Replaces the counter.
    pub fn set_counter(&mut self, counter: u64)
        requires
            old(self).wf(),
        ensures
            final(self).wf(),
            final(self)@ == (EntryView { counter, sessions: old(self)@.sessions }),
    {
        self.counter = counter;
    }
}

/// The registry: an entry for every resource that some session has
/// subscribed to.
pub struct Registry {
    entries: KeyMap<SubscribeElement>,
}

impl View for Registry {
    type V = RegistryView;

    closed spec fn view(&self) -> RegistryView {
        Map::new(
            |u: Seq<u8>| self.entries.contains(u),
            |u: Seq<u8>| self.entries.map()[u]@,
        )
    }
}

impl Registry {
    /// No resource has two entries and no entry lists a session twice.
    pub closed spec fn wf(&self) -> bool {
        &&& self.entries.wf()
        &&& forall|i: int|
            0 <= i < self.entries.vals().len() ==> (#[trigger] self.entries.vals()[i]).wf()
    }

    /// An empty registry.
    pub fn new() -> (r: Self)
        ensures
            r.wf(),
            r@ == Map::<Seq<u8>, EntryView>::empty(),
    {
        let r = Registry { entries: KeyMap::new() };
        assert(r@ =~= Map::<Seq<u8>, EntryView>::empty());
        r
    }

    /// Number of resources with an entry.
    pub fn len(&self) -> (n: usize)
        requires
            self.wf(),
        ensures
            self@.dom().finite(),
            n == self@.dom().len(),
    {
        proof {
            let keys = self.entries.keys();
            assert(self@.dom() =~= keys.to_set());
            keys.unique_seq_to_set();
        }
        self.entries.len()
    }

    /// The counter registered for `uri`, if the resource has an entry.
    pub fn counter(&self, uri: &[u8]) -> (c: Option<u64>)
        requires
            self.wf(),
        ensures
            c == (if self@.contains_key(uri@) {
                Some(self@[uri@].counter)
            } else {
                None
            }),
    {
        match self.entries.find(uri) {
            Some(i) => {
                proof {
                    self.entries.lemma_map_at(i as int);
                }
                Some(self.entries.value(i).counter())
            },
            None => None,
        }
    }

    /// True when `session` is subscribed to `uri`.
    pub fn is_subscribed(&self, uri: &[u8], session: usize) -> (b: bool)
        requires
            self.wf(),
        ensures
            b == subscribed(self@, uri@, session),
    {
        match self.entries.find(uri) {
            Some(i) => {
                proof {
                    self.entries.lemma_map_at(i as int);
                }
                self.entries.value(i).contains(session)
            },
            None => false,
        }
    }

    /// Subscribes `session` to `uri` and returns the counter registered for
    /// the resource. A resource without an entry gets one with counter 0.
    pub fn subscribe(&mut self, uri: &[u8], session: usize) -> (registered: u64)
        requires
            old(self).wf(),
        ensures
            final(self).wf(),
            final(self)@ == registry_subscribe(old(self)@, uri@, session),
            registered == registered_counter(old(self)@, uri@),
    {
        match self.entries.find(uri) {
            Some(i) => {
                proof {
                    self.entries.lemma_map_at(i as int);
                }
                let e = self.entries.value_mut(i);
                e.insert(session);
                let registered = e.counter();
                proof {
                    old(self).entries.lemma_update(self.entries, i as int, self.entries.vals()[i as int]);
                    assert(self@ =~= registry_subscribe(old(self)@, uri@, session));
                }
                registered
            },
            None => {
                let mut e = SubscribeElement::new();
                e.insert(session);
                self.entries.push(uri, e);
                proof {
                    assert forall|u: Seq<u8>|
                        self.entries.contains(u) <==> (old(self).entries.contains(u) || u
                            == uri@) by {
                        assert(self.entries.map().contains_key(u) == self.entries.contains(u));
                        assert(old(self).entries.map().contains_key(u) == old(self).entries.contains(u));
                    }
                    assert(self@ =~= registry_subscribe(old(self)@, uri@, session));
                }
                0
            },
        }
    }

    /// Unsubscribes `session` from `uri`. The entry stays even when nobody
    /// watches it any more; a resource without an entry is left without one.
    pub fn unsubscribe(&mut self, uri: &[u8], session: usize)
        requires
            old(self).wf(),
        ensures
            final(self).wf(),
            final(self)@ == registry_unsubscribe(old(self)@, uri@, session),
    {
        match self.entries.find(uri) {
            Some(i) => {
                proof {
                    self.entries.lemma_map_at(i as int);
                }
                let e = self.entries.value_mut(i);
                e.remove(session);
                proof {
                    old(self).entries.lemma_update(
                        self.entries,
                        i as int,
                        self.entries.vals()[i as int],
                    );
                    assert(self@ =~= registry_unsubscribe(old(self)@, uri@, session));
                }
            },
            None => {
                assert(self@ =~= registry_unsubscribe(old(self)@, uri@, session));
            },
        }
    }

    /// Takes a log record for `uri`: a resource with an entry and another
    /// counter takes the new one. Returns whether the registry changed.
    pub fn ingest(&mut self, uri: &[u8], counter: u64) -> (changed: bool)
        requires
            old(self).wf(),
        ensures
            final(self).wf(),
            final(self)@ == registry_ingest(old(self)@, uri@, counter),
            changed == advances(old(self)@, uri@, counter),
    {
        match self.entries.find(uri) {
            Some(i) => {
                proof {
                    self.entries.lemma_map_at(i as int);
                }
                if self.entries.value(i).counter() != counter {
                    let e = self.entries.value_mut(i);
                    e.set_counter(counter);
                    proof {
                        old(self).entries.lemma_update(
                            self.entries,
                            i as int,
                            self.entries.vals()[i as int],
                        );
                        assert(self@ =~= registry_ingest(old(self)@, uri@, counter));
                    }
                    true
                } else {
                    false
                }
            },
            None => false,
        }
    }

    /// Unsubscribes `session` from every resource. With `prune_empty`, the
    /// entries that nobody watches afterwards are deleted.
    pub fn unsubscribe_all(&mut self, session: usize, prune_empty: bool)
        requires
            old(self).wf(),
        ensures
            final(self).wf(),
            final(self)@ == registry_unsubscribe_all(old(self)@, session, prune_empty),
    {
        let ghost before = self.entries;
        let n: usize = self.entries.len();
        let mut i: usize = 0;
        while i < n
            invariant
                before.wf(),
                forall|j: int| 0 <= j < n ==> (#[trigger] before.vals()[j]).wf(),
                self.entries.wf(),
                self.entries.keys() == before.keys(),
                self.entries.vals().len() == n,
                i <= n,
                forall|j: int|
                    0 <= j < i ==> (#[trigger] self.entries.vals()[j]).wf()
                        && self.entries.vals()[j]@ == entry_without(before.vals()[j]@, session),
                forall|j: int| i <= j < n ==> #[trigger] self.entries.vals()[j] == before.vals()[j],
            decreases n - i,
        {
            let e = self.entries.value_mut(i);
            e.remove(session);
            i += 1;
        }
        let ghost mid = self.entries;
        proof {
            assert forall|u: Seq<u8>| #[trigger] mid.contains(u) implies mid.map()[u]@
                == entry_without(before.map()[u]@, session) by {
                let j = mid.index_of(u);
                mid.lemma_map_at(j);
                before.lemma_map_at(j);
            }
        }
        if prune_empty {
            let mut k: usize = n;
            while k > 0
                invariant
                    mid.wf(),
                    self.entries.wf(),
                    k <= self.entries.keys().len(),
                    k <= mid.keys().len(),
                    self.entries.keys().subrange(0, k as int) == mid.keys().subrange(0, k as int),
                    self.entries.vals().subrange(0, k as int) == mid.vals().subrange(0, k as int),
                    forall|j: int|
                        0 <= j < self.entries.vals().len() ==> (
                        #[trigger] self.entries.vals()[j]).wf(),
                    forall|u: Seq<u8>|
                        #[trigger] self.entries.contains(u) <==> (mid.contains(u) && (mid.index_of(
                            u,
                        ) < k || !vacant(mid.map()[u]@))),
                    forall|u: Seq<u8>|
                        #[trigger] self.entries.contains(u) ==> self.entries.map()[u]
                            == mid.map()[u],
                decreases k,
            {
                k -= 1;
                let ghost cur = self.entries;
                proof {
                    assert(cur.keys()[k as int] == cur.keys().subrange(0, k + 1)[k as int]);
                    assert(mid.keys()[k as int] == mid.keys().subrange(0, k + 1)[k as int]);
                    assert(cur.vals()[k as int] == cur.vals().subrange(0, k + 1)[k as int]);
                    assert(mid.vals()[k as int] == mid.vals().subrange(0, k + 1)[k as int]);
                    mid.lemma_map_at(k as int);
                    cur.lemma_map_at(k as int);
                    assert(cur.keys().subrange(0, k as int) =~= cur.keys().subrange(0, k + 1).subrange(
                        0,
                        k as int,
                    ));
                    assert(mid.keys().subrange(0, k as int) =~= mid.keys().subrange(0, k + 1).subrange(
                        0,
                        k as int,
                    ));
                    assert(cur.vals().subrange(0, k as int) =~= cur.vals().subrange(0, k + 1).subrange(
                        0,
                        k as int,
                    ));
                    assert(mid.vals().subrange(0, k as int) =~= mid.vals().subrange(0, k + 1).subrange(
                        0,
                        k as int,
                    ));
                }
                if self.entries.value(k).subscribers() == 0 {
                    let _ = self.entries.remove(k);
                    proof {
                        let key = mid.keys()[k as int];
                        assert(self.entries.keys().subrange(0, k as int) =~= cur.keys().subrange(
                            0,
                            k as int,
                        ));
                        assert(self.entries.vals().subrange(0, k as int) =~= cur.vals().subrange(
                            0,
                            k as int,
                        ));
                        assert forall|j: int| 0 <= j < self.entries.vals().len() implies (
                        #[trigger] self.entries.vals()[j]).wf() by {
                            let j2 = if j < k { j } else { j + 1 };
                            assert(self.entries.vals()[j] == cur.vals()[j2]);
                        }
                        assert forall|u: Seq<u8>| #[trigger]
                            self.entries.contains(u) <==> (mid.contains(u) && (mid.index_of(u) < k
                                || !vacant(mid.map()[u]@))) by {
                            assert(self.entries.map().contains_key(u) == self.entries.contains(u));
                            assert(cur.map().contains_key(u) == cur.contains(u));
                            if mid.contains(u) {
                                mid.lemma_map_at(mid.index_of(u));
                            }
                        }
                        assert forall|u: Seq<u8>| #[trigger]
                            self.entries.contains(u) implies self.entries.map()[u]
                            == mid.map()[u] by {
                            assert(self.entries.map().contains_key(u) == self.entries.contains(u));
                            assert(cur.map().contains_key(u) == cur.contains(u));
                        }
                    }
                } else {
                    proof {
                        assert forall|u: Seq<u8>| #[trigger]
                            self.entries.contains(u) <==> (mid.contains(u) && (mid.index_of(u) < k
                                || !vacant(mid.map()[u]@))) by {
                            if mid.contains(u) {
                                mid.lemma_map_at(mid.index_of(u));
                            }
                        }
                    }
                }
            }
            assert(self@ =~= registry_unsubscribe_all(old(self)@, session, prune_empty));
        } else {
            assert(self@ =~= registry_unsubscribe_all(old(self)@, session, prune_empty));
        }
    }
}

} // verus!
