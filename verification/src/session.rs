//! Per-connection state: what a session watches and what it has yet to be
//! told.

use crate::model::{
    acknowledged, delta_has, delta_keys, format_delta, fresh_session, session_mark, session_take,
    session_unmark, session_unwatch, session_unwatch_all, session_watch, SessionView,
};
use crate::text::{push_bytes, push_decimal};
use crate::keymap::KeyMap;
use vstd::prelude::*;

verus! {

/// The state of one client session.
pub struct SessionState {
    id: usize,
    watched: KeyMap<u64>,
    outbox: KeyMap<u64>,
}

impl View for SessionState {
    type V = SessionView;

    closed spec fn view(&self) -> SessionView {
        SessionView { id: self.id, watched: self.watched.map(), outbox: self.outbox.entries() }
    }
}

impl SessionState {
    /// No resource is watched or pending twice, and only watched resources
    /// have a change pending.
    pub closed spec fn wf(&self) -> bool {
        &&& self.watched.wf()
        &&& self.outbox.wf()
        &&& forall|u: Seq<u8>| #[trigger] self.outbox.contains(u) ==> self.watched.contains(u)
    }

    /// In a well-formed session the pending changes name each resource once,
    /// and only resources that the session watches.
    pub proof fn lemma_wf(&self)
        requires
            self.wf(),
        ensures
            delta_keys(self@.outbox).no_duplicates(),
            forall|u: Seq<u8>| #[trigger] delta_has(self@.outbox, u) ==> self@.watched.contains_key(u),
    {
        assert(delta_keys(self@.outbox) =~= self.outbox.keys());
        assert forall|u: Seq<u8>|
            #[trigger] delta_has(self@.outbox, u) implies self@.watched.contains_key(u) by {
            assert(self.outbox.contains(u));
            assert(self.watched.contains(u));
        }
    }

    /// A session that watches nothing.
    pub fn new(id: usize) -> (s: Self)
        ensures
            s.wf(),
            s@ == fresh_session(id),
    {
        let s = SessionState { id, watched: KeyMap::new(), outbox: KeyMap::new() };
        assert(s@.outbox =~= Seq::<(Seq<u8>, u64)>::empty());
        s
    }

    /// The session's identifier.
    pub fn id(&self) -> (id: usize)
        ensures
            id == self@.id,
    {
        self.id
    }

    /// True when changes are pending.
    pub fn has_pending(&self) -> (b: bool)
        requires
            self.wf(),
        ensures
            b == (self@.outbox.len() > 0),
    {
        self.outbox.len() > 0
    }

    /// The counter on record for `uri`, if the session watches it.
    pub fn last_acked(&self, uri: &[u8]) -> (c: Option<u64>)
        requires
            self.wf(),
        ensures
            c == (if self@.watched.contains_key(uri@) {
                Some(self@.watched[uri@])
            } else {
                None
            }),
    {
        match self.watched.find(uri) {
            Some(i) => {
                proof {
                    self.watched.lemma_map_at(i as int);
                }
                Some(*self.watched.value(i))
            },
            None => None,
        }
    }

    /// Starts to watch `uri`, or watches it anew, with `known` as the
    /// counter that the client says it has.
    pub fn watch(&mut self, uri: &[u8], known: u64)
        requires
            old(self).wf(),
        ensures
            final(self).wf(),
            final(self)@ == session_watch(old(self)@, uri@, known),
    {
        match self.watched.find(uri) {
            Some(i) => {
                proof {
                    self.watched.lemma_map_at(i as int);
                }
                self.watched.set(i, known);
                proof {
                    assert forall|u: Seq<u8>| #[trigger] self.outbox.contains(u)
                        implies self.watched.contains(u) by {
                        assert(old(self).watched.contains(u));
                    }
                }
            },
            None => {
                self.watched.push(uri, known);
                proof {
                    assert forall|u: Seq<u8>| #[trigger] self.outbox.contains(u)
                        implies self.watched.contains(u) by {
                        assert(old(self).watched.contains(u));
                        assert(old(self).watched.map().contains_key(u));
                        assert(self.watched.map().contains_key(u));
                    }
                }
            },
        }
    }

    /// Drops a change that is pending for `uri`.
    pub fn unmark(&mut self, uri: &[u8])
        requires
            old(self).wf(),
        ensures
            final(self).wf(),
            final(self)@ == session_unmark(old(self)@, uri@),
    {
        proof {
            assert(delta_keys(self@.outbox) =~= self.outbox.keys());
        }
        match self.outbox.find(uri) {
            Some(i) => {
                let _ = self.outbox.remove(i);
                assert(self.outbox.entries() =~= old(self).outbox.entries().remove(i as int));
                proof {
                    assert forall|u: Seq<u8>| #[trigger] self.outbox.contains(u)
                        implies self.watched.contains(u) by {
                        assert(self.outbox.map().contains_key(u));
                        assert(old(self).outbox.map().contains_key(u) == old(
                            self,
                        ).outbox.contains(u));
                    }
                }
            },
            None => {},
        }
    }

    /// Stops watching `uri` and drops a change that is pending for it.
    pub fn unwatch(&mut self, uri: &[u8])
        requires
            old(self).wf(),
        ensures
            final(self).wf(),
            final(self)@ == session_unwatch(old(self)@, uri@),
    {
        proof {
            assert(delta_keys(self@.outbox) =~= self.outbox.keys());
        }
        match self.outbox.find(uri) {
            Some(i) => {
                let _ = self.outbox.remove(i);
                assert(self.outbox.entries() =~= old(self).outbox.entries().remove(i as int));
            },
            None => {},
        }
        match self.watched.find(uri) {
            Some(i) => {
                proof {
                    self.watched.lemma_map_at(i as int);
                }
                let _ = self.watched.remove(i);
            },
            None => {
                assert(self.watched.map() =~= old(self).watched.map().remove(uri@));
            },
        }
        proof {
            assert forall|u: Seq<u8>|
                #[trigger] self.outbox.contains(u) implies self.watched.contains(u) by {
                assert(self.outbox.map().contains_key(u));
                assert(old(self).outbox.map().contains_key(u) == old(self).outbox.contains(u));
                assert(old(self).watched.contains(u));
                assert(old(self).watched.map().contains_key(u));
                assert(self.watched.map().contains_key(u));
            }
        }
    }

    /// Stops watching everything.
    pub fn unwatch_all(&mut self)
        requires
            old(self).wf(),
        ensures
            final(self).wf(),
            final(self)@ == session_unwatch_all(old(self)@),
    {
        self.watched.clear();
        self.outbox.clear();
        assert(self@.outbox =~= Seq::<(Seq<u8>, u64)>::empty());
    }

    /// Records that `uri` changed to `counter`, if the session watches it.
    pub fn mark(&mut self, uri: &[u8], counter: u64)
        requires
            old(self).wf(),
        ensures
            final(self).wf(),
            final(self)@ == session_mark(old(self)@, uri@, counter),
    {
        proof {
            assert(delta_keys(self@.outbox) =~= self.outbox.keys());
        }
        if self.watched.find(uri).is_some() {
            assert(self.watched.map().contains_key(uri@));
            match self.outbox.find(uri) {
                Some(i) => {
                    self.outbox.set(i, counter);
                    assert(self.outbox.entries() =~= old(self).outbox.entries().update(
                        i as int,
                        (uri@, counter),
                    ));
                    assert forall|u: Seq<u8>|
                        #[trigger] self.outbox.contains(u) implies self.watched.contains(u) by {
                        assert(old(self).outbox.contains(u));
                    }
                },
                None => {
                    self.outbox.push(uri, counter);
                    assert(self.outbox.entries() =~= old(self).outbox.entries().push(
                        (uri@, counter),
                    ));
                    proof {
                        assert(self.watched.contains(uri@));
                        assert forall|u: Seq<u8>|
                            #[trigger] self.outbox.contains(u) implies self.watched.contains(u) by {
                            assert(self.outbox.map().contains_key(u));
                            assert(old(self).outbox.map().contains_key(u) == old(self).outbox.contains(u));
                            if u != uri@ {
                                assert(old(self).outbox.contains(u));
                                assert(old(self).watched.contains(u));
                            }
                        }
                    }
                },
            }
        } else {
            assert(!self.watched.map().contains_key(uri@));
        }
    }

    /// Hands out the pending changes as one reply and records them as told.
    /// Nothing is pending afterwards.
    pub fn take_delta(&mut self) -> (reply: Vec<u8>)
        requires
            old(self).wf(),
        ensures
            final(self).wf(),
            final(self)@ == session_take(old(self)@),
            reply@ == format_delta(old(self)@.outbox),
    {
        let mut reply: Vec<u8> = Vec::new();
        let n: usize = self.outbox.len();
        let ghost d = self.outbox.entries();
        let ghost w0 = self.watched.map();
        let mut i: usize = 0;
        assert(d.subrange(0, 0) =~= Seq::<(Seq<u8>, u64)>::empty());
        while i < n
            invariant
                self.outbox == old(self).outbox,
                self.id == old(self).id,
                self.outbox.wf(),
                self.watched.wf(),
                d == self.outbox.entries(),
                n == d.len(),
                i <= n,
                self.watched.keys() == old(self).watched.keys(),
                self.watched.map() == acknowledged(w0, d.subrange(0, i as int)),
                reply@ == format_delta(d.subrange(0, i as int)),
            decreases n - i,
        {
            let ghost pre = d.subrange(0, i as int);
            let ghost cur = d.subrange(0, i + 1);
            assert(cur.drop_last() =~= pre);
            assert(cur.last() == d[i as int]);
            if i > 0 {
                reply.push(44);
            }
            let counter: u64 = *self.outbox.value(i);
            push_bytes(&mut reply, self.outbox.key(i).as_slice());
            reply.push(61);
            push_decimal(&mut reply, counter);
            assert(reply@ =~= format_delta(cur)) by {
                assert(d[i as int] == (self.outbox.keys()[i as int], counter));
                if i == 0 {
                    assert(pre.len() == 0);
                    assert(cur.len() == 1);
                    assert(cur[0] == d[0]);
                }
            }
            match self.watched.find(self.outbox.key(i).as_slice()) {
                Some(j) => {
                    assert(self.watched.map().contains_key(self.outbox.keys()[i as int]));
                    self.watched.set(j, counter);
                },
                None => {
                    assert(!self.watched.map().contains_key(self.outbox.keys()[i as int]));
                },
            }
            i += 1;
        }
        assert(d.subrange(0, n as int) =~= d);
        self.outbox.clear();
        assert(self@.outbox =~= Seq::<(Seq<u8>, u64)>::empty());
        reply
    }
}

} // verus!
