//! The broker coordinator: it owns the registry and the session table and
//! applies every operation to both, one at a time.

use crate::model::{
    advances, apply_command, can_connect, deliveries, fresh_session, initial_server, is_active,
    mark_sessions, message_reply, pending_reply, registered_counter, registry_ingest,
    reply_wanted, run_commands, server_connect, server_disconnect, server_ingest, server_message,
    server_record, server_records, server_subscribe, server_tail, server_take, server_take_all,
    server_unsubscribe, server_unsubscribe_all, session_ids, session_index, session_subscribe,
    session_take, session_unwatch, session_unwatch_all, tail_deliveries, wants_reply, ServerView,
    SessionView,
};
use crate::laws::{
    caught_up, consistent, law_connect, law_disconnect, law_ingest, law_initial, law_subscribe,
    law_take, law_take_all, law_unsubscribe, law_unsubscribe_all, lemma_caught_up_step, server_inv,
    session_inv, Event,
};
use crate::protocol::{command_views, message_commands, parse_message, Command, CommandView};
use crate::record::{record_views, LogRecord, RecordView};
use crate::registry::Registry;
use crate::session::SessionState;
use vstd::prelude::*;

verus! {

/// What the broker sends to a session: a reply in the wire format.
pub struct Msg(pub Vec<u8>);

/// A session has disconnected.
pub struct Disconnect {
    /// Identifier of the session.
    pub id: usize,
}

/// A client has sent a message.
pub struct ClientMessage {
    /// Identifier of the client's session.
    pub id: usize,
    /// The message as it came.
    pub msg: Vec<u8>,
}

/// A reply on its way to a session.
pub struct Delivery {
    /// Identifier of the session.
    pub id: usize,
    /// The reply.
    pub msg: Msg,
}

/// The broker coordinator.
pub struct CCUSServer {
    registry: Registry,
    sessions: Vec<SessionState>,
    next_id: usize,
    stat_sessions: usize,
    stat_uris: usize,
}

impl View for CCUSServer {
    type V = ServerView;

    closed spec fn view(&self) -> ServerView {
        ServerView {
            registry: self.registry@,
            sessions: Seq::new(self.sessions@.len(), |i: int| self.sessions@[i]@),
            next_id: self.next_id,
        }
    }
}

/// What a tail step over a batch comes to.
pub struct TailBatch {
    /// The number of records to acknowledge to the log: all of the batch,
    /// the malformed ones too, so that none is read again.
    pub acked: usize,
    /// One reply for every session with changes pending.
    pub deliveries: Vec<Delivery>,
}

/// The identifiers and replies of a list of deliveries.
pub open spec fn delivery_views(ds: Seq<Delivery>) -> Seq<(usize, Seq<u8>)> {
    Seq::new(ds.len(), |i: int| (ds[i].id, ds[i].msg.0@))
}

impl CCUSServer {
    /// The registry and every session are well formed, no two sessions share
    /// an identifier, and every identifier in use was handed out.
    pub closed spec fn shaped(&self) -> bool {
        &&& self.registry.wf()
        &&& forall|i: int| 0 <= i < self.sessions@.len() ==> (#[trigger] self.sessions@[i]).wf()
        &&& session_ids(self@.sessions).no_duplicates()
        &&& forall|i: int|
            0 <= i < self.sessions@.len() ==> (#[trigger] self.sessions@[i])@.id < self.next_id
        &&& self.next_id >= 1
    }

    /// The broker is well formed: its parts are, the registry lists a
    /// session under a resource exactly when the session is open and watches
    /// the resource, and no session is behind on a resource that it is
    /// subscribed to.
    pub closed spec fn wf(&self) -> bool {
        &&& self.shaped()
        &&& consistent(self@)
        &&& caught_up(self@)
    }

    /// The numbers of sessions and of registry entries that were last
    /// reported.
    pub closed spec fn reported(&self) -> (usize, usize) {
        (self.stat_sessions, self.stat_uris)
    }

    /// A well-formed broker is well formed as mathematics, its registry and
    /// sessions agree on who watches what, and none of its sessions is
    /// behind.
    pub proof fn lemma_wf(&self)
        requires
            self.wf(),
        ensures
            server_inv(self@),
            consistent(self@),
            caught_up(self@),
    {
        assert forall|i: int| 0 <= i < self@.sessions.len() implies (#[trigger] self@.sessions[i]).id
            < self@.next_id && session_inv(self@.sessions[i]) by {
            assert(self.sessions@[i].wf());
            self.sessions@[i].lemma_wf();
        }
    }

    /// A broker without sessions or subscriptions.
    pub fn new() -> (s: Self)
        ensures
            s.wf(),
            s@ == initial_server(),
            s.reported() == (0usize, 0usize),
    {
        let s = CCUSServer {
            registry: Registry::new(),
            sessions: Vec::new(),
            next_id: 1,
            stat_sessions: 0,
            stat_uris: 0,
        };
        assert(s@.sessions =~= Seq::<SessionView>::empty());
        proof {
            law_initial();
        }
        s
    }

    fn find_session(&self, id: usize) -> (r: Option<usize>)
        requires
            self.wf(),
        ensures
            match r {
                Some(i) => i < self.sessions@.len() && self.sessions@[i as int]@.id == id
                    && is_active(self@, id) && session_index(self@, id) == i,
                None => !is_active(self@, id),
            },
    {
        let mut i: usize = 0;
        while i < self.sessions.len()
            invariant
                self.wf(),
                i <= self.sessions@.len(),
                forall|j: int| 0 <= j < i ==> self.sessions@[j]@.id != id,
            decreases self.sessions.len() - i,
        {
            if self.sessions[i].id() == id {
                proof {
                    let ids = session_ids(self@.sessions);
                    assert(ids[i as int] == id);
                    assert(ids.contains(id));
                    let j = ids.index_of(id);
                    assert(ids[j] == id);
                }
                return Some(i);
            }
            i += 1;
        }
        proof {
            let ids = session_ids(self@.sessions);
            if ids.contains(id) {
                let j = ids.index_of(id);
                assert(self.sessions@[j]@.id == id);
            }
        }
        None
    }

    /// True when a session with this identifier is open.
    pub fn is_open(&self, id: usize) -> (b: bool)
        requires
            self.wf(),
        ensures
            b == is_active(self@, id),
    {
        self.find_session(id).is_some()
    }

    /// Opens a session and returns its identifier, or `None` when every
    /// identifier has been handed out.
    pub fn connect(&mut self) -> (id: Option<usize>)
        requires
            old(self).wf(),
        ensures
            final(self).wf(),
            final(self).reported() == old(self).reported(),
            final(self)@ == server_connect(old(self)@),
            id == (if can_connect(old(self)@) {
                Some(old(self)@.next_id)
            } else {
                None
            }),
    {
        if self.next_id == usize::MAX {
            return None;
        }
        let id: usize = self.next_id;
        self.sessions.push(SessionState::new(id));
        self.next_id = id + 1;
        proof {
            old(self).lemma_wf();
            law_connect(old(self)@);
            lemma_caught_up_step(old(self)@, Event::Connect);
            assert(self@.sessions =~= old(self)@.sessions.push(fresh_session(id)));
            let ids = session_ids(self@.sessions);
            assert forall|a: int, b: int|
                0 <= a < ids.len() && 0 <= b < ids.len() && a != b implies ids[a] != ids[b] by {
                let old_ids = session_ids(old(self)@.sessions);
                if a < old_ids.len() {
                    assert(old(self).sessions@[a]@.id < id);
                    assert(ids[a] == old_ids[a]);
                }
                if b < old_ids.len() {
                    assert(old(self).sessions@[b]@.id < id);
                    assert(ids[b] == old_ids[b]);
                }
            }
            assert forall|i: int|
                0 <= i < self.sessions@.len()
                implies (#[trigger] self.sessions@[i]).wf() && self.sessions@[i]@.id < self.next_id by {
                if i < old(self).sessions@.len() {
                    assert(self.sessions@[i] == old(self).sessions@[i]);
                }
            }
        }
        Some(id)
    }

    /// Replacing the state of one session by a well-formed state with the
    /// same identifier keeps the broker well formed.
    proof fn lemma_session_updated(before: Self, after: Self, i: int, sv: SessionView)
        requires
            before.shaped(),
            after.registry.wf(),
            after.next_id == before.next_id,
            0 <= i < before.sessions@.len(),
            after.sessions@.len() == before.sessions@.len(),
            forall|j: int|
                0 <= j < before.sessions@.len() && j != i ==> after.sessions@[j]
                    == before.sessions@[j],
            after.sessions@[i].wf(),
            after.sessions@[i]@ == sv,
            sv.id == before.sessions@[i]@.id,
        ensures
            after.shaped(),
            after@.sessions == before@.sessions.update(i, sv),
    {
        assert(after@.sessions =~= before@.sessions.update(i, sv));
        assert(session_ids(after@.sessions) =~= session_ids(before@.sessions));
        assert forall|j: int| 0 <= j < after.sessions@.len() implies (#[trigger] after.sessions@[j]).wf()
            && after.sessions@[j]@.id < after.next_id by {
            if j != i {
                assert(after.sessions@[j] == before.sessions@[j]);
            } else {
                assert(before.sessions@[i]@.id < before.next_id);
            }
        }
    }

    /// Subscribes an open session to `uri`; `counter` is what the client
    /// says it has. Returns the counter registered for the resource before
    /// the call, 0 where it had no entry. Where that counter is greater than
    /// the client's, it is pending for the session at once; where it is not,
    /// nothing is pending for the resource. For a session that is not open
    /// nothing changes.
    pub fn subscribe(&mut self, uri: &[u8], counter: u64, session_id: usize) -> (registered: u64)
        requires
            old(self).wf(),
        ensures
            final(self).wf(),
            final(self).reported() == old(self).reported(),
            final(self)@ == server_subscribe(old(self)@, session_id, uri@, counter),
            registered == registered_counter(old(self)@.registry, uri@),
    {
        match self.find_session(session_id) {
            Some(i) => {
                let registered: u64 = self.registry.subscribe(uri, session_id);
                self.sessions[i].watch(uri, counter);
                if registered > counter {
                    self.sessions[i].mark(uri, registered);
                } else {
                    self.sessions[i].unmark(uri);
                }
                proof {
                    Self::lemma_session_updated(
                        *old(self),
                        *self,
                        i as int,
                        session_subscribe(old(self).sessions@[i as int]@, uri@, counter, registered),
                    );
                    old(self).lemma_wf();
                    law_subscribe(old(self)@, session_id, uri@, counter);
                    lemma_caught_up_step(
                        old(self)@,
                        Event::Apply {
                            id: session_id,
                            command: CommandView::Subscribe { uri: uri@, counter },
                        },
                    );
                }
                registered
            },
            None => {
                match self.registry.counter(uri) {
                    Some(c) => c,
                    None => 0,
                }
            },
        }
    }

    /// Unsubscribes an open session from `uri`. The registry keeps the
    /// resource's entry even when nobody watches it any more.
    pub fn unsubscribe(&mut self, uri: &[u8], session_id: usize)
        requires
            old(self).wf(),
        ensures
            final(self).wf(),
            final(self).reported() == old(self).reported(),
            final(self)@ == server_unsubscribe(old(self)@, session_id, uri@),
    {
        match self.find_session(session_id) {
            Some(i) => {
                self.registry.unsubscribe(uri, session_id);
                self.sessions[i].unwatch(uri);
                proof {
                    Self::lemma_session_updated(
                        *old(self),
                        *self,
                        i as int,
                        session_unwatch(old(self).sessions@[i as int]@, uri@),
                    );
                    old(self).lemma_wf();
                    law_unsubscribe(old(self)@, session_id, uri@);
                    lemma_caught_up_step(
                        old(self)@,
                        Event::Apply {
                            id: session_id,
                            command: CommandView::Unsubscribe { uri: uri@ },
                        },
                    );
                }
            },
            None => {},
        }
    }

    /// Unsubscribes an open session from everything. With `is_clear_unused`
    /// the registry entries that nobody watches afterwards are deleted.
    pub fn unsubscribe_all(&mut self, session_id: usize, is_clear_unused: bool)
        requires
            old(self).wf(),
        ensures
            final(self).wf(),
            final(self).reported() == old(self).reported(),
            final(self)@ == server_unsubscribe_all(old(self)@, session_id, is_clear_unused),
    {
        match self.find_session(session_id) {
            Some(i) => {
                self.registry.unsubscribe_all(session_id, is_clear_unused);
                self.sessions[i].unwatch_all();
                proof {
                    Self::lemma_session_updated(
                        *old(self),
                        *self,
                        i as int,
                        session_unwatch_all(old(self).sessions@[i as int]@),
                    );
                    old(self).lemma_wf();
                    law_unsubscribe_all(old(self)@, session_id, is_clear_unused);
                    lemma_caught_up_step(
                        old(self)@,
                        Event::UnsubscribeAll { id: session_id, prune: is_clear_unused },
                    );
                }
            },
            None => {},
        }
    }

    /// Closes a session: it leaves every registry entry, entries that nobody
    /// watches are deleted, and its state is discarded. A session that is
    /// not open is ignored.
    pub fn disconnect(&mut self, msg: Disconnect)
        requires
            old(self).wf(),
        ensures
            final(self).wf(),
            final(self).reported() == old(self).reported(),
            final(self)@ == server_disconnect(old(self)@, msg.id),
    {
        match self.find_session(msg.id) {
            Some(i) => {
                self.registry.unsubscribe_all(msg.id, true);
                let _ = self.sessions.remove(i);
                proof {
                    assert(self@.sessions =~= old(self)@.sessions.remove(i as int));
                    let ids = session_ids(self@.sessions);
                    let old_ids = session_ids(old(self)@.sessions);
                    assert(ids =~= old_ids.remove(i as int));
                    assert forall|a: int, b: int|
                        0 <= a < ids.len() && 0 <= b < ids.len() && a != b
                        implies ids[a] != ids[b] by {
                        let a2 = if a < i { a } else { a + 1 };
                        let b2 = if b < i { b } else { b + 1 };
                        assert(ids[a] == old_ids[a2]);
                        assert(ids[b] == old_ids[b2]);
                    }
                    assert forall|j: int| 0 <= j < self.sessions@.len() implies (#[trigger] self.sessions@[j]).wf()
                        && self.sessions@[j]@.id < self.next_id by {
                        let j2 = if j < i { j } else { j + 1 };
                        assert(self.sessions@[j] == old(self).sessions@[j2]);
                    }
                    old(self).lemma_wf();
                    law_disconnect(old(self)@, msg.id);
                    lemma_caught_up_step(old(self)@, Event::Disconnect { id: msg.id });
                }
            },
            None => {},
        }
    }

    /// Takes a log record for `uri`: where the registry has an entry with
    /// another counter, the entry takes the new one and the change becomes
    /// pending for every subscribed session. Returns whether it did.
    pub fn ingest(&mut self, uri: &[u8], counter: u64) -> (changed: bool)
        requires
            old(self).wf(),
        ensures
            final(self).wf(),
            final(self).reported() == old(self).reported(),
            final(self)@ == server_ingest(old(self)@, uri@, counter),
            changed == advances(old(self)@.registry, uri@, counter),
    {
        if !self.registry.ingest(uri, counter) {
            return false;
        }
        let ghost watchers = old(self)@.registry[uri@].sessions;
        let n: usize = self.sessions.len();
        let mut i: usize = 0;
        while i < n
            invariant
                old(self).wf(),
                self.reported() == old(self).reported(),
                self.registry.wf(),
                self.registry@ == registry_ingest(old(self)@.registry, uri@, counter),
                advances(old(self)@.registry, uri@, counter),
                watchers == old(self)@.registry[uri@].sessions,
                self.next_id == old(self).next_id,
                n == old(self).sessions@.len(),
                self.sessions@.len() == n,
                i <= n,
                forall|j: int| 0 <= j < n ==> (#[trigger] self.sessions@[j]).wf(),
                forall|j: int|
                    0 <= j < i ==> (#[trigger] self.sessions@[j])@ == mark_sessions(
                        old(self)@.sessions,
                        watchers,
                        uri@,
                        counter,
                    )[j],
                forall|j: int| i <= j < n ==> #[trigger] self.sessions@[j] == old(self).sessions@[j],
            decreases n - i,
        {
            let id: usize = self.sessions[i].id();
            if self.registry.is_subscribed(uri, id) {
                self.sessions[i].mark(uri, counter);
            }
            i += 1;
        }
        proof {
            assert(self@.sessions =~= mark_sessions(old(self)@.sessions, watchers, uri@, counter));
            assert(session_ids(self@.sessions) =~= session_ids(old(self)@.sessions));
            assert forall|j: int|
                0 <= j < self.sessions@.len()
                implies (#[trigger] self.sessions@[j])@.id < self.next_id by {
                assert(old(self).sessions@[j]@.id < old(self).next_id);
                assert(self.sessions@[j]@ == mark_sessions(
                    old(self)@.sessions,
                    watchers,
                    uri@,
                    counter,
                )[j]);
            }
            old(self).lemma_wf();
            law_ingest(old(self)@, uri@, counter);
            lemma_caught_up_step(
                old(self)@,
                Event::Record { record: RecordView::Change { uri: uri@, counter } },
            );
        }
        true
    }

    /// Hands an open session its pending changes as one reply. The reply is
    /// empty when nothing is pending or the session is not open.
    pub fn take_delta(&mut self, session_id: usize) -> (reply: Vec<u8>)
        requires
            old(self).wf(),
        ensures
            final(self).wf(),
            final(self).reported() == old(self).reported(),
            final(self)@ == server_take(old(self)@, session_id),
            reply@ == pending_reply(old(self)@, session_id),
    {
        match self.find_session(session_id) {
            Some(i) => {
                let reply = self.sessions[i].take_delta();
                proof {
                    Self::lemma_session_updated(
                        *old(self),
                        *self,
                        i as int,
                        session_take(old(self).sessions@[i as int]@),
                    );
                    old(self).lemma_wf();
                    law_take(old(self)@, session_id);
                    lemma_caught_up_step(old(self)@, Event::Take { id: session_id });
                }
                reply
            },
            None => Vec::new(),
        }
    }

    /// Hands every session with pending changes its delta. The replies come
    /// in the order in which the sessions were opened.
    pub fn take_deltas(&mut self) -> (out: Vec<Delivery>)
        requires
            old(self).wf(),
        ensures
            final(self).wf(),
            final(self).reported() == old(self).reported(),
            final(self)@ == server_take_all(old(self)@),
            delivery_views(out@) == deliveries(old(self)@.sessions),
    {
        let mut out: Vec<Delivery> = Vec::new();
        let n: usize = self.sessions.len();
        let mut i: usize = 0;
        assert(old(self)@.sessions.subrange(0, 0) =~= Seq::<SessionView>::empty());
        assert(delivery_views(out@) =~= Seq::<(usize, Seq<u8>)>::empty());
        while i < n
            invariant
                old(self).wf(),
                self.reported() == old(self).reported(),
                self.registry == old(self).registry,
                self.next_id == old(self).next_id,
                n == old(self).sessions@.len(),
                self.sessions@.len() == n,
                i <= n,
                forall|j: int| 0 <= j < n ==> (#[trigger] self.sessions@[j]).wf(),
                forall|j: int|
                    0 <= j < i ==> (#[trigger] self.sessions@[j])@ == session_take(
                        old(self).sessions@[j]@,
                    ),
                forall|j: int| i <= j < n ==> #[trigger] self.sessions@[j] == old(self).sessions@[j],
                delivery_views(out@) == deliveries(old(self)@.sessions.subrange(0, i as int)),
            decreases n - i,
        {
            let ghost pre = old(self)@.sessions.subrange(0, i as int);
            let ghost cur = old(self)@.sessions.subrange(0, i + 1);
            assert(cur.drop_last() =~= pre);
            assert(cur.last() == old(self).sessions@[i as int]@);
            let ghost before = delivery_views(out@);
            let pending: bool = self.sessions[i].has_pending();
            let id: usize = self.sessions[i].id();
            let reply = self.sessions[i].take_delta();
            if pending {
                out.push(Delivery { id, msg: Msg(reply) });
                assert(delivery_views(out@) =~= before.push((id, reply@)));
            }
            i += 1;
        }
        proof {
            assert(old(self)@.sessions.subrange(0, n as int) =~= old(self)@.sessions);
            assert(self@.sessions =~= server_take_all(old(self)@).sessions);
            assert(session_ids(self@.sessions) =~= session_ids(old(self)@.sessions));
            assert forall|j: int|
                0 <= j < self.sessions@.len()
                implies (#[trigger] self.sessions@[j])@.id < self.next_id by {
                assert(old(self).sessions@[j]@.id < old(self).next_id);
            }
            old(self).lemma_wf();
            law_take_all(old(self)@);
            lemma_caught_up_step(old(self)@, Event::Flush);
        }
        out
    }

    /// Applies one command of a session and tells whether it calls for a
    /// reply.
    pub fn apply(&mut self, cmd: &Command, session_id: usize) -> (wants: bool)
        requires
            old(self).wf(),
        ensures
            final(self).wf(),
            final(self).reported() == old(self).reported(),
            final(self)@ == apply_command(old(self)@, session_id, cmd@),
            wants == wants_reply(old(self)@, cmd@),
    {
        match cmd {
            Command::Subscribe { uri, counter } => {
                let registered: u64 = self.subscribe(uri.as_slice(), *counter, session_id);
                registered > *counter
            },
            Command::Unsubscribe { uri } => {
                self.unsubscribe(uri.as_slice(), session_id);
                false
            },
            Command::UnsubscribeAll => {
                self.unsubscribe_all(session_id, false);
                false
            },
            Command::Poll => true,
            Command::Start => false,
            Command::Handshake => false,
            Command::Skip => false,
        }
    }

    /// Processes a client message: its items are applied in order, up to a
    /// handshake item; items that the protocol does not know are skipped.
    /// Where an item calls for a reply, the reply hands the session all that
    /// is pending for it; otherwise the reply is empty. A message from a
    /// session that is not open changes nothing.
    pub fn prepare_command(&mut self, message: &[u8], session_id: usize) -> (reply: Vec<u8>)
        requires
            old(self).wf(),
        ensures
            final(self).wf(),
            final(self).reported() == old(self).reported(),
            final(self)@ == server_message(old(self)@, session_id, message@),
            reply@ == message_reply(old(self)@, session_id, message@),
    {
        if !self.is_open(session_id) {
            return Vec::new();
        }
        let cmds = parse_message(message);
        let ghost views = message_commands(message@);
        let mut wanted: bool = false;
        let mut i: usize = 0;
        assert(views.subrange(0, 0) =~= Seq::<CommandView>::empty());
        while i < cmds.len()
            invariant
                self.wf(),
                self.reported() == old(self).reported(),
                views == command_views(cmds@),
                i <= cmds@.len(),
                self@ == run_commands(old(self)@, session_id, views.subrange(0, i as int)),
                wanted == reply_wanted(old(self)@, session_id, views.subrange(0, i as int)),
            decreases cmds.len() - i,
        {
            let ghost pre = views.subrange(0, i as int);
            let ghost cur = views.subrange(0, i + 1);
            assert(cur.drop_last() =~= pre);
            assert(cur.last() == cmds@[i as int]@);
            let wants: bool = self.apply(&cmds[i], session_id);
            wanted = wanted || wants;
            i += 1;
        }
        assert(views.subrange(0, cmds@.len() as int) =~= views);
        if wanted {
            self.take_delta(session_id)
        } else {
            Vec::new()
        }
    }

    /// Handles a client message and returns the reply for the client.
    pub fn handle(&mut self, msg: ClientMessage) -> (reply: Msg)
        requires
            old(self).wf(),
        ensures
            final(self).wf(),
            final(self).reported() == old(self).reported(),
            final(self)@ == server_message(old(self)@, msg.id, msg.msg@),
            reply.0@ == message_reply(old(self)@, msg.id, msg.msg@),
    {
        Msg(self.prepare_command(msg.msg.as_slice(), msg.id))
    }

    /// Takes one decoded log record: a change is ingested, a malformed
    /// record is passed over. Returns whether the registry changed.
    pub fn on_record(&mut self, record: &LogRecord) -> (changed: bool)
        requires
            old(self).wf(),
        ensures
            final(self).wf(),
            final(self).reported() == old(self).reported(),
            final(self)@ == server_record(old(self)@, record@),
            changed == (record@ matches RecordView::Change { uri, counter }
                && advances(old(self)@.registry, uri, counter)),
    {
        match record {
            LogRecord::Malformed => false,
            LogRecord::Change { uri, counter } => self.ingest(uri.as_slice(), *counter),
        }
    }

    /// Takes a batch of decoded log records in order. A malformed record
    /// does not keep the records after it from being ingested.
    pub fn ingest_batch(&mut self, records: &[LogRecord])
        requires
            old(self).wf(),
        ensures
            final(self).wf(),
            final(self).reported() == old(self).reported(),
            final(self)@ == server_records(old(self)@, record_views(records@)),
    {
        let ghost views = record_views(records@);
        let mut i: usize = 0;
        assert(views.subrange(0, 0) =~= Seq::<RecordView>::empty());
        while i < records.len()
            invariant
                self.wf(),
                self.reported() == old(self).reported(),
                views == record_views(records@),
                i <= records@.len(),
                self@ == server_records(old(self)@, views.subrange(0, i as int)),
            decreases records.len() - i,
        {
            let ghost pre = views.subrange(0, i as int);
            let ghost cur = views.subrange(0, i + 1);
            assert(cur.drop_last() =~= pre);
            assert(cur.last() == records@[i as int]@);
            let _ = self.on_record(&records[i]);
            i += 1;
        }
        assert(views.subrange(0, records@.len() as int) =~= views);
    }

    /// One tail step over a batch that was read from the log: the records
    /// are ingested in order, and every session with changes pending is
    /// handed one reply that holds, for each resource, the counter that the
    /// batch gave last. Every record of the batch is to be acknowledged.
    pub fn tail_step(&mut self, records: &[LogRecord]) -> (batch: TailBatch)
        requires
            old(self).wf(),
        ensures
            final(self).wf(),
            final(self).reported() == old(self).reported(),
            final(self)@ == server_tail(old(self)@, record_views(records@)),
            delivery_views(batch.deliveries@) == tail_deliveries(
                old(self)@,
                record_views(records@),
            ),
            batch.acked == records@.len(),
    {
        self.ingest_batch(records);
        let deliveries = self.take_deltas();
        TailBatch { acked: records.len(), deliveries }
    }

    /// Number of open sessions.
    pub fn session_count(&self) -> (n: usize)
        ensures
            n == self@.sessions.len(),
    {
        self.sessions.len()
    }

    /// Number of resources with a registry entry.
    pub fn uri_count(&self) -> (n: usize)
        requires
            self.wf(),
        ensures
            self@.registry.dom().finite(),
            n == self@.registry.dom().len(),
    {
        self.registry.len()
    }

    /// The statistics tick: when the number of sessions or of registry
    /// entries differs from what was last reported, both are returned for
    /// the report and remembered.
    pub fn stat(&mut self) -> (r: Option<(usize, usize)>)
        requires
            old(self).wf(),
        ensures
            final(self).wf(),
            final(self)@ == old(self)@,
            final(self).reported() == (
                old(self)@.sessions.len() as usize,
                old(self)@.registry.dom().len() as usize,
            ),
            r == (if final(self).reported() != old(self).reported() {
                Some(final(self).reported())
            } else {
                None
            }),
    {
        let sessions: usize = self.sessions.len();
        let uris: usize = self.registry.len();
        if sessions != self.stat_sessions || uris != self.stat_uris {
            self.stat_sessions = sessions;
            self.stat_uris = uris;
            Some((sessions, uris))
        } else {
            None
        }
    }
}

} // verus!
