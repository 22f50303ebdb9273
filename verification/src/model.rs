//! The broker as mathematics: what the registry and the sessions hold, and
//! what each operation does to them.

use crate::protocol::{message_commands, CommandView};
use crate::record::RecordView;
use crate::text::decimal;
use vstd::prelude::*;

verus! {

/// A resource identifier as the broker sees it: a string of bytes.
pub type Uri = Seq<u8>;

/// What the registry knows of one resource: its latest counter and the
/// sessions that watch it.
pub struct EntryView {
    pub counter: u64,
    pub sessions: Set<usize>,
}

/// The registry: an entry for each resource that is being watched.
pub type RegistryView = Map<Uri, EntryView>;

/// The entry that a resource gets when it is first subscribed to.
pub open spec fn fresh_entry() -> EntryView {
    EntryView { counter: 0, sessions: Set::empty() }
}

/// The entry of `uri`, or a fresh one where the registry has none.
pub open spec fn entry_or_fresh(r: RegistryView, uri: Uri) -> EntryView {
    if r.contains_key(uri) {
        r[uri]
    } else {
        fresh_entry()
    }
}

/// True when no session watches the entry.
pub open spec fn vacant(e: EntryView) -> bool {
    e.sessions == Set::<usize>::empty()
}

/// The entry without `session`.
pub open spec fn entry_without(e: EntryView, session: usize) -> EntryView {
    EntryView { counter: e.counter, sessions: e.sessions.remove(session) }
}

/// The counter that the registry holds for `uri`; 0 where it has no entry.
pub open spec fn registered_counter(r: RegistryView, uri: Uri) -> u64 {
    entry_or_fresh(r, uri).counter
}

/// True when `session` is among the watchers of `uri`.
pub open spec fn subscribed(r: RegistryView, uri: Uri, session: usize) -> bool {
    r.contains_key(uri) && r[uri].sessions.contains(session)
}

/// `session` joins the watchers of `uri`; the entry is created with counter
/// 0 where there was none.
pub open spec fn registry_subscribe(r: RegistryView, uri: Uri, session: usize) -> RegistryView {
    let e = entry_or_fresh(r, uri);
    r.insert(uri, EntryView { counter: e.counter, sessions: e.sessions.insert(session) })
}

/// `session` leaves the watchers of `uri`. The entry stays, even when nobody
/// is left.
pub open spec fn registry_unsubscribe(r: RegistryView, uri: Uri, session: usize) -> RegistryView {
    if r.contains_key(uri) {
        r.insert(uri, entry_without(r[uri], session))
    } else {
        r
    }
}

/// `session` leaves every entry. With `prune_empty`, entries that nobody
/// watches afterwards are deleted.
pub open spec fn registry_unsubscribe_all(
    r: RegistryView,
    session: usize,
    prune_empty: bool,
) -> RegistryView {
    Map::new(
        |u: Uri| r.contains_key(u) && !(prune_empty && vacant(entry_without(r[u], session))),
        |u: Uri| entry_without(r[u], session),
    )
}

/// True when a log record for `uri` with `counter` changes the registry.
pub open spec fn advances(r: RegistryView, uri: Uri, counter: u64) -> bool {
    r.contains_key(uri) && r[uri].counter != counter
}

/// A log record for `uri` arrives: a watched resource takes the new counter,
/// an unwatched one is ignored.
pub open spec fn registry_ingest(r: RegistryView, uri: Uri, counter: u64) -> RegistryView {
    if advances(r, uri, counter) {
        r.insert(uri, EntryView { counter, sessions: r[uri].sessions })
    } else {
        r
    }
}

/// A delta: resources that changed, each with its new counter, in the order
/// in which they first became pending.
pub type Delta = Seq<(Uri, u64)>;

/// What the broker holds for one client session.
pub struct SessionView {
    /// The session's identifier.
    pub id: usize,
    /// The resources it watches, each with the counter it was last told.
    pub watched: Map<Uri, u64>,
    /// The changes it has not been told yet.
    pub outbox: Delta,
}

/// The resources named in a delta, in order.
pub open spec fn delta_keys(d: Delta) -> Seq<Uri> {
    Seq::new(d.len(), |i: int| d[i].0)
}

/// True when the delta names `uri`.
pub open spec fn delta_has(d: Delta, uri: Uri) -> bool {
    delta_keys(d).contains(uri)
}

/// The counter that the delta gives for `uri`, meaningful when it names it.
pub open spec fn delta_counter(d: Delta, uri: Uri) -> u64 {
    d[delta_keys(d).index_of(uri)].1
}

/// The delta with `counter` for `uri`: a resource that is already named
/// keeps its place and takes the new counter, a new one goes last.
pub open spec fn delta_put(d: Delta, uri: Uri, counter: u64) -> Delta {
    if delta_has(d, uri) {
        d.update(delta_keys(d).index_of(uri), (uri, counter))
    } else {
        d.push((uri, counter))
    }
}

/// The delta without `uri`.
pub open spec fn delta_drop(d: Delta, uri: Uri) -> Delta {
    if delta_has(d, uri) {
        d.remove(delta_keys(d).index_of(uri))
    } else {
        d
    }
}

/// A session that watches nothing.
pub open spec fn fresh_session(id: usize) -> SessionView {
    SessionView { id, watched: Map::empty(), outbox: Seq::empty() }
}

/// The session starts to watch `uri`, or watches it anew, declaring that it
/// knows `known`: that counter goes on record as what the session has.
pub open spec fn session_watch(s: SessionView, uri: Uri, known: u64) -> SessionView {
    SessionView { id: s.id, watched: s.watched.insert(uri, known), outbox: s.outbox }
}

/// A change that is pending for `uri` is dropped; the session goes on
/// watching the resource.
pub open spec fn session_unmark(s: SessionView, uri: Uri) -> SessionView {
    SessionView { id: s.id, watched: s.watched, outbox: delta_drop(s.outbox, uri) }
}

/// The session stops watching `uri`; a change pending for it is dropped.
pub open spec fn session_unwatch(s: SessionView, uri: Uri) -> SessionView {
    SessionView { id: s.id, watched: s.watched.remove(uri), outbox: delta_drop(s.outbox, uri) }
}

/// The session stops watching everything.
pub open spec fn session_unwatch_all(s: SessionView) -> SessionView {
    fresh_session(s.id)
}

/// A change of `uri` to `counter` becomes pending for the session, if it
/// watches the resource. A change that was pending for it is overwritten.
pub open spec fn session_mark(s: SessionView, uri: Uri, counter: u64) -> SessionView {
    if s.watched.contains_key(uri) {
        SessionView { id: s.id, watched: s.watched, outbox: delta_put(s.outbox, uri, counter) }
    } else {
        s
    }
}

/// The record of what a session was told, after it was handed `d`.
pub open spec fn acknowledged(watched: Map<Uri, u64>, d: Delta) -> Map<Uri, u64>
    decreases d.len(),
{
    if d.len() == 0 {
        watched
    } else {
        let w = acknowledged(watched, d.drop_last());
        if w.contains_key(d.last().0) {
            w.insert(d.last().0, d.last().1)
        } else {
            w
        }
    }
}

/// The session after it was handed its pending changes.
pub open spec fn session_take(s: SessionView) -> SessionView {
    SessionView { id: s.id, watched: acknowledged(s.watched, s.outbox), outbox: Seq::empty() }
}

/// One change on the wire: the resource, `'='`, the counter in decimal.
pub open spec fn format_pair(p: (Uri, u64)) -> Seq<u8> {
    p.0 + seq![61u8] + decimal(p.1 as nat)
}

/// A delta on the wire: its changes in order, joined by `','`. The empty
/// delta is the empty string.
pub open spec fn format_delta(d: Delta) -> Seq<u8>
    decreases d.len(),
{
    if d.len() == 0 {
        Seq::empty()
    } else if d.len() == 1 {
        format_pair(d[0])
    } else {
        format_delta(d.drop_last()) + seq![44u8] + format_pair(d.last())
    }
}

/// The broker: the registry, the sessions in the order in which they were
/// opened, and the identifier that the next session will get.
pub struct ServerView {
    pub registry: RegistryView,
    pub sessions: Seq<SessionView>,
    pub next_id: usize,
}

/// A broker without sessions. Identifiers start at 1.
pub open spec fn initial_server() -> ServerView {
    ServerView { registry: Map::empty(), sessions: Seq::empty(), next_id: 1 }
}

/// The identifiers of the open sessions, in the order in which they were
/// opened.
pub open spec fn session_ids(ss: Seq<SessionView>) -> Seq<usize> {
    Seq::new(ss.len(), |i: int| ss[i].id)
}

/// True when a session with this identifier is open.
pub open spec fn is_active(v: ServerView, id: usize) -> bool {
    session_ids(v.sessions).contains(id)
}

/// Position of the session in the table, meaningful when it is open.
pub open spec fn session_index(v: ServerView, id: usize) -> int {
    session_ids(v.sessions).index_of(id)
}

/// The state of an open session.
pub open spec fn session_of(v: ServerView, id: usize) -> SessionView {
    v.sessions[session_index(v, id)]
}

/// The broker with the state of session `id` replaced.
pub open spec fn with_session(v: ServerView, id: usize, s: SessionView) -> ServerView {
    ServerView {
        registry: v.registry,
        sessions: v.sessions.update(session_index(v, id), s),
        next_id: v.next_id,
    }
}

/// True when identifiers are left for another session.
pub open spec fn can_connect(v: ServerView) -> bool {
    v.next_id < usize::MAX
}

/// A client connects: a session is opened under the next identifier, which
/// is never handed out again. Without identifiers left, nothing changes.
pub open spec fn server_connect(v: ServerView) -> ServerView {
    if can_connect(v) {
        ServerView {
            registry: v.registry,
            sessions: v.sessions.push(fresh_session(v.next_id)),
            next_id: (v.next_id + 1) as usize,
        }
    } else {
        v
    }
}

/// A client disconnects: its session leaves every registry entry, entries
/// that nobody watches are deleted, and the session's state is discarded.
pub open spec fn server_disconnect(v: ServerView, id: usize) -> ServerView {
    if is_active(v, id) {
        ServerView {
            registry: registry_unsubscribe_all(v.registry, id, true),
            sessions: v.sessions.remove(session_index(v, id)),
            next_id: v.next_id,
        }
    } else {
        v
    }
}

/// The session after it subscribed to `uri` knowing `known`, where the
/// registry held `registered`: it watches the resource with `known` on
/// record. Where the registry is ahead of the client, the registry's counter
/// is pending at once; where it is not, nothing is pending for the resource,
/// so that the client is never handed a counter that it has already.
pub open spec fn session_subscribe(
    s: SessionView,
    uri: Uri,
    known: u64,
    registered: u64,
) -> SessionView {
    let watching = session_watch(s, uri, known);
    if registered > known {
        session_mark(watching, uri, registered)
    } else {
        session_unmark(watching, uri)
    }
}

/// An open session subscribes to `uri`, declaring that it knows `known`.
pub open spec fn server_subscribe(v: ServerView, id: usize, uri: Uri, known: u64) -> ServerView {
    if is_active(v, id) {
        ServerView {
            registry: registry_subscribe(v.registry, uri, id),
            sessions: v.sessions.update(
                session_index(v, id),
                session_subscribe(
                    session_of(v, id),
                    uri,
                    known,
                    registered_counter(v.registry, uri),
                ),
            ),
            next_id: v.next_id,
        }
    } else {
        v
    }
}

/// An open session unsubscribes from `uri`.
pub open spec fn server_unsubscribe(v: ServerView, id: usize, uri: Uri) -> ServerView {
    if is_active(v, id) {
        ServerView {
            registry: registry_unsubscribe(v.registry, uri, id),
            sessions: v.sessions.update(
                session_index(v, id),
                session_unwatch(session_of(v, id), uri),
            ),
            next_id: v.next_id,
        }
    } else {
        v
    }
}

/// An open session unsubscribes from everything.
pub open spec fn server_unsubscribe_all(v: ServerView, id: usize, prune_empty: bool) -> ServerView {
    if is_active(v, id) {
        ServerView {
            registry: registry_unsubscribe_all(v.registry, id, prune_empty),
            sessions: v.sessions.update(
                session_index(v, id),
                session_unwatch_all(session_of(v, id)),
            ),
            next_id: v.next_id,
        }
    } else {
        v
    }
}

/// The sessions after a change of `uri` to `counter` was marked for those
/// among `watchers`.
pub open spec fn mark_sessions(
    ss: Seq<SessionView>,
    watchers: Set<usize>,
    uri: Uri,
    counter: u64,
) -> Seq<SessionView> {
    Seq::new(
        ss.len(),
        |i: int|
            if watchers.contains(ss[i].id) {
                session_mark(ss[i], uri, counter)
            } else {
                ss[i]
            },
    )
}

/// A log record for `uri` with `counter` is ingested: where it changes the
/// registry, the change becomes pending for every subscribed session.
pub open spec fn server_ingest(v: ServerView, uri: Uri, counter: u64) -> ServerView {
    if advances(v.registry, uri, counter) {
        ServerView {
            registry: registry_ingest(v.registry, uri, counter),
            sessions: mark_sessions(v.sessions, v.registry[uri].sessions, uri, counter),
            next_id: v.next_id,
        }
    } else {
        v
    }
}

/// An open session is handed its pending changes.
pub open spec fn server_take(v: ServerView, id: usize) -> ServerView {
    if is_active(v, id) {
        with_session(v, id, session_take(session_of(v, id)))
    } else {
        v
    }
}

/// The reply that hands an open session its pending changes; empty for a
/// session that is not open.
pub open spec fn pending_reply(v: ServerView, id: usize) -> Seq<u8> {
    if is_active(v, id) {
        format_delta(session_of(v, id).outbox)
    } else {
        Seq::empty()
    }
}

/// Every session is handed its pending changes.
pub open spec fn server_take_all(v: ServerView) -> ServerView {
    ServerView {
        registry: v.registry,
        sessions: Seq::new(v.sessions.len(), |i: int| session_take(v.sessions[i])),
        next_id: v.next_id,
    }
}

/// The replies that hand every session with pending changes its delta: the
/// session's identifier with the reply, in the order of the session table.
pub open spec fn deliveries(ss: Seq<SessionView>) -> Seq<(usize, Seq<u8>)>
    decreases ss.len(),
{
    if ss.len() == 0 {
        Seq::empty()
    } else if ss.last().outbox.len() > 0 {
        deliveries(ss.drop_last()).push((ss.last().id, format_delta(ss.last().outbox)))
    } else {
        deliveries(ss.drop_last())
    }
}

/// What one command of an open session does to the broker.
pub open spec fn apply_command(v: ServerView, id: usize, c: CommandView) -> ServerView {
    match c {
        CommandView::Subscribe { uri, counter } => server_subscribe(v, id, uri, counter),
        CommandView::Unsubscribe { uri } => server_unsubscribe(v, id, uri),
        CommandView::UnsubscribeAll => server_unsubscribe_all(v, id, false),
        _ => v,
    }
}

/// True when the command calls for a reply: a poll, or a subscription to a
/// resource on which the registry is ahead of the client.
pub open spec fn wants_reply(v: ServerView, c: CommandView) -> bool {
    match c {
        CommandView::Subscribe { uri, counter } => registered_counter(v.registry, uri) > counter,
        CommandView::Poll => true,
        _ => false,
    }
}

/// The broker after the commands were applied in order.
pub open spec fn run_commands(v: ServerView, id: usize, cmds: Seq<CommandView>) -> ServerView
    decreases cmds.len(),
{
    if cmds.len() == 0 {
        v
    } else {
        apply_command(run_commands(v, id, cmds.drop_last()), id, cmds.last())
    }
}

/// True when one of the commands, applied in order, calls for a reply.
pub open spec fn reply_wanted(v: ServerView, id: usize, cmds: Seq<CommandView>) -> bool
    decreases cmds.len(),
{
    if cmds.len() == 0 {
        false
    } else {
        reply_wanted(v, id, cmds.drop_last()) || wants_reply(
            run_commands(v, id, cmds.drop_last()),
            cmds.last(),
        )
    }
}

/// The broker after a client message. A message from a session that is not
/// open changes nothing. Where a reply is called for, the session is handed
/// everything that is pending for it.
pub open spec fn server_message(v: ServerView, id: usize, msg: Seq<u8>) -> ServerView {
    if is_active(v, id) {
        let cmds = message_commands(msg);
        let applied = run_commands(v, id, cmds);
        if reply_wanted(v, id, cmds) {
            server_take(applied, id)
        } else {
            applied
        }
    } else {
        v
    }
}

/// The reply to a client message; empty where none is called for.
pub open spec fn message_reply(v: ServerView, id: usize, msg: Seq<u8>) -> Seq<u8> {
    if is_active(v, id) && reply_wanted(v, id, message_commands(msg)) {
        pending_reply(run_commands(v, id, message_commands(msg)), id)
    } else {
        Seq::empty()
    }
}

/// The broker after one log record: a change is ingested, a malformed
/// record changes nothing.
pub open spec fn server_record(v: ServerView, r: RecordView) -> ServerView {
    match r {
        RecordView::Malformed => v,
        RecordView::Change { uri, counter } => server_ingest(v, uri, counter),
    }
}

/// The broker after a batch of log records, taken in order.
pub open spec fn server_records(v: ServerView, rs: Seq<RecordView>) -> ServerView
    decreases rs.len(),
{
    if rs.len() == 0 {
        v
    } else {
        server_record(server_records(v, rs.drop_last()), rs.last())
    }
}

/// The broker after one tail step over a batch of log records: the records
/// are ingested in order, then every session is handed what is pending for
/// it.
pub open spec fn server_tail(v: ServerView, rs: Seq<RecordView>) -> ServerView {
    server_take_all(server_records(v, rs))
}

/// What one tail step over a batch sends: for every session with changes
/// pending after the batch, one reply with all of them.
pub open spec fn tail_deliveries(v: ServerView, rs: Seq<RecordView>) -> Seq<(usize, Seq<u8>)> {
    deliveries(server_records(v, rs).sessions)
}

} // verus!
