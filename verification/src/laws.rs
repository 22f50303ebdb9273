//! What holds of the broker in every state that it can reach, proved of the
//! model that the executable functions are verified against.

use crate::model::{
    acknowledged, advances, apply_command, delta_counter, delta_drop, delta_has, delta_keys,
    delta_put, entry_without, fresh_session, initial_server, is_active, mark_sessions,
    registered_counter, registry_subscribe, registry_unsubscribe_all, reply_wanted,
    run_commands, server_connect, server_disconnect,
    server_ingest, server_message, server_record, server_records, server_subscribe, server_take,
    server_take_all, server_unsubscribe, server_unsubscribe_all, session_ids, session_index,
    session_mark, session_of, session_subscribe, session_take, session_unmark, session_unwatch,
    session_unwatch_all, session_watch, subscribed, vacant, Delta, RegistryView, ServerView,
    SessionView, Uri,
};
use crate::protocol::{message_commands, CommandView};
use crate::record::RecordView;
use vstd::prelude::*;

verus! {

/// A delta names each resource once.
pub open spec fn delta_inv(d: Delta) -> bool {
    delta_keys(d).no_duplicates()
}

/// A session's pending changes name each resource once, and only resources
/// that the session watches.
pub open spec fn session_inv(s: SessionView) -> bool {
    &&& delta_inv(s.outbox)
    &&& forall|u: Uri| #[trigger] delta_has(s.outbox, u) ==> s.watched.contains_key(u)
}

/// No two open sessions share an identifier, every identifier in use was
/// handed out, and every session is well formed.
pub open spec fn server_inv(v: ServerView) -> bool {
    &&& v.next_id >= 1
    &&& session_ids(v.sessions).no_duplicates()
    &&& forall|i: int|
        0 <= i < v.sessions.len() ==> (#[trigger] v.sessions[i]).id < v.next_id && session_inv(
            v.sessions[i],
        )
}

/// The registry and the sessions agree: a session is among the watchers of
/// a resource exactly when it is open and watches the resource.
pub open spec fn consistent(v: ServerView) -> bool {
    forall|u: Uri, id: usize| #[trigger]
        subscribed(v.registry, u, id) <==> (is_active(v, id) && session_of(
            v,
            id,
        ).watched.contains_key(u))
}

/// An open session is found at its index, and nowhere else.
pub proof fn lemma_session_at(v: ServerView, i: int)
    requires
        server_inv(v),
        0 <= i < v.sessions.len(),
    ensures
        is_active(v, v.sessions[i].id),
        session_index(v, v.sessions[i].id) == i,
        session_of(v, v.sessions[i].id) == v.sessions[i],
{
    let ids = session_ids(v.sessions);
    assert(ids[i] == v.sessions[i].id);
    assert(ids.contains(v.sessions[i].id));
    let j = ids.index_of(v.sessions[i].id);
    assert(ids[j] == ids[i]);
}

/// The index of an open session lies in the table and holds its state.
pub proof fn lemma_active_index(v: ServerView, id: usize)
    requires
        server_inv(v),
        is_active(v, id),
    ensures
        0 <= session_index(v, id) < v.sessions.len(),
        v.sessions[session_index(v, id)].id == id,
{
    let ids = session_ids(v.sessions);
    let j = ids.index_of(id);
    assert(ids[j] == id);
}

/// Replacing the state of an open session by one with the same identifier
/// changes that session and no other.
pub proof fn lemma_replace_session(v: ServerView, w: ServerView, id: usize, s: SessionView)
    requires
        server_inv(v),
        is_active(v, id),
        s.id == id,
        session_inv(s),
        w.sessions == v.sessions.update(session_index(v, id), s),
        w.next_id == v.next_id,
    ensures
        server_inv(w),
        session_ids(w.sessions) == session_ids(v.sessions),
        forall|other: usize| is_active(w, other) == is_active(v, other),
        session_of(w, id) == s,
        forall|other: usize|
            other != id && is_active(v, other) ==> #[trigger] session_of(w, other) == session_of(
                v,
                other,
            ),
{
    lemma_active_index(v, id);
    let i = session_index(v, id);
    assert(session_ids(w.sessions) =~= session_ids(v.sessions));
    assert forall|other: usize| other != id && is_active(v, other) implies #[trigger] session_of(
        w,
        other,
    ) == session_of(v, other) by {
        lemma_active_index(v, other);
    }
    assert forall|j: int| 0 <= j < w.sessions.len() implies (#[trigger] w.sessions[j]).id
        < w.next_id && session_inv(w.sessions[j]) by {
        if j != i {
            assert(w.sessions[j] == v.sessions[j]);
        } else {
            assert(v.sessions[i].id < v.next_id);
        }
    }
}

/// In a delta that names each resource once, a resource is found at its own
/// position.
pub proof fn lemma_delta_at(d: Delta, i: int)
    requires
        delta_inv(d),
        0 <= i < d.len(),
    ensures
        delta_has(d, d[i].0),
        delta_keys(d).index_of(d[i].0) == i,
        delta_counter(d, d[i].0) == d[i].1,
{
    let keys = delta_keys(d);
    assert(keys[i] == d[i].0);
    assert(keys.contains(d[i].0));
    let j = keys.index_of(d[i].0);
    assert(keys[j] == keys[i]);
}

/// The position of a resource that a delta names lies in the delta.
pub proof fn lemma_delta_index(d: Delta, u: Uri)
    requires
        delta_has(d, u),
    ensures
        0 <= delta_keys(d).index_of(u) < d.len(),
        d[delta_keys(d).index_of(u)].0 == u,
{
    let keys = delta_keys(d);
    let j = keys.index_of(u);
    assert(keys[j] == u);
}

/// What `delta_put` does: the resource is named with the new counter, and
/// every other resource is as before.
pub proof fn lemma_delta_put(d: Delta, u: Uri, c: u64)
    requires
        delta_inv(d),
    ensures
        delta_inv(delta_put(d, u, c)),
        delta_has(delta_put(d, u, c), u),
        delta_counter(delta_put(d, u, c), u) == c,
        forall|o: Uri| o != u ==> #[trigger] delta_has(delta_put(d, u, c), o) == delta_has(d, o),
        forall|o: Uri|
            o != u && delta_has(d, o) ==> #[trigger] delta_counter(delta_put(d, u, c), o)
                == delta_counter(d, o),
{
    let e = delta_put(d, u, c);
    let keys = delta_keys(d);
    let ekeys = delta_keys(e);
    if delta_has(d, u) {
        lemma_delta_index(d, u);
        let i = keys.index_of(u);
        assert(ekeys =~= keys);
        lemma_delta_at(e, i);
        assert forall|o: Uri| o != u && delta_has(d, o) implies #[trigger] delta_counter(e, o)
            == delta_counter(d, o) by {
            lemma_delta_index(d, o);
        }
    } else {
        assert(ekeys =~= keys.push(u));
        assert forall|a: int, b: int|
            0 <= a < ekeys.len() && 0 <= b < ekeys.len() && a != b implies ekeys[a] != ekeys[b] by {
            if a < keys.len() {
                assert(keys.contains(ekeys[a]));
            }
            if b < keys.len() {
                assert(keys.contains(ekeys[b]));
            }
        }
        lemma_delta_at(e, d.len() as int);
        assert forall|o: Uri| o != u implies #[trigger] delta_has(e, o) == delta_has(d, o) by {
            if delta_has(e, o) {
                lemma_delta_index(e, o);
                let j = ekeys.index_of(o);
                assert(keys[j] == o);
            }
            if delta_has(d, o) {
                lemma_delta_index(d, o);
                let j = keys.index_of(o);
                assert(ekeys[j] == o);
            }
        }
        assert forall|o: Uri| o != u && delta_has(d, o) implies #[trigger] delta_counter(e, o)
            == delta_counter(d, o) by {
            lemma_delta_index(d, o);
            let j = keys.index_of(o);
            lemma_delta_at(d, j);
            lemma_delta_at(e, j);
        }
    }
}

/// What `delta_drop` does: the resource is no longer named, and every other
/// resource is as before.
pub proof fn lemma_delta_drop(d: Delta, u: Uri)
    requires
        delta_inv(d),
    ensures
        delta_inv(delta_drop(d, u)),
        !delta_has(delta_drop(d, u), u),
        forall|o: Uri| o != u ==> #[trigger] delta_has(delta_drop(d, u), o) == delta_has(d, o),
        forall|o: Uri|
            o != u && delta_has(d, o) ==> #[trigger] delta_counter(delta_drop(d, u), o)
                == delta_counter(d, o),
{
    let e = delta_drop(d, u);
    let keys = delta_keys(d);
    let ekeys = delta_keys(e);
    if delta_has(d, u) {
        lemma_delta_index(d, u);
        let i = keys.index_of(u);
        assert(ekeys =~= keys.remove(i));
        assert forall|a: int, b: int|
            0 <= a < ekeys.len() && 0 <= b < ekeys.len() && a != b implies ekeys[a] != ekeys[b] by {
            let a2 = if a < i { a } else { a + 1 };
            let b2 = if b < i { b } else { b + 1 };
            assert(ekeys[a] == keys[a2]);
            assert(ekeys[b] == keys[b2]);
        }
        assert forall|o: Uri| delta_has(e, o) <==> (delta_has(d, o) && o != u) by {
            if delta_has(e, o) {
                lemma_delta_index(e, o);
                let j = ekeys.index_of(o);
                let j2 = if j < i { j } else { j + 1 };
                assert(keys[j2] == o);
                lemma_delta_at(d, j2);
                lemma_delta_at(d, i);
            }
            if delta_has(d, o) && o != u {
                lemma_delta_index(d, o);
                let j = keys.index_of(o);
                let j2 = if j < i { j } else { j - 1 };
                assert(ekeys[j2] == o);
            }
        }
        assert forall|o: Uri| o != u && delta_has(d, o) implies #[trigger] delta_counter(e, o)
            == delta_counter(d, o) by {
            lemma_delta_index(d, o);
            let j = keys.index_of(o);
            let j2 = if j < i { j } else { j - 1 };
            lemma_delta_at(d, j);
            assert(e[j2] == d[j]);
            lemma_delta_at(e, j2);
        }
    }
}

/// Being handed a delta leaves the set of watched resources as it was.
pub proof fn lemma_acknowledged_dom(watched: Map<Uri, u64>, d: Delta)
    ensures
        forall|u: Uri| #[trigger] acknowledged(watched, d).contains_key(u) == watched.contains_key(u),
    decreases d.len(),
{
    if d.len() > 0 {
        lemma_acknowledged_dom(watched, d.drop_last());
        let w = acknowledged(watched, d.drop_last());
        assert forall|u: Uri| #[trigger]
            acknowledged(watched, d).contains_key(u) == watched.contains_key(u) by {
            assert(w.contains_key(u) == watched.contains_key(u));
            assert(w.contains_key(d.last().0) == watched.contains_key(d.last().0));
        }
    }
}

/// Every operation on a session keeps it well formed.
pub proof fn lemma_session_ops(s: SessionView, u: Uri, c: u64, known: u64, registered: u64)
    requires
        session_inv(s),
    ensures
        session_inv(fresh_session(s.id)),
        session_inv(session_watch(s, u, known)),
        session_inv(session_unwatch(s, u)),
        session_inv(session_unwatch_all(s)),
        session_inv(session_mark(s, u, c)),
        session_inv(session_unmark(s, u)),
        session_inv(session_subscribe(s, u, known, registered)),
        session_inv(session_take(s)),
{
    assert(delta_keys(Seq::<(Uri, u64)>::empty()) =~= Seq::<Uri>::empty());
    lemma_delta_put(s.outbox, u, c);
    lemma_delta_drop(s.outbox, u);
    let w = session_watch(s, u, known);
    assert(session_inv(w));
    lemma_delta_put(w.outbox, u, registered);
    assert(session_inv(session_mark(w, u, registered))) by {
        let m = session_mark(w, u, registered);
        assert forall|o: Uri|
            #[trigger] delta_has(m.outbox, o) implies m.watched.contains_key(o) by {
            if o != u {
                assert(delta_has(w.outbox, o));
            }
        }
    }
    assert(session_inv(session_mark(s, u, c))) by {
        let m = session_mark(s, u, c);
        assert forall|o: Uri|
            #[trigger] delta_has(m.outbox, o) implies m.watched.contains_key(o) by {
            if o != u {
                assert(delta_has(s.outbox, o));
            }
        }
    }
    assert(session_inv(session_unwatch(s, u))) by {
        let m = session_unwatch(s, u);
        assert forall|o: Uri|
            #[trigger] delta_has(m.outbox, o) implies m.watched.contains_key(o) by {
            if o != u {
                assert(delta_has(s.outbox, o));
            }
        }
    }
}

/// A broker without sessions is well formed and consistent.
pub proof fn law_initial()
    ensures
        server_inv(initial_server()),
        consistent(initial_server()),
{
    let v = initial_server();
    assert(session_ids(v.sessions) =~= Seq::<usize>::empty());
}

/// Opening a session keeps the broker well formed and consistent, and the
/// new session's identifier was not in use.
pub proof fn law_connect(v: ServerView)
    requires
        server_inv(v),
        consistent(v),
    ensures
        server_inv(server_connect(v)),
        consistent(server_connect(v)),
        !is_active(v, v.next_id),
        v.next_id < usize::MAX ==> is_active(server_connect(v), v.next_id),
{
    let w = server_connect(v);
    let ids = session_ids(v.sessions);
    if ids.contains(v.next_id) {
        let j = ids.index_of(v.next_id);
        assert(v.sessions[j].id == v.next_id);
    }
    if v.next_id < usize::MAX {
        let wids = session_ids(w.sessions);
        let n = v.sessions.len() as int;
        assert(wids =~= ids.push(v.next_id));
        assert(wids[n] == v.next_id);
        assert forall|a: int, b: int|
            0 <= a < wids.len() && 0 <= b < wids.len() && a != b implies wids[a] != wids[b] by {
            if a < n {
                assert(v.sessions[a].id < v.next_id);
            }
            if b < n {
                assert(v.sessions[b].id < v.next_id);
            }
        }
        assert(delta_keys(Seq::<(Uri, u64)>::empty()) =~= Seq::<Uri>::empty());
        assert forall|i: int| 0 <= i < w.sessions.len() implies (#[trigger] w.sessions[i]).id
            < w.next_id && session_inv(w.sessions[i]) by {
            if i < n {
                assert(w.sessions[i] == v.sessions[i]);
            }
        }
        assert(server_inv(w));
        assert forall|u: Uri, id: usize| #[trigger]
            subscribed(w.registry, u, id) <==> (is_active(w, id) && session_of(
                w,
                id,
            ).watched.contains_key(u)) by {
            if id == v.next_id {
                lemma_session_at(w, n);
            } else {
                if is_active(v, id) {
                    lemma_active_index(v, id);
                    let j = session_index(v, id);
                    assert(w.sessions[j] == v.sessions[j]);
                    lemma_session_at(w, j);
                }
                if is_active(w, id) {
                    lemma_active_index(w, id);
                    let j = session_index(w, id);
                    assert(j < n);
                    assert(w.sessions[j] == v.sessions[j]);
                    lemma_session_at(v, j);
                }
            }
        }
    }
}

/// Closing a session keeps the broker well formed and consistent; the
/// session is no longer open, and the others are as they were.
pub proof fn law_disconnect(v: ServerView, id: usize)
    requires
        server_inv(v),
        consistent(v),
    ensures
        server_inv(server_disconnect(v, id)),
        consistent(server_disconnect(v, id)),
        !is_active(server_disconnect(v, id), id),
        forall|other: usize|
            other != id ==> is_active(server_disconnect(v, id), other) == is_active(v, other),
        forall|other: usize|
            other != id && is_active(v, other) ==> #[trigger] session_of(
                server_disconnect(v, id),
                other,
            ) == session_of(v, other),
{
    let w = server_disconnect(v, id);
    if is_active(v, id) {
        lemma_active_index(v, id);
        let i = session_index(v, id);
        let ids = session_ids(v.sessions);
        let wids = session_ids(w.sessions);
        assert(wids =~= ids.remove(i));
        assert forall|a: int, b: int|
            0 <= a < wids.len() && 0 <= b < wids.len() && a != b implies wids[a] != wids[b] by {
            let a2 = if a < i { a } else { a + 1 };
            let b2 = if b < i { b } else { b + 1 };
            assert(wids[a] == ids[a2]);
            assert(wids[b] == ids[b2]);
        }
        assert forall|j: int| 0 <= j < w.sessions.len() implies (#[trigger] w.sessions[j]).id
            < w.next_id && session_inv(w.sessions[j]) by {
            let j2 = if j < i { j } else { j + 1 };
            assert(w.sessions[j] == v.sessions[j2]);
        }
        assert(server_inv(w));
        assert forall|other: usize| is_active(w, other) <==> (is_active(v, other) && other
            != id) by {
            if is_active(w, other) {
                lemma_active_index(w, other);
                let j = session_index(w, other);
                let j2 = if j < i { j } else { j + 1 };
                assert(w.sessions[j] == v.sessions[j2]);
                lemma_session_at(v, j2);
                lemma_session_at(v, i);
            }
            if is_active(v, other) && other != id {
                lemma_active_index(v, other);
                let j = session_index(v, other);
                let j2 = if j < i { j } else { j - 1 };
                assert(w.sessions[j2] == v.sessions[j]);
                lemma_session_at(w, j2);
            }
        }
        assert forall|other: usize| other != id && is_active(v, other) implies #[trigger] session_of(
            w,
            other,
        ) == session_of(v, other) by {
            lemma_active_index(v, other);
            let j = session_index(v, other);
            let j2 = if j < i { j } else { j - 1 };
            assert(w.sessions[j2] == v.sessions[j]);
            lemma_session_at(w, j2);
        }
        assert forall|u: Uri, x: usize| #[trigger]
            subscribed(w.registry, u, x) <==> (is_active(w, x) && session_of(
                w,
                x,
            ).watched.contains_key(u)) by {
            lemma_unsubscribe_all(v.registry, id, true, u, x);
            assert(subscribed(v.registry, u, x) <==> (is_active(v, x) && session_of(
                v,
                x,
            ).watched.contains_key(u)));
        }
    }
}

/// After `session` has left every entry, another session is subscribed to
/// what it was subscribed to before, and `session` to nothing.
pub proof fn lemma_unsubscribe_all(r: RegistryView, session: usize, prune: bool, u: Uri, x: usize)
    ensures
        subscribed(registry_unsubscribe_all(r, session, prune), u, x) <==> (subscribed(r, u, x)
            && x != session),
{
    let w = registry_unsubscribe_all(r, session, prune);
    if subscribed(r, u, x) && x != session {
        assert(entry_without(r[u], session).sessions.contains(x));
        assert(!vacant(entry_without(r[u], session)));
    }
}

/// Subscribing keeps the broker well formed and consistent.
pub proof fn law_subscribe(v: ServerView, id: usize, uri: Uri, known: u64)
    requires
        server_inv(v),
        consistent(v),
    ensures
        server_inv(server_subscribe(v, id, uri, known)),
        consistent(server_subscribe(v, id, uri, known)),
{
    let w = server_subscribe(v, id, uri, known);
    if is_active(v, id) {
        lemma_active_index(v, id);
        let s = session_of(v, id);
        let reg = registered_counter(v.registry, uri);
        let t = session_subscribe(s, uri, known, reg);
        lemma_session_ops(s, uri, 0, known, reg);
        lemma_replace_session(v, w, id, t);
        assert forall|u: Uri, x: usize| #[trigger]
            subscribed(w.registry, u, x) <==> (is_active(w, x) && session_of(
                w,
                x,
            ).watched.contains_key(u)) by {
            assert(subscribed(v.registry, u, x) <==> (is_active(v, x) && session_of(
                v,
                x,
            ).watched.contains_key(u)));
            if x != id && is_active(v, x) {
                assert(session_of(w, x) == session_of(v, x));
            }
        }
    }
}

/// Unsubscribing keeps the broker well formed and consistent.
pub proof fn law_unsubscribe(v: ServerView, id: usize, uri: Uri)
    requires
        server_inv(v),
        consistent(v),
    ensures
        server_inv(server_unsubscribe(v, id, uri)),
        consistent(server_unsubscribe(v, id, uri)),
{
    let w = server_unsubscribe(v, id, uri);
    if is_active(v, id) {
        lemma_active_index(v, id);
        let s = session_of(v, id);
        let t = session_unwatch(s, uri);
        lemma_session_ops(s, uri, 0, 0, 0);
        lemma_replace_session(v, w, id, t);
        assert forall|u: Uri, x: usize| #[trigger]
            subscribed(w.registry, u, x) <==> (is_active(w, x) && session_of(
                w,
                x,
            ).watched.contains_key(u)) by {
            assert(subscribed(v.registry, u, x) <==> (is_active(v, x) && session_of(
                v,
                x,
            ).watched.contains_key(u)));
            if x != id && is_active(v, x) {
                assert(session_of(w, x) == session_of(v, x));
            }
        }
    }
}

/// Unsubscribing from everything keeps the broker well formed and
/// consistent.
pub proof fn law_unsubscribe_all(v: ServerView, id: usize, prune: bool)
    requires
        server_inv(v),
        consistent(v),
    ensures
        server_inv(server_unsubscribe_all(v, id, prune)),
        consistent(server_unsubscribe_all(v, id, prune)),
{
    let w = server_unsubscribe_all(v, id, prune);
    if is_active(v, id) {
        lemma_active_index(v, id);
        let s = session_of(v, id);
        let t = session_unwatch_all(s);
        lemma_session_ops(s, Seq::empty(), 0, 0, 0);
        lemma_replace_session(v, w, id, t);
        assert forall|u: Uri, x: usize| #[trigger]
            subscribed(w.registry, u, x) <==> (is_active(w, x) && session_of(
                w,
                x,
            ).watched.contains_key(u)) by {
            lemma_unsubscribe_all(v.registry, id, prune, u, x);
            assert(subscribed(v.registry, u, x) <==> (is_active(v, x) && session_of(
                v,
                x,
            ).watched.contains_key(u)));
            if x != id && is_active(v, x) {
                assert(session_of(w, x) == session_of(v, x));
            }
        }
    }
}

/// Marking a change for some sessions keeps every session's identifier and
/// the resources that it watches.
pub proof fn lemma_mark_sessions(v: ServerView, watchers: Set<usize>, uri: Uri, c: u64)
    requires
        server_inv(v),
    ensures
        ({
            let w = ServerView {
                registry: v.registry,
                sessions: mark_sessions(v.sessions, watchers, uri, c),
                next_id: v.next_id,
            };
            &&& server_inv(w)
            &&& session_ids(w.sessions) == session_ids(v.sessions)
            &&& forall|x: usize| is_active(w, x) == is_active(v, x)
            &&& forall|x: usize|
                is_active(v, x) ==> #[trigger] session_of(w, x) == (if watchers.contains(x) {
                    session_mark(session_of(v, x), uri, c)
                } else {
                    session_of(v, x)
                })
        }),
{
    let w = ServerView {
        registry: v.registry,
        sessions: mark_sessions(v.sessions, watchers, uri, c),
        next_id: v.next_id,
    };
    assert(session_ids(w.sessions) =~= session_ids(v.sessions));
    assert forall|i: int| 0 <= i < w.sessions.len() implies (#[trigger] w.sessions[i]).id
        < w.next_id && session_inv(w.sessions[i]) by {
        assert(v.sessions[i].id < v.next_id);
        lemma_session_ops(v.sessions[i], uri, c, 0, 0);
    }
    assert forall|x: usize| is_active(v, x) implies #[trigger] session_of(w, x) == (
    if watchers.contains(x) {
        session_mark(session_of(v, x), uri, c)
    } else {
        session_of(v, x)
    }) by {
        lemma_active_index(v, x);
    }
}

/// Ingesting a record keeps the broker well formed and consistent.
pub proof fn law_ingest(v: ServerView, uri: Uri, c: u64)
    requires
        server_inv(v),
        consistent(v),
    ensures
        server_inv(server_ingest(v, uri, c)),
        consistent(server_ingest(v, uri, c)),
{
    let w = server_ingest(v, uri, c);
    if advances(v.registry, uri, c) {
        let watchers = v.registry[uri].sessions;
        lemma_mark_sessions(v, watchers, uri, c);
        let mid = ServerView {
            registry: v.registry,
            sessions: mark_sessions(v.sessions, watchers, uri, c),
            next_id: v.next_id,
        };
        assert(session_ids(w.sessions) == session_ids(mid.sessions));
        assert forall|u: Uri, x: usize| #[trigger]
            subscribed(w.registry, u, x) <==> (is_active(w, x) && session_of(
                w,
                x,
            ).watched.contains_key(u)) by {
            assert(subscribed(v.registry, u, x) <==> (is_active(v, x) && session_of(
                v,
                x,
            ).watched.contains_key(u)));
            assert(is_active(w, x) == is_active(mid, x));
            if is_active(v, x) {
                assert(session_of(w, x) == session_of(mid, x));
            }
        }
    }
}

/// Handing a session its pending changes keeps the broker well formed and
/// consistent.
pub proof fn law_take(v: ServerView, id: usize)
    requires
        server_inv(v),
        consistent(v),
    ensures
        server_inv(server_take(v, id)),
        consistent(server_take(v, id)),
{
    let w = server_take(v, id);
    if is_active(v, id) {
        lemma_active_index(v, id);
        let s = session_of(v, id);
        let t = session_take(s);
        lemma_session_ops(s, Seq::empty(), 0, 0, 0);
        lemma_acknowledged_dom(s.watched, s.outbox);
        lemma_replace_session(v, w, id, t);
        assert forall|u: Uri, x: usize| #[trigger]
            subscribed(w.registry, u, x) <==> (is_active(w, x) && session_of(
                w,
                x,
            ).watched.contains_key(u)) by {
            assert(subscribed(v.registry, u, x) <==> (is_active(v, x) && session_of(
                v,
                x,
            ).watched.contains_key(u)));
            if x != id && is_active(v, x) {
                assert(session_of(w, x) == session_of(v, x));
            }
        }
    }
}

/// Handing every session its pending changes keeps the broker well formed
/// and consistent; nothing is pending afterwards.
pub proof fn law_take_all(v: ServerView)
    requires
        server_inv(v),
        consistent(v),
    ensures
        server_inv(server_take_all(v)),
        consistent(server_take_all(v)),
        forall|x: usize| is_active(server_take_all(v), x) == is_active(v, x),
        forall|x: usize|
            is_active(v, x) ==> #[trigger] session_of(server_take_all(v), x) == session_take(
                session_of(v, x),
            ),
{
    let w = server_take_all(v);
    assert(session_ids(w.sessions) =~= session_ids(v.sessions));
    assert forall|i: int| 0 <= i < w.sessions.len() implies (#[trigger] w.sessions[i]).id
        < w.next_id && session_inv(w.sessions[i]) by {
        assert(v.sessions[i].id < v.next_id);
        lemma_session_ops(v.sessions[i], Seq::empty(), 0, 0, 0);
    }
    assert forall|x: usize| is_active(v, x) implies #[trigger] session_of(w, x) == session_take(
        session_of(v, x),
    ) by {
        lemma_active_index(v, x);
    }
    assert forall|u: Uri, x: usize| #[trigger]
        subscribed(w.registry, u, x) <==> (is_active(w, x) && session_of(
            w,
            x,
        ).watched.contains_key(u)) by {
        assert(subscribed(v.registry, u, x) <==> (is_active(v, x) && session_of(
            v,
            x,
        ).watched.contains_key(u)));
        if is_active(v, x) {
            lemma_acknowledged_dom(session_of(v, x).watched, session_of(v, x).outbox);
        }
    }
}

/// What can happen to the broker.
pub enum Event {
    /// A client connects.
    Connect,
    /// The session `id` disconnects.
    Disconnect { id: usize },
    /// The session `id` sends `msg`.
    Message { id: usize, msg: Seq<u8> },
    /// The tail step reads `record` from the log.
    Record { record: RecordView },
    /// Every session is handed what is pending for it.
    Flush,
    /// The session `id` is handed what is pending for it.
    Take { id: usize },
    /// One command is applied on behalf of the session `id`, without a
    /// reply.
    Apply { id: usize, command: CommandView },
    /// The session `id` unsubscribes from everything; with `prune`, entries
    /// that nobody watches are deleted.
    UnsubscribeAll { id: usize, prune: bool },
}

/// The broker after one event.
pub open spec fn step(v: ServerView, e: Event) -> ServerView {
    match e {
        Event::Connect => server_connect(v),
        Event::Disconnect { id } => server_disconnect(v, id),
        Event::Message { id, msg } => server_message(v, id, msg),
        Event::Record { record } => server_record(v, record),
        Event::Flush => server_take_all(v),
        Event::Take { id } => server_take(v, id),
        Event::Apply { id, command } => apply_command(v, id, command),
        Event::UnsubscribeAll { id, prune } => server_unsubscribe_all(v, id, prune),
    }
}

/// The broker after a history of events.
pub open spec fn run(v: ServerView, es: Seq<Event>) -> ServerView
    decreases es.len(),
{
    if es.len() == 0 {
        v
    } else {
        step(run(v, es.drop_last()), es.last())
    }
}

/// Commands keep the broker well formed and consistent, and open no
/// session and close none.
pub proof fn law_commands(v: ServerView, id: usize, cmds: Seq<CommandView>)
    requires
        server_inv(v),
        consistent(v),
    ensures
        server_inv(run_commands(v, id, cmds)),
        consistent(run_commands(v, id, cmds)),
        session_ids(run_commands(v, id, cmds).sessions) == session_ids(v.sessions),
        run_commands(v, id, cmds).next_id == v.next_id,
    decreases cmds.len(),
{
    if cmds.len() > 0 {
        law_commands(v, id, cmds.drop_last());
        let m = run_commands(v, id, cmds.drop_last());
        lemma_command(m, id, cmds.last());
    }
}

/// One command keeps the broker well formed and consistent, and opens no
/// session and closes none.
pub proof fn lemma_command(v: ServerView, id: usize, c: CommandView)
    requires
        server_inv(v),
        consistent(v),
    ensures
        server_inv(apply_command(v, id, c)),
        consistent(apply_command(v, id, c)),
        session_ids(apply_command(v, id, c).sessions) == session_ids(v.sessions),
        apply_command(v, id, c).next_id == v.next_id,
{
    let w = apply_command(v, id, c);
    if is_active(v, id) {
        lemma_active_index(v, id);
    }
    match c {
        CommandView::Subscribe { uri, counter } => {
            law_subscribe(v, id, uri, counter);
        },
        CommandView::Unsubscribe { uri } => {
            law_unsubscribe(v, id, uri);
        },
        CommandView::UnsubscribeAll => {
            law_unsubscribe_all(v, id, false);
        },
        _ => {},
    }
    assert(session_ids(w.sessions) =~= session_ids(v.sessions));
}

/// Every event keeps the broker well formed and consistent.
pub proof fn law_step(v: ServerView, e: Event)
    requires
        server_inv(v),
        consistent(v),
    ensures
        server_inv(step(v, e)),
        consistent(step(v, e)),
{
    match e {
        Event::Connect => {
            law_connect(v);
        },
        Event::Disconnect { id } => {
            law_disconnect(v, id);
        },
        Event::Message { id, msg } => {
            let cmds = message_commands(msg);
            law_commands(v, id, cmds);
            law_take(run_commands(v, id, cmds), id);
        },
        Event::Record { record } => {
            match record {
                RecordView::Malformed => {},
                RecordView::Change { uri, counter } => {
                    law_ingest(v, uri, counter);
                },
            }
        },
        Event::Flush => {
            law_take_all(v);
        },
        Event::Take { id } => {
            law_take(v, id);
        },
        Event::Apply { id, command } => {
            lemma_command(v, id, command);
        },
        Event::UnsubscribeAll { id, prune } => {
            law_unsubscribe_all(v, id, prune);
        },
    }
}

/// In every state that the broker can reach from its start, it is well
/// formed, and the registry and the sessions agree on who watches what.
pub proof fn law_reachable(es: Seq<Event>)
    ensures
        server_inv(run(initial_server(), es)),
        consistent(run(initial_server(), es)),
    decreases es.len(),
{
    if es.len() == 0 {
        law_initial();
    } else {
        law_reachable(es.drop_last());
        law_step(run(initial_server(), es.drop_last()), es.last());
    }
}

/// In every state that the broker can reach, a registry entry lists only
/// sessions that are open and watch the resource.
pub proof fn law_no_dangling_entries(es: Seq<Event>, u: Uri, id: usize)
    requires
        subscribed(run(initial_server(), es).registry, u, id),
    ensures
        is_active(run(initial_server(), es), id),
        session_of(run(initial_server(), es), id).watched.contains_key(u),
{
    law_reachable(es);
}

/// The counter that is pending for session `s` on resource `u`, if one is.
pub open spec fn pending_for(v: ServerView, s: usize, u: Uri) -> Option<u64> {
    if is_active(v, s) && delta_has(session_of(v, s).outbox, u) {
        Some(delta_counter(session_of(v, s).outbox, u))
    } else {
        None
    }
}

/// The counter of resource `u` that event `e` delivers to session `s`, if it
/// delivers one: a flush hands out what is pending, and so do a take for `s`
/// and a message of `s` that calls for a reply.
pub open spec fn told(v: ServerView, e: Event, s: usize, u: Uri) -> Option<u64> {
    match e {
        Event::Message { id, msg } => {
            let cmds = message_commands(msg);
            if id == s && is_active(v, s) && reply_wanted(v, s, cmds) {
                pending_for(run_commands(v, s, cmds), s, u)
            } else {
                None
            }
        },
        Event::Flush => pending_for(v, s, u),
        Event::Take { id } => if id == s {
            pending_for(v, s, u)
        } else {
            None
        },
        _ => None,
    }
}

/// The counters of resource `u` that were delivered to session `s` over a
/// history, in order.
pub open spec fn told_along(v: ServerView, es: Seq<Event>, s: usize, u: Uri) -> Seq<u64>
    decreases es.len(),
{
    if es.len() == 0 {
        Seq::empty()
    } else {
        let before = told_along(v, es.drop_last(), s, u);
        match told(run(v, es.drop_last()), es.last(), s, u) {
            Some(c) => before.push(c),
            None => before,
        }
    }
}

/// The counter that event `e` reads from the log for resource `u`, if it
/// reads one.
pub open spec fn ingested(e: Event, u: Uri) -> Option<u64> {
    match e {
        Event::Record { record: RecordView::Change { uri, counter } } => if uri == u {
            Some(counter)
        } else {
            None
        },
        _ => None,
    }
}

/// The counter that the log gave last for resource `u`; 0 before it gave
/// any.
pub open spec fn high_water(es: Seq<Event>, u: Uri) -> u64
    decreases es.len(),
{
    if es.len() == 0 {
        0
    } else {
        match ingested(es.last(), u) {
            Some(c) => c,
            None => high_water(es.drop_last(), u),
        }
    }
}

/// True when the counters that the log gives for resource `u` never go
/// down over the history.
pub open spec fn log_monotone(es: Seq<Event>, u: Uri) -> bool
    decreases es.len(),
{
    if es.len() == 0 {
        true
    } else {
        &&& log_monotone(es.drop_last(), u)
        &&& match ingested(es.last(), u) {
            Some(c) => high_water(es.drop_last(), u) <= c,
            None => true,
        }
    }
}

/// True when no element is smaller than one before it.
pub open spec fn non_decreasing(t: Seq<u64>) -> bool {
    forall|i: int, j: int| 0 <= i <= j < t.len() ==> t[i] <= t[j]
}

/// The last element; 0 for the empty sequence.
pub open spec fn last_told(t: Seq<u64>) -> u64 {
    if t.len() > 0 {
        t.last()
    } else {
        0
    }
}

/// The registry's counter for `u` is 0 or `hi`, and what is pending for `s`
/// on `u` lies between `lo` and `hi`.
pub open spec fn bounded(v: ServerView, s: usize, u: Uri, lo: u64, hi: u64) -> bool {
    &&& lo <= hi
    &&& (v.registry.contains_key(u) ==> v.registry[u].counter == 0 || v.registry[u].counter == hi)
    &&& (pending_for(v, s, u) matches Some(p) ==> lo <= p <= hi)
}

proof fn lemma_bounded_command(
    v: ServerView,
    id: usize,
    c: CommandView,
    s: usize,
    u: Uri,
    lo: u64,
    hi: u64,
)
    requires
        server_inv(v),
        consistent(v),
        bounded(v, s, u, lo, hi),
    ensures
        bounded(apply_command(v, id, c), s, u, lo, hi),
{
    let w = apply_command(v, id, c);
    if is_active(v, id) {
        lemma_active_index(v, id);
        let sess = session_of(v, id);
        match c {
            CommandView::Subscribe { uri, counter } => {
                let reg = registered_counter(v.registry, uri);
                let t = session_subscribe(sess, uri, counter, reg);
                lemma_session_ops(sess, uri, 0, counter, reg);
                lemma_replace_session(v, w, id, t);
                let watching = session_watch(sess, uri, counter);
                lemma_session_ops(sess, uri, reg, counter, reg);
                lemma_delta_put(watching.outbox, uri, reg);
                lemma_delta_drop(watching.outbox, uri);
                if id != s && is_active(v, s) {
                    assert(session_of(w, s) == session_of(v, s));
                }
            },
            CommandView::Unsubscribe { uri } => {
                let t = session_unwatch(sess, uri);
                lemma_session_ops(sess, uri, 0, 0, 0);
                lemma_replace_session(v, w, id, t);
                lemma_delta_drop(sess.outbox, uri);
                if id != s && is_active(v, s) {
                    assert(session_of(w, s) == session_of(v, s));
                }
            },
            CommandView::UnsubscribeAll => {
                let t = session_unwatch_all(sess);
                lemma_session_ops(sess, Seq::empty(), 0, 0, 0);
                lemma_replace_session(v, w, id, t);
                assert(delta_keys(t.outbox) =~= Seq::<Uri>::empty());
                if id != s && is_active(v, s) {
                    assert(session_of(w, s) == session_of(v, s));
                }
            },
            _ => {},
        }
    }
}

proof fn lemma_bounded_commands(
    v: ServerView,
    id: usize,
    cmds: Seq<CommandView>,
    s: usize,
    u: Uri,
    lo: u64,
    hi: u64,
)
    requires
        server_inv(v),
        consistent(v),
        bounded(v, s, u, lo, hi),
    ensures
        bounded(run_commands(v, id, cmds), s, u, lo, hi),
    decreases cmds.len(),
{
    if cmds.len() > 0 {
        lemma_bounded_commands(v, id, cmds.drop_last(), s, u, lo, hi);
        law_commands(v, id, cmds.drop_last());
        lemma_bounded_command(run_commands(v, id, cmds.drop_last()), id, cmds.last(), s, u, lo, hi);
    }
}

proof fn lemma_bounded_take(v: ServerView, id: usize, s: usize, u: Uri, lo: u64, hi: u64, next: u64)
    requires
        server_inv(v),
        consistent(v),
        bounded(v, s, u, lo, hi),
        next <= hi,
        id == s && is_active(v, s) || next == lo,
    ensures
        bounded(server_take(v, id), s, u, next, hi),
{
    let w = server_take(v, id);
    if is_active(v, id) {
        lemma_active_index(v, id);
        let sess = session_of(v, id);
        let t = session_take(sess);
        lemma_session_ops(sess, Seq::empty(), 0, 0, 0);
        lemma_replace_session(v, w, id, t);
        assert(delta_keys(t.outbox) =~= Seq::<Uri>::empty());
        if id != s && is_active(v, s) {
            assert(session_of(w, s) == session_of(v, s));
        }
    }
}

proof fn lemma_bounded_take_all(v: ServerView, s: usize, u: Uri, lo: u64, hi: u64, next: u64)
    requires
        server_inv(v),
        consistent(v),
        bounded(v, s, u, lo, hi),
        next <= hi,
    ensures
        bounded(server_take_all(v), s, u, next, hi),
{
    let w = server_take_all(v);
    law_take_all(v);
    if is_active(v, s) {
        let t = session_of(w, s);
        assert(t == session_take(session_of(v, s)));
        assert(delta_keys(t.outbox) =~= Seq::<Uri>::empty());
    }
}

proof fn lemma_bounded_connect(v: ServerView, s: usize, u: Uri, lo: u64, hi: u64)
    requires
        server_inv(v),
        consistent(v),
        bounded(v, s, u, lo, hi),
    ensures
        bounded(server_connect(v), s, u, lo, hi),
{
    let w = server_connect(v);
    law_connect(v);
    if v.next_id < usize::MAX && is_active(w, s) {
        lemma_active_index(w, s);
        let j = session_index(w, s);
        if j < v.sessions.len() {
            assert(w.sessions[j] == v.sessions[j]);
            lemma_session_at(v, j);
        } else {
            assert(delta_keys(w.sessions[j].outbox) =~= Seq::<Uri>::empty());
        }
    }
}

proof fn lemma_bounded_disconnect(v: ServerView, id: usize, s: usize, u: Uri, lo: u64, hi: u64)
    requires
        server_inv(v),
        consistent(v),
        bounded(v, s, u, lo, hi),
    ensures
        bounded(server_disconnect(v, id), s, u, lo, hi),
{
    law_disconnect(v, id);
    let w = server_disconnect(v, id);
    if is_active(v, id) && s != id && is_active(v, s) {
        assert(session_of(w, s) == session_of(v, s));
    }
}

proof fn lemma_bounded_unsubscribe_all(
    v: ServerView,
    id: usize,
    prune: bool,
    s: usize,
    u: Uri,
    lo: u64,
    hi: u64,
)
    requires
        server_inv(v),
        consistent(v),
        bounded(v, s, u, lo, hi),
    ensures
        bounded(server_unsubscribe_all(v, id, prune), s, u, lo, hi),
{
    let w = server_unsubscribe_all(v, id, prune);
    if is_active(v, id) {
        lemma_active_index(v, id);
        let sess = session_of(v, id);
        let t = session_unwatch_all(sess);
        lemma_session_ops(sess, Seq::empty(), 0, 0, 0);
        lemma_replace_session(v, w, id, t);
        assert(delta_keys(t.outbox) =~= Seq::<Uri>::empty());
        if id != s && is_active(v, s) {
            assert(session_of(w, s) == session_of(v, s));
        }
    }
}

proof fn lemma_bounded_ingest(v: ServerView, uri: Uri, c: u64, s: usize, u: Uri, lo: u64, hi: u64)
    requires
        server_inv(v),
        consistent(v),
        bounded(v, s, u, lo, hi),
        uri == u ==> hi <= c,
    ensures
        bounded(server_ingest(v, uri, c), s, u, lo, if uri == u { c } else { hi }),
{
    let w = server_ingest(v, uri, c);
    if advances(v.registry, uri, c) {
        let watchers = v.registry[uri].sessions;
        lemma_mark_sessions(v, watchers, uri, c);
        let mid = ServerView {
            registry: v.registry,
            sessions: mark_sessions(v.sessions, watchers, uri, c),
            next_id: v.next_id,
        };
        assert(is_active(w, s) == is_active(mid, s));
        if is_active(v, s) {
            assert(session_of(w, s) == session_of(mid, s));
            lemma_active_index(v, s);
            lemma_delta_put(session_of(v, s).outbox, uri, c);
        }
    }
}

/// What holds after every history with a monotone log: the broker is well
/// formed and consistent, what was delivered never went down, and what is
/// pending or registered is no less than what was delivered last.
pub open spec fn run_inv(es: Seq<Event>, s: usize, u: Uri) -> bool {
    let v = run(initial_server(), es);
    let t = told_along(initial_server(), es, s, u);
    &&& server_inv(v)
    &&& consistent(v)
    &&& bounded(v, s, u, last_told(t), high_water(es, u))
    &&& non_decreasing(t)
}

proof fn lemma_run_inv(es: Seq<Event>, s: usize, u: Uri)
    requires
        log_monotone(es, u),
    ensures
        run_inv(es, s, u),
    decreases es.len(),
{
    let init = initial_server();
    if es.len() == 0 {
        law_initial();
        assert(session_ids(init.sessions) =~= Seq::<usize>::empty());
    } else {
        let before = es.drop_last();
        let e = es.last();
        lemma_run_inv(before, s, u);
        let v = run(init, before);
        let t = told_along(init, before, s, u);
        let lo = last_told(t);
        let hi = high_water(before, u);
        law_step(v, e);
        match e {
            Event::Connect => {
                lemma_bounded_connect(v, s, u, lo, hi);
            },
            Event::Disconnect { id } => {
                lemma_bounded_disconnect(v, id, s, u, lo, hi);
            },
            Event::Record { record } => {
                match record {
                    RecordView::Malformed => {},
                    RecordView::Change { uri, counter } => {
                        lemma_bounded_ingest(v, uri, counter, s, u, lo, hi);
                    },
                }
            },
            Event::Message { id, msg } => {
                let cmds = message_commands(msg);
                let applied = run_commands(v, id, cmds);
                law_commands(v, id, cmds);
                lemma_bounded_commands(v, id, cmds, s, u, lo, hi);
                assert(is_active(applied, s) == is_active(v, s));
                if is_active(v, id) && reply_wanted(v, id, cmds) {
                    match told(v, e, s, u) {
                        Some(p) => {
                            lemma_bounded_take(applied, id, s, u, lo, hi, p);
                            assert(t.push(p).last() == p);
                        },
                        None => {
                            lemma_bounded_take(applied, id, s, u, lo, hi, lo);
                        },
                    }
                }
            },
            Event::Flush => {
                match told(v, e, s, u) {
                    Some(p) => {
                        lemma_bounded_take_all(v, s, u, lo, hi, p);
                        assert(t.push(p).last() == p);
                    },
                    None => {
                        lemma_bounded_take_all(v, s, u, lo, hi, lo);
                    },
                }
            },
            Event::Take { id } => {
                match told(v, e, s, u) {
                    Some(p) => {
                        lemma_bounded_take(v, id, s, u, lo, hi, p);
                        assert(t.push(p).last() == p);
                    },
                    None => {
                        lemma_bounded_take(v, id, s, u, lo, hi, lo);
                    },
                }
            },
            Event::Apply { id, command } => {
                lemma_bounded_command(v, id, command, s, u, lo, hi);
            },
            Event::UnsubscribeAll { id, prune } => {
                lemma_bounded_unsubscribe_all(v, id, prune, s, u, lo, hi);
            },
        }
    }
}

/// Monotonicity: while the log's counters for a resource do not go down,
/// the counters of that resource that are delivered to a session do not go
/// down either.
pub proof fn law_monotone_delivery(es: Seq<Event>, s: usize, u: Uri)
    requires
        log_monotone(es, u),
    ensures
        non_decreasing(told_along(initial_server(), es, s, u)),
{
    lemma_run_inv(es, s, u);
}

/// No-miss: when the log gives a new counter for a resource, the change is
/// pending for every session that is subscribed to it, and the next flush
/// delivers that counter to the session.
pub proof fn law_no_miss(v: ServerView, s: usize, u: Uri, c2: u64)
    requires
        server_inv(v),
        consistent(v),
        subscribed(v.registry, u, s),
        v.registry[u].counter != c2,
    ensures
        registered_counter(server_ingest(v, u, c2).registry, u) == c2,
        pending_for(server_ingest(v, u, c2), s, u) == Some(c2),
        told(server_ingest(v, u, c2), Event::Flush, s, u) == Some(c2),
{
    let w = server_ingest(v, u, c2);
    let watchers = v.registry[u].sessions;
    lemma_mark_sessions(v, watchers, u, c2);
    let mid = ServerView {
        registry: v.registry,
        sessions: mark_sessions(v.sessions, watchers, u, c2),
        next_id: v.next_id,
    };
    assert(is_active(v, s) && session_of(v, s).watched.contains_key(u));
    assert(is_active(w, s) == is_active(mid, s));
    assert(session_of(w, s) == session_of(mid, s));
    lemma_active_index(v, s);
    lemma_delta_put(session_of(v, s).outbox, u, c2);
}

/// No-miss, for a session that comes late: when a session subscribes to a
/// resource on which the registry is ahead of it, the registry's counter is
/// pending for the session at once.
pub proof fn law_no_miss_on_subscribe(v: ServerView, s: usize, u: Uri, c1: u64)
    requires
        server_inv(v),
        is_active(v, s),
        registered_counter(v.registry, u) > c1,
    ensures
        subscribed(server_subscribe(v, s, u, c1).registry, u, s),
        pending_for(server_subscribe(v, s, u, c1), s, u) == Some(
            registered_counter(v.registry, u),
        ),
        told(server_subscribe(v, s, u, c1), Event::Flush, s, u) == Some(
            registered_counter(v.registry, u),
        ),
{
    let w = server_subscribe(v, s, u, c1);
    lemma_active_index(v, s);
    let sess = session_of(v, s);
    let reg = registered_counter(v.registry, u);
    let t = session_subscribe(sess, u, c1, reg);
    lemma_session_ops(sess, u, 0, c1, reg);
    lemma_replace_session(v, w, s, t);
    let watching = session_watch(sess, u, c1);
    lemma_delta_put(watching.outbox, u, reg);
}

/// A batch in two parts is the first part, then the second.
pub proof fn lemma_records_concat(v: ServerView, a: Seq<RecordView>, b: Seq<RecordView>)
    ensures
        server_records(v, a + b) == server_records(server_records(v, a), b),
    decreases b.len(),
{
    if b.len() == 0 {
        assert(a + b =~= a);
    } else {
        lemma_records_concat(v, a, b.drop_last());
        assert((a + b).drop_last() =~= a + b.drop_last());
        assert((a + b).last() == b.last());
    }
}

/// Isolation: a malformed record anywhere in a batch changes nothing, so
/// the records before and after it are ingested as if it were not there.
pub proof fn law_malformed_isolated(v: ServerView, before: Seq<RecordView>, after: Seq<RecordView>)
    ensures
        server_records(v, before + seq![RecordView::Malformed] + after) == server_records(
            v,
            before + after,
        ),
{
    let bad = seq![RecordView::Malformed];
    lemma_records_concat(v, before + bad, after);
    lemma_records_concat(v, before, bad);
    lemma_records_concat(v, before, after);
    let mid = server_records(v, before);
    assert(bad.drop_last() =~= Seq::<RecordView>::empty());
    assert(server_records(mid, bad) == server_record(
        server_records(mid, bad.drop_last()),
        bad.last(),
    ));
}

/// Idempotent resubscribe, in the registry: a second subscription of the
/// same session to the same resource changes nothing, and a session that
/// subscribes to a resource without an entry is its only watcher.
pub proof fn law_registry_resubscribe(r: RegistryView, uri: Uri, session: usize)
    ensures
        registry_subscribe(registry_subscribe(r, uri, session), uri, session)
            == registry_subscribe(r, uri, session),
        !r.contains_key(uri) ==> registry_subscribe(r, uri, session)[uri].sessions.len() == 1,
        registered_counter(registry_subscribe(r, uri, session), uri) == registered_counter(r, uri),
{
    let once = registry_subscribe(r, uri, session);
    let twice = registry_subscribe(once, uri, session);
    assert(once[uri].sessions.insert(session) =~= once[uri].sessions);
    assert(twice =~= once);
    if !r.contains_key(uri) {
        assert(once[uri].sessions =~= set![session]);
    }
}

/// Idempotent resubscribe: a session that subscribes to a resource twice in
/// a row, with the same counter, leaves the broker as after the first time;
/// so nothing is delivered twice.
pub proof fn law_resubscribe_idempotent(v: ServerView, id: usize, uri: Uri, known: u64)
    requires
        server_inv(v),
    ensures
        server_subscribe(server_subscribe(v, id, uri, known), id, uri, known) == server_subscribe(
            v,
            id,
            uri,
            known,
        ),
{
    let once = server_subscribe(v, id, uri, known);
    let twice = server_subscribe(once, id, uri, known);
    if is_active(v, id) {
        lemma_active_index(v, id);
        let sess = session_of(v, id);
        let reg = registered_counter(v.registry, uri);
        let t = session_subscribe(sess, uri, known, reg);
        lemma_session_ops(sess, uri, 0, known, reg);
        lemma_replace_session(v, once, id, t);
        law_registry_resubscribe(v.registry, uri, id);
        lemma_active_index(once, id);
        assert(session_index(once, id) == session_index(v, id));
        let watching = session_watch(sess, uri, known);
        lemma_delta_put(watching.outbox, uri, reg);
        lemma_delta_drop(watching.outbox, uri);
        assert(t.watched.insert(uri, known) =~= t.watched);
        assert(session_watch(t, uri, known) == t);
        if reg > known {
            lemma_delta_index(t.outbox, uri);
            assert(delta_put(t.outbox, uri, reg) =~= t.outbox);
        }
        assert(session_subscribe(t, uri, known, reg) == t);
        assert(twice.sessions =~= once.sessions);
    }
}

/// What a session has on record after it was handed a delta: the delta's
/// counter for a watched resource that the delta names, the old record for
/// one that it does not name.
pub proof fn lemma_acknowledged_value(watched: Map<Uri, u64>, d: Delta, u: Uri)
    requires
        delta_inv(d),
        watched.contains_key(u),
    ensures
        acknowledged(watched, d).contains_key(u),
        acknowledged(watched, d)[u] == (if delta_has(d, u) {
            delta_counter(d, u)
        } else {
            watched[u]
        }),
    decreases d.len(),
{
    lemma_acknowledged_dom(watched, d);
    if d.len() > 0 {
        let front = d.drop_last();
        let keys = delta_keys(d);
        let fkeys = delta_keys(front);
        assert(fkeys =~= keys.drop_last());
        assert forall|a: int, b: int|
            0 <= a < fkeys.len() && 0 <= b < fkeys.len() && a != b implies fkeys[a] != fkeys[b] by {
            assert(fkeys[a] == keys[a]);
            assert(fkeys[b] == keys[b]);
        }
        lemma_acknowledged_value(watched, front, u);
        lemma_acknowledged_dom(watched, front);
        let last = d.len() - 1;
        lemma_delta_at(d, last);
        if d.last().0 == u {
            assert(acknowledged(watched, front).contains_key(u));
        } else {
            if delta_has(d, u) {
                lemma_delta_index(d, u);
                let j = keys.index_of(u);
                assert(j < last);
                assert(fkeys[j] == u);
                lemma_delta_at(front, j);
                lemma_delta_at(d, j);
            } else {
                if delta_has(front, u) {
                    lemma_delta_index(front, u);
                    let j = fkeys.index_of(u);
                    assert(keys[j] == u);
                }
            }
        }
    }
}

/// True when session `s` is not behind on resource `u`: what is pending
/// for it is the registry's counter, and where nothing is pending it has a
/// counter on record that is no less than the registry's.
pub open spec fn up_to_date(v: ServerView, s: usize, u: Uri) -> bool {
    match pending_for(v, s, u) {
        Some(p) => p == v.registry[u].counter,
        None => session_of(v, s).watched[u] >= v.registry[u].counter,
    }
}

/// No session is behind on a resource that it is subscribed to.
pub open spec fn caught_up(v: ServerView) -> bool {
    forall|u: Uri, s: usize| #[trigger] subscribed(v.registry, u, s) ==> up_to_date(v, s, u)
}

proof fn lemma_caught_up_command(v: ServerView, id: usize, c: CommandView)
    requires
        server_inv(v),
        consistent(v),
        caught_up(v),
    ensures
        caught_up(apply_command(v, id, c)),
{
    let w = apply_command(v, id, c);
    lemma_command(v, id, c);
    if is_active(v, id) {
        lemma_active_index(v, id);
        let sess = session_of(v, id);
        match c {
            CommandView::Subscribe { uri, counter } => {
                let reg = registered_counter(v.registry, uri);
                let t = session_subscribe(sess, uri, counter, reg);
                lemma_session_ops(sess, uri, 0, counter, reg);
                lemma_replace_session(v, w, id, t);
                let watching = session_watch(sess, uri, counter);
                lemma_session_ops(sess, uri, reg, counter, reg);
                lemma_delta_put(watching.outbox, uri, reg);
                lemma_delta_drop(watching.outbox, uri);
                assert forall|u: Uri, s: usize| #[trigger]
                    subscribed(w.registry, u, s) implies up_to_date(w, s, u) by {
                    if s == id && u == uri {
                        assert(session_of(w, s) == t);
                        assert(w.registry[u].counter == reg);
                        assert(watching.watched[uri] == counter);
                    } else {
                        assert(subscribed(v.registry, u, s));
                        if s != id {
                            assert(is_active(v, s));
                            assert(session_of(w, s) == session_of(v, s));
                        }
                    }
                }
            },
            CommandView::Unsubscribe { uri } => {
                let t = session_unwatch(sess, uri);
                lemma_session_ops(sess, uri, 0, 0, 0);
                lemma_replace_session(v, w, id, t);
                lemma_delta_drop(sess.outbox, uri);
                assert forall|u: Uri, s: usize| #[trigger]
                    subscribed(w.registry, u, s) implies up_to_date(w, s, u) by {
                    assert(subscribed(v.registry, u, s));
                    if s != id {
                        assert(is_active(v, s));
                        assert(session_of(w, s) == session_of(v, s));
                    }
                }
            },
            CommandView::UnsubscribeAll => {
                let t = session_unwatch_all(sess);
                lemma_session_ops(sess, Seq::empty(), 0, 0, 0);
                lemma_replace_session(v, w, id, t);
                assert forall|u: Uri, s: usize| #[trigger]
                    subscribed(w.registry, u, s) implies up_to_date(w, s, u) by {
                    lemma_unsubscribe_all(v.registry, id, false, u, s);
                    assert(subscribed(v.registry, u, s));
                    assert(is_active(v, s));
                    assert(session_of(w, s) == session_of(v, s));
                }
            },
            _ => {},
        }
    }
}

proof fn lemma_caught_up_commands(v: ServerView, id: usize, cmds: Seq<CommandView>)
    requires
        server_inv(v),
        consistent(v),
        caught_up(v),
    ensures
        caught_up(run_commands(v, id, cmds)),
    decreases cmds.len(),
{
    if cmds.len() > 0 {
        lemma_caught_up_commands(v, id, cmds.drop_last());
        law_commands(v, id, cmds.drop_last());
        lemma_caught_up_command(run_commands(v, id, cmds.drop_last()), id, cmds.last());
    }
}

proof fn lemma_caught_up_take(v: ServerView, id: usize)
    requires
        server_inv(v),
        consistent(v),
        caught_up(v),
    ensures
        caught_up(server_take(v, id)),
{
    let w = server_take(v, id);
    if is_active(v, id) {
        lemma_active_index(v, id);
        let sess = session_of(v, id);
        let t = session_take(sess);
        lemma_session_ops(sess, Seq::empty(), 0, 0, 0);
        lemma_replace_session(v, w, id, t);
        assert forall|u: Uri, s: usize| #[trigger]
            subscribed(w.registry, u, s) implies up_to_date(w, s, u) by {
            assert(subscribed(v.registry, u, s));
            assert(is_active(v, s) && session_of(v, s).watched.contains_key(u));
            if s == id {
                lemma_acknowledged_value(sess.watched, sess.outbox, u);
            } else {
                assert(session_of(w, s) == session_of(v, s));
            }
        }
    }
}

/// Every event leaves no session behind, where none was.
pub proof fn lemma_caught_up_step(v: ServerView, e: Event)
    requires
        server_inv(v),
        consistent(v),
        caught_up(v),
    ensures
        caught_up(step(v, e)),
{
    let w = step(v, e);
    law_step(v, e);
    match e {
        Event::Connect => {
            law_connect(v);
            assert forall|u: Uri, s: usize| #[trigger]
                subscribed(w.registry, u, s) implies up_to_date(w, s, u) by {
                assert(subscribed(v.registry, u, s));
                assert(is_active(v, s));
                if v.next_id < usize::MAX {
                    lemma_active_index(v, s);
                    let j = session_index(v, s);
                    assert(w.sessions[j] == v.sessions[j]);
                    lemma_session_at(w, j);
                }
            }
        },
        Event::Disconnect { id } => {
            law_disconnect(v, id);
            assert forall|u: Uri, s: usize| #[trigger]
                subscribed(w.registry, u, s) implies up_to_date(w, s, u) by {
                if is_active(v, id) {
                    lemma_unsubscribe_all(v.registry, id, true, u, s);
                    assert(subscribed(v.registry, u, s));
                    assert(is_active(v, s));
                    assert(session_of(w, s) == session_of(v, s));
                }
            }
        },
        Event::Message { id, msg } => {
            let cmds = message_commands(msg);
            law_commands(v, id, cmds);
            lemma_caught_up_commands(v, id, cmds);
            lemma_caught_up_take(run_commands(v, id, cmds), id);
        },
        Event::Record { record } => {
            match record {
                RecordView::Malformed => {},
                RecordView::Change { uri, counter } => {
                    if advances(v.registry, uri, counter) {
                        let watchers = v.registry[uri].sessions;
                        lemma_mark_sessions(v, watchers, uri, counter);
                        let mid = ServerView {
                            registry: v.registry,
                            sessions: mark_sessions(v.sessions, watchers, uri, counter),
                            next_id: v.next_id,
                        };
                        assert forall|u: Uri, s: usize| #[trigger]
                            subscribed(w.registry, u, s) implies up_to_date(w, s, u) by {
                            assert(subscribed(v.registry, u, s));
                            assert(is_active(v, s) && session_of(v, s).watched.contains_key(u));
                            assert(is_active(w, s) == is_active(mid, s));
                            assert(session_of(w, s) == session_of(mid, s));
                            lemma_active_index(v, s);
                            lemma_delta_put(session_of(v, s).outbox, uri, counter);
                        }
                    }
                },
            }
        },
        Event::Flush => {
            law_take_all(v);
            assert forall|u: Uri, s: usize| #[trigger]
                subscribed(w.registry, u, s) implies up_to_date(w, s, u) by {
                assert(subscribed(v.registry, u, s));
                assert(is_active(v, s) && session_of(v, s).watched.contains_key(u));
                lemma_active_index(v, s);
                lemma_acknowledged_value(session_of(v, s).watched, session_of(v, s).outbox, u);
            }
        },
        Event::Take { id } => {
            lemma_caught_up_take(v, id);
        },
        Event::Apply { id, command } => {
            lemma_caught_up_command(v, id, command);
        },
        Event::UnsubscribeAll { id, prune } => {
            if is_active(v, id) {
                lemma_active_index(v, id);
                let sess = session_of(v, id);
                let t = session_unwatch_all(sess);
                lemma_session_ops(sess, Seq::empty(), 0, 0, 0);
                lemma_replace_session(v, w, id, t);
                assert forall|u: Uri, s: usize| #[trigger]
                    subscribed(w.registry, u, s) implies up_to_date(w, s, u) by {
                    lemma_unsubscribe_all(v.registry, id, prune, u, s);
                    assert(subscribed(v.registry, u, s));
                    assert(is_active(v, s));
                    assert(session_of(w, s) == session_of(v, s));
                }
            }
        },
    }
}

/// No-miss, in every state: whatever has happened, a session that is
/// subscribed to a resource has the registry's counter pending, or nothing
/// pending and on record a counter that is no less. So no subscribed
/// session stays behind the registry without a delivery on its way.
pub proof fn law_never_behind(es: Seq<Event>)
    ensures
        caught_up(run(initial_server(), es)),
    decreases es.len(),
{
    if es.len() > 0 {
        law_never_behind(es.drop_last());
        law_reachable(es.drop_last());
        lemma_caught_up_step(run(initial_server(), es.drop_last()), es.last());
    }
}

/// Pruning: after an open session has disconnected, the registry holds no
/// entry that nobody watches, so it does not grow with sessions that are
/// gone. An unsubscription from everything that does not prune keeps every
/// entry.
pub proof fn law_disconnect_prunes(v: ServerView, id: usize)
    requires
        is_active(v, id),
    ensures
        forall|u: Uri| #[trigger]
            server_disconnect(v, id).registry.contains_key(u) ==> !vacant(
                server_disconnect(v, id).registry[u],
            ),
        forall|u: Uri|
            v.registry.contains_key(u) ==> #[trigger] server_unsubscribe_all(
                v,
                id,
                false,
            ).registry.contains_key(u),
{
}

/// Redelivery: a record that is ingested a second time, as after a crash
/// of the reader, changes nothing.
pub proof fn law_ingest_idempotent(v: ServerView, uri: Uri, counter: u64)
    ensures
        server_ingest(server_ingest(v, uri, counter), uri, counter) == server_ingest(
            v,
            uri,
            counter,
        ),
{
}

/// Coalescing: of two counters that the log gives for a resource between
/// two deliveries, a subscribed session has the second one pending and
/// nothing else for that resource.
pub proof fn law_coalesced(v: ServerView, s: usize, u: Uri, c1: u64, c2: u64)
    requires
        server_inv(v),
        consistent(v),
        subscribed(v.registry, u, s),
        c1 != c2,
    ensures
        pending_for(server_ingest(server_ingest(v, u, c1), u, c2), s, u) == Some(c2),
        delta_inv(session_of(server_ingest(server_ingest(v, u, c1), u, c2), s).outbox),
{
    let w = server_ingest(v, u, c1);
    law_ingest(v, u, c1);
    law_no_miss(w, s, u, c2);
    let x = server_ingest(w, u, c2);
    law_ingest(w, u, c2);
    lemma_active_index(x, s);
}

proof fn lemma_command_leaves_others(v: ServerView, id: usize, c: CommandView, other: usize)
    requires
        server_inv(v),
        consistent(v),
        other != id,
        is_active(v, other),
    ensures
        is_active(apply_command(v, id, c), other),
        session_of(apply_command(v, id, c), other) == session_of(v, other),
{
    let w = apply_command(v, id, c);
    if is_active(v, id) {
        lemma_active_index(v, id);
        let sess = session_of(v, id);
        match c {
            CommandView::Subscribe { uri, counter } => {
                let reg = registered_counter(v.registry, uri);
                lemma_session_ops(sess, uri, 0, counter, reg);
                lemma_replace_session(v, w, id, session_subscribe(sess, uri, counter, reg));
            },
            CommandView::Unsubscribe { uri } => {
                lemma_session_ops(sess, uri, 0, 0, 0);
                lemma_replace_session(v, w, id, session_unwatch(sess, uri));
            },
            CommandView::UnsubscribeAll => {
                lemma_session_ops(sess, Seq::empty(), 0, 0, 0);
                lemma_replace_session(v, w, id, session_unwatch_all(sess));
            },
            _ => {},
        }
    }
}

proof fn lemma_commands_leave_others(
    v: ServerView,
    id: usize,
    cmds: Seq<CommandView>,
    other: usize,
)
    requires
        server_inv(v),
        consistent(v),
        other != id,
        is_active(v, other),
    ensures
        is_active(run_commands(v, id, cmds), other),
        session_of(run_commands(v, id, cmds), other) == session_of(v, other),
    decreases cmds.len(),
{
    if cmds.len() > 0 {
        lemma_commands_leave_others(v, id, cmds.drop_last(), other);
        law_commands(v, id, cmds.drop_last());
        lemma_command_leaves_others(
            run_commands(v, id, cmds.drop_last()),
            id,
            cmds.last(),
            other,
        );
    }
}

/// Isolation of sessions: whatever a session sends, the state of every
/// other session stays as it was: what it watches, what it was told, what
/// is pending for it.
pub proof fn law_message_touches_one_session(v: ServerView, id: usize, msg: Seq<u8>, other: usize)
    requires
        server_inv(v),
        consistent(v),
        other != id,
        is_active(v, other),
    ensures
        is_active(server_message(v, id, msg), other),
        session_of(server_message(v, id, msg), other) == session_of(v, other),
{
    if is_active(v, id) {
        let cmds = message_commands(msg);
        let applied = run_commands(v, id, cmds);
        lemma_commands_leave_others(v, id, cmds, other);
        law_commands(v, id, cmds);
        if reply_wanted(v, id, cmds) {
            assert(is_active(applied, id));
            lemma_active_index(applied, id);
            let sess = session_of(applied, id);
            lemma_session_ops(sess, Seq::empty(), 0, 0, 0);
            lemma_replace_session(applied, server_take(applied, id), id, session_take(sess));
        }
    }
}

/// Identifiers are never reused: no event lowers the identifier that the
/// next session gets, and every identifier in use lies below it. So the
/// identifier that a new session gets was not in use in any earlier state.
pub proof fn law_identifiers_grow(v: ServerView, e: Event)
    requires
        server_inv(v),
        consistent(v),
    ensures
        step(v, e).next_id >= v.next_id,
        forall|id: usize| is_active(step(v, e), id) ==> id < step(v, e).next_id,
        forall|id: usize| is_active(v, id) ==> id < v.next_id,
{
    let w = step(v, e);
    law_step(v, e);
    assert forall|id: usize| is_active(w, id) implies id < w.next_id by {
        lemma_active_index(w, id);
    }
    assert forall|id: usize| is_active(v, id) implies id < v.next_id by {
        lemma_active_index(v, id);
    }
    match e {
        Event::Message { id, msg } => {
            law_commands(v, id, message_commands(msg));
        },
        Event::Apply { id, command } => {
            lemma_command(v, id, command);
        },
        _ => {},
    }
}

} // verus!
