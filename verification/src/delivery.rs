//! What one tail step over a batch, and one client message, deliver: laws
//! over whole batches and whole messages.

use crate::laws::{
    caught_up, consistent, law_commands, law_ingest, law_take_all, lemma_active_index,
    lemma_command, lemma_delta_drop, lemma_delta_index, lemma_delta_put, lemma_mark_sessions,
    lemma_replace_session, lemma_session_at, lemma_session_ops, pending_for, run, server_inv, step,
    up_to_date, Event,
};
use crate::model::{
    advances, apply_command, deliveries, delta_has, delta_keys, format_delta, is_active,
    mark_sessions, registered_counter, run_commands, server_record, server_records,
    server_subscribe, server_tail, session_ids, session_index, session_of, session_subscribe,
    session_unwatch, session_unwatch_all, session_watch, subscribed, tail_deliveries, ServerView,
    SessionView, Uri,
};
use crate::protocol::CommandView;
use crate::record::RecordView;
use crate::tail::{
    tail_next, takes_record, TailAction, TailEvent, TailState,
};
use vstd::prelude::*;

verus! {

/// The sessions that a list of deliveries goes to, in order.
pub open spec fn delivery_ids(ds: Seq<(usize, Seq<u8>)>) -> Seq<usize> {
    Seq::new(ds.len(), |j: int| ds[j].0)
}

/// True when the delivery `d` hands the session at position `i` all that is
/// pending for it.
pub open spec fn comes_from(ss: Seq<SessionView>, d: (usize, Seq<u8>), i: int) -> bool {
    &&& 0 <= i < ss.len()
    &&& ss[i].id == d.0
    &&& ss[i].outbox.len() > 0
    &&& d.1 == format_delta(ss[i].outbox)
}

/// True when the delivery `d` hands some session all that is pending for
/// it.
pub open spec fn has_source(ss: Seq<SessionView>, d: (usize, Seq<u8>)) -> bool {
    exists|i: int| comes_from(ss, d, i)
}

/// Deliveries go to the sessions with changes pending, one to each: every
/// delivery hands some such session all that is pending for it, every such
/// session has its delivery, and no session has two.
pub proof fn law_deliveries(ss: Seq<SessionView>)
    requires
        session_ids(ss).no_duplicates(),
    ensures
        forall|j: int|
            0 <= j < deliveries(ss).len() ==> has_source(ss, #[trigger] deliveries(ss)[j]),
        forall|i: int|
            0 <= i < ss.len() && (#[trigger] ss[i]).outbox.len() > 0 ==> deliveries(ss).contains(
                (ss[i].id, format_delta(ss[i].outbox)),
            ),
        delivery_ids(deliveries(ss)).no_duplicates(),
    decreases ss.len(),
{
    let ds = deliveries(ss);
    if ss.len() > 0 {
        let front = ss.drop_last();
        let fds = deliveries(front);
        let last = ss.last();
        let ids = session_ids(ss);
        assert(session_ids(front) =~= ids.drop_last());
        assert forall|a: int, b: int|
            0 <= a < front.len() && 0 <= b < front.len() && a != b
            implies session_ids(front)[a] != session_ids(front)[b] by {
            assert(ids[a] == session_ids(front)[a]);
            assert(ids[b] == session_ids(front)[b]);
        }
        law_deliveries(front);
        assert forall|j: int| 0 <= j < ds.len() implies has_source(ss, #[trigger] ds[j]) by {
            if j < fds.len() {
                assert(ds[j] == fds[j]);
                assert(has_source(front, fds[j]));
                let i = choose|i: int| comes_from(front, fds[j], i);
                assert(comes_from(ss, ds[j], i));
            } else {
                assert(comes_from(ss, ds[j], ss.len() - 1));
            }
        }
        assert forall|i: int| 0 <= i < ss.len() && (#[trigger] ss[i]).outbox.len() > 0
            implies ds.contains((ss[i].id, format_delta(ss[i].outbox))) by {
            if i < front.len() {
                assert(front[i] == ss[i]);
                let d = (ss[i].id, format_delta(ss[i].outbox));
                assert(fds.contains(d));
                let j = fds.index_of(d);
                assert(ds[j] == d);
            } else {
                assert(ds[ds.len() - 1] == (last.id, format_delta(last.outbox)));
            }
        }
        let dids = delivery_ids(ds);
        assert forall|a: int, b: int| 0 <= a < dids.len() && 0 <= b < dids.len() && a != b
            implies dids[a] != dids[b] by {
            let fids = delivery_ids(fds);
            if a < fds.len() && b < fds.len() {
                assert(dids[a] == fids[a]);
                assert(dids[b] == fids[b]);
            } else {
                let low = if a < fds.len() { a } else { b };
                assert(low < fds.len());
                assert(ds[low] == fds[low]);
                assert(has_source(front, fds[low]));
                let i = choose|i: int| comes_from(front, fds[low], i);
                assert(ids[i] == dids[low]);
                assert(ids[ss.len() - 1] == last.id);
            }
        }
    }
}

/// An open session has one delivery where changes are pending for it, with
/// all of them, and none where nothing is pending.
pub proof fn law_one_delivery(w: ServerView, s: usize)
    requires
        server_inv(w),
        is_active(w, s),
    ensures
        delivery_ids(deliveries(w.sessions)).no_duplicates(),
        session_of(w, s).outbox.len() > 0 ==> deliveries(w.sessions).contains(
            (s, format_delta(session_of(w, s).outbox)),
        ),
        session_of(w, s).outbox.len() == 0 ==> !delivery_ids(deliveries(w.sessions)).contains(s),
{
    law_deliveries(w.sessions);
    lemma_active_index(w, s);
    let ds = deliveries(w.sessions);
    let i = session_index(w, s);
    assert(w.sessions[i].id == s);
    if session_of(w, s).outbox.len() == 0 && delivery_ids(ds).contains(s) {
        let j = delivery_ids(ds).index_of(s);
        assert(delivery_ids(ds)[j] == s);
        assert(has_source(w.sessions, ds[j]));
        let k = choose|k: int| comes_from(w.sessions, ds[j], k);
        lemma_session_at(w, k);
        assert(false);
    }
}

/// The counter that a batch gives last for resource `u`, if it gives one.
pub open spec fn last_counter(rs: Seq<RecordView>, u: Uri) -> Option<u64>
    decreases rs.len(),
{
    if rs.len() == 0 {
        None
    } else {
        match rs.last() {
            RecordView::Change { uri, counter } => if uri == u {
                Some(counter)
            } else {
                last_counter(rs.drop_last(), u)
            },
            RecordView::Malformed => last_counter(rs.drop_last(), u),
        }
    }
}

/// The counter of resource `u` after a batch, where it was `c0` before:
/// what the batch gives last, or `c0` where the batch does not name the
/// resource.
pub open spec fn counter_after(rs: Seq<RecordView>, u: Uri, c0: u64) -> u64 {
    match last_counter(rs, u) {
        Some(c) => c,
        None => c0,
    }
}

/// True when the counters that a batch gives for resource `u` never go
/// down, starting from `c0`.
pub open spec fn batch_monotone(rs: Seq<RecordView>, u: Uri, c0: u64) -> bool
    decreases rs.len(),
{
    if rs.len() == 0 {
        true
    } else {
        &&& batch_monotone(rs.drop_last(), u, c0)
        &&& match rs.last() {
            RecordView::Change { uri, counter } => uri == u ==> counter_after(
                rs.drop_last(),
                u,
                c0,
            ) <= counter,
            RecordView::Malformed => true,
        }
    }
}

/// The counter of resource `u` after one record, where it was `c0` before.
pub open spec fn record_counter(r: RecordView, u: Uri, c0: u64) -> u64 {
    match r {
        RecordView::Change { uri, counter } => if uri == u {
            counter
        } else {
            c0
        },
        RecordView::Malformed => c0,
    }
}

/// One record keeps the broker well formed and consistent, and leaves
/// every session open and subscribed as it was.
pub proof fn lemma_record_keeps(v: ServerView, r: RecordView)
    requires
        server_inv(v),
        consistent(v),
    ensures
        server_inv(server_record(v, r)),
        consistent(server_record(v, r)),
        session_ids(server_record(v, r).sessions) == session_ids(v.sessions),
        forall|u: Uri, s: usize|
            subscribed(server_record(v, r).registry, u, s) == subscribed(v.registry, u, s),
        forall|u: Uri|
            server_record(v, r).registry.contains_key(u) == v.registry.contains_key(u),
{
    match r {
        RecordView::Malformed => {},
        RecordView::Change { uri, counter } => {
            law_ingest(v, uri, counter);
            if advances(v.registry, uri, counter) {
                lemma_mark_sessions(v, v.registry[uri].sessions, uri, counter);
            }
        },
    }
}

/// What one record does for a session that is subscribed to resource `u`:
/// the registry takes the record's counter for `u`, and either nothing
/// changed for the session on `u`, or the registry's new counter is pending
/// for it.
pub proof fn lemma_record_pending(v: ServerView, r: RecordView, s: usize, u: Uri)
    requires
        server_inv(v),
        consistent(v),
        subscribed(v.registry, u, s),
    ensures
        server_record(v, r).registry.contains_key(u),
        server_record(v, r).registry[u].counter == record_counter(r, u, v.registry[u].counter),
        pending_for(server_record(v, r), s, u) == Some(server_record(v, r).registry[u].counter)
            || (server_record(v, r).registry[u].counter == v.registry[u].counter && pending_for(
            server_record(v, r),
            s,
            u,
        ) == pending_for(v, s, u)),
{
    let w = server_record(v, r);
    match r {
        RecordView::Malformed => {},
        RecordView::Change { uri, counter } => {
            if advances(v.registry, uri, counter) {
                let watchers = v.registry[uri].sessions;
                lemma_mark_sessions(v, watchers, uri, counter);
                let mid = ServerView {
                    registry: v.registry,
                    sessions: mark_sessions(v.sessions, watchers, uri, counter),
                    next_id: v.next_id,
                };
                assert(is_active(v, s) && session_of(v, s).watched.contains_key(u));
                assert(is_active(w, s) == is_active(mid, s));
                assert(session_of(w, s) == session_of(mid, s));
                lemma_active_index(v, s);
                lemma_delta_put(session_of(v, s).outbox, uri, counter);
            }
        },
    }
}

/// A batch keeps the broker well formed and consistent, and leaves every
/// session open and subscribed as it was.
pub proof fn lemma_records_keep(v: ServerView, rs: Seq<RecordView>)
    requires
        server_inv(v),
        consistent(v),
    ensures
        server_inv(server_records(v, rs)),
        consistent(server_records(v, rs)),
        session_ids(server_records(v, rs).sessions) == session_ids(v.sessions),
        forall|u: Uri, s: usize|
            subscribed(server_records(v, rs).registry, u, s) == subscribed(v.registry, u, s),
    decreases rs.len(),
{
    if rs.len() > 0 {
        lemma_records_keep(v, rs.drop_last());
        lemma_record_keeps(server_records(v, rs.drop_last()), rs.last());
    }
}

/// What a batch does for a session that is subscribed to resource `u`: the
/// registry ends with the counter that the batch gave last for `u`, and
/// either nothing changed for the session on `u`, or the registry's counter
/// is pending for it.
pub proof fn lemma_batch_pending(v: ServerView, rs: Seq<RecordView>, s: usize, u: Uri)
    requires
        server_inv(v),
        consistent(v),
        subscribed(v.registry, u, s),
    ensures
        server_records(v, rs).registry.contains_key(u),
        server_records(v, rs).registry[u].counter == counter_after(rs, u, v.registry[u].counter),
        pending_for(server_records(v, rs), s, u) == Some(
            server_records(v, rs).registry[u].counter,
        ) || (server_records(v, rs).registry[u].counter == v.registry[u].counter && pending_for(
            server_records(v, rs),
            s,
            u,
        ) == pending_for(v, s, u)),
    decreases rs.len(),
{
    if rs.len() > 0 {
        let front = rs.drop_last();
        let m = server_records(v, front);
        lemma_batch_pending(v, front, s, u);
        lemma_records_keep(v, front);
        assert(subscribed(m.registry, u, s));
        lemma_record_pending(m, rs.last(), s, u);
    }
}

/// Where the counters of a batch never go down from `c0`, the counter that
/// it leaves is no less than `c0`.
pub proof fn lemma_batch_floor(rs: Seq<RecordView>, u: Uri, c0: u64)
    requires
        batch_monotone(rs, u, c0),
    ensures
        counter_after(rs, u, c0) >= c0,
    decreases rs.len(),
{
    if rs.len() > 0 {
        lemma_batch_floor(rs.drop_last(), u, c0);
    }
}

/// The records of a batch as events, one each.
pub open spec fn batch_events(rs: Seq<RecordView>) -> Seq<Event> {
    Seq::new(rs.len(), |i: int| Event::Record { record: rs[i] })
}

/// A tail step over a batch is a history: its records, one event each, and
/// then a flush. So what holds of every history holds of tail steps, among
/// them that the counters delivered to a session never go down while the
/// log's do not.
pub proof fn law_batch_is_history(v: ServerView, rs: Seq<RecordView>)
    ensures
        run(v, batch_events(rs)) == server_records(v, rs),
        run(v, batch_events(rs).push(Event::Flush)) == server_tail(v, rs),
    decreases rs.len(),
{
    let es = batch_events(rs);
    if rs.len() > 0 {
        law_batch_is_history(v, rs.drop_last());
        assert(es.drop_last() =~= batch_events(rs.drop_last()));
        assert(es.last() == Event::Record { record: rs.last() });
    }
    assert(run(v, es) == server_records(v, rs));
    let all = es.push(Event::Flush);
    assert(all.drop_last() =~= es);
    assert(all.last() == Event::Flush);
    assert(run(v, all) == step(run(v, all.drop_last()), all.last()));
}

/// Monotonicity, for a tail step: where the counters that a batch gives for
/// a resource never go down from the registered counter `c0`, the registry
/// ends at a counter no less than `c0`, and what the step delivers to a
/// subscribed session for the resource is the registry's counter, no less
/// than `c0` and no less than what was pending before.
pub proof fn law_batch_monotone(v: ServerView, rs: Seq<RecordView>, s: usize, u: Uri)
    requires
        server_inv(v),
        consistent(v),
        subscribed(v.registry, u, s),
        up_to_date(v, s, u),
        batch_monotone(rs, u, v.registry[u].counter),
    ensures
        server_records(v, rs).registry[u].counter >= v.registry[u].counter,
        pending_for(server_records(v, rs), s, u) matches Some(p) ==> ({
            &&& p == server_records(v, rs).registry[u].counter
            &&& p >= v.registry[u].counter
            &&& pending_for(v, s, u) matches Some(earlier) ==> p >= earlier
        }),
        is_active(server_records(v, rs), s),
        session_of(server_records(v, rs), s).outbox.len() > 0 ==> tail_deliveries(v, rs).contains(
            (s, format_delta(session_of(server_records(v, rs), s).outbox)),
        ),
        delivery_ids(tail_deliveries(v, rs)).no_duplicates(),
{
    lemma_batch_pending(v, rs, s, u);
    lemma_batch_floor(rs, u, v.registry[u].counter);
    lemma_records_keep(v, rs);
    let w = server_records(v, rs);
    assert(subscribed(w.registry, u, s));
    law_one_delivery(w, s);
}

/// No-miss, for a tail step: where the last record of a batch for a
/// resource gives a counter other than the registered one, the registry
/// ends at that counter, and a subscribed session is sent one reply in this
/// step, which holds that counter for the resource.
pub proof fn law_batch_no_miss(v: ServerView, rs: Seq<RecordView>, s: usize, u: Uri, c2: u64)
    requires
        server_inv(v),
        consistent(v),
        subscribed(v.registry, u, s),
        last_counter(rs, u) == Some(c2),
        c2 != v.registry[u].counter,
    ensures
        server_records(v, rs).registry[u].counter == c2,
        pending_for(server_records(v, rs), s, u) == Some(c2),
        tail_deliveries(v, rs).contains(
            (s, format_delta(session_of(server_records(v, rs), s).outbox)),
        ),
        delivery_ids(tail_deliveries(v, rs)).no_duplicates(),
        pending_for(server_tail(v, rs), s, u) is None,
{
    lemma_batch_pending(v, rs, s, u);
    lemma_records_keep(v, rs);
    let w = server_records(v, rs);
    assert(subscribed(w.registry, u, s));
    law_one_delivery(w, s);
    lemma_delta_index(session_of(w, s).outbox, u);
    law_take_all(w);
    let t = session_of(server_tail(v, rs), s);
    assert(delta_keys(t.outbox) =~= Seq::<Uri>::empty());
}

/// Isolation, for a tail step: in a batch of a change of `a`, a record that
/// cannot be decoded, and a change of `b`, both changes reach the registry
/// and the sessions subscribed to them, each in a reply of this step.
pub proof fn law_batch_isolated(
    v: ServerView,
    s1: usize,
    a: Uri,
    ca: u64,
    s2: usize,
    b: Uri,
    cb: u64,
)
    requires
        server_inv(v),
        consistent(v),
        subscribed(v.registry, a, s1),
        subscribed(v.registry, b, s2),
        a != b,
        ca != v.registry[a].counter,
        cb != v.registry[b].counter,
    ensures
        ({
            let rs = seq![
                RecordView::Change { uri: a, counter: ca },
                RecordView::Malformed,
                RecordView::Change { uri: b, counter: cb },
            ];
            let w = server_records(v, rs);
            &&& w.registry[a].counter == ca
            &&& w.registry[b].counter == cb
            &&& pending_for(w, s1, a) == Some(ca)
            &&& pending_for(w, s2, b) == Some(cb)
            &&& tail_deliveries(v, rs).contains((s1, format_delta(session_of(w, s1).outbox)))
            &&& tail_deliveries(v, rs).contains((s2, format_delta(session_of(w, s2).outbox)))
        }),
{
    let ra = RecordView::Change { uri: a, counter: ca };
    let rb = RecordView::Change { uri: b, counter: cb };
    let rs = seq![ra, RecordView::Malformed, rb];
    assert(rs.drop_last() =~= seq![ra, RecordView::Malformed]);
    assert(rs.drop_last().drop_last() =~= seq![ra]);
    assert(seq![ra].drop_last() =~= Seq::<RecordView>::empty());
    assert(last_counter(seq![ra], a) == Some(ca));
    assert(last_counter(rs.drop_last(), a) == Some(ca));
    assert(last_counter(rs, a) == Some(ca));
    assert(last_counter(rs, b) == Some(cb));
    law_batch_no_miss(v, rs, s1, a, ca);
    law_batch_no_miss(v, rs, s2, b, cb);
}

/// Acknowledgement: a record that arrives while a batch is being read is
/// taken in and acknowledged, whether it could be decoded or not.
pub proof fn law_record_acknowledged(left: u32, max_batch: u32, e: TailEvent)
    requires
        left > 0,
        e is Record,
    ensures
        takes_record(TailState::Reading { left }, e),
        tail_next(TailState::Reading { left }, max_batch, e).1 == (TailAction::Ack {
            more: left > 1,
        }),
{
}

/// What is pending is current: in a state where no session is behind, a
/// counter that is pending for a session is the one that the registry holds
/// for the resource.
pub proof fn law_pending_is_current(v: ServerView, s: usize, u: Uri)
    requires
        server_inv(v),
        consistent(v),
        caught_up(v),
        pending_for(v, s, u) is Some,
    ensures
        v.registry.contains_key(u),
        pending_for(v, s, u) == Some(v.registry[u].counter),
{
    lemma_active_index(v, s);
    let sess = session_of(v, s);
    assert(delta_has(sess.outbox, u));
    assert(sess.watched.contains_key(u));
    assert(subscribed(v.registry, u, s));
    assert(up_to_date(v, s, u));
}

/// The counter that the last command about resource `u` declares, where
/// that command is a subscription; `None` where the last command about `u`
/// unsubscribes, or no command names `u`.
pub open spec fn declared_last(cmds: Seq<CommandView>, u: Uri) -> Option<u64>
    decreases cmds.len(),
{
    if cmds.len() == 0 {
        None
    } else {
        match cmds.last() {
            CommandView::Subscribe { uri, counter } => if uri == u {
                Some(counter)
            } else {
                declared_last(cmds.drop_last(), u)
            },
            CommandView::Unsubscribe { uri } => if uri == u {
                None
            } else {
                declared_last(cmds.drop_last(), u)
            },
            CommandView::UnsubscribeAll => None,
            _ => declared_last(cmds.drop_last(), u),
        }
    }
}

/// One command changes no counter of the registry, and leaves what is
/// pending for a resource that it does not name.
pub proof fn lemma_command_counters(v: ServerView, id: usize, c: CommandView, u: Uri)
    requires
        server_inv(v),
        consistent(v),
        is_active(v, id),
    ensures
        registered_counter(apply_command(v, id, c).registry, u) == registered_counter(
            v.registry,
            u,
        ),
        is_active(apply_command(v, id, c), id),
        (match c {
            CommandView::Subscribe { uri, counter } => uri != u,
            CommandView::Unsubscribe { uri } => uri != u,
            CommandView::UnsubscribeAll => false,
            _ => true,
        }) ==> pending_for(apply_command(v, id, c), id, u) == pending_for(v, id, u),
{
    let w = apply_command(v, id, c);
    lemma_command(v, id, c);
    lemma_active_index(v, id);
    let sess = session_of(v, id);
    match c {
        CommandView::Subscribe { uri, counter } => {
            let reg = registered_counter(v.registry, uri);
            lemma_session_ops(sess, uri, 0, counter, reg);
            lemma_replace_session(v, w, id, session_subscribe(sess, uri, counter, reg));
            let watching = session_watch(sess, uri, counter);
            lemma_delta_put(watching.outbox, uri, reg);
            lemma_delta_drop(watching.outbox, uri);
        },
        CommandView::Unsubscribe { uri } => {
            lemma_session_ops(sess, uri, 0, 0, 0);
            lemma_replace_session(v, w, id, session_unwatch(sess, uri));
            lemma_delta_drop(sess.outbox, uri);
        },
        CommandView::UnsubscribeAll => {
            lemma_session_ops(sess, Seq::empty(), 0, 0, 0);
            lemma_replace_session(v, w, id, session_unwatch_all(sess));
        },
        _ => {},
    }
}

/// After a subscription, the registry's counter is pending for the session
/// exactly where it is greater than the counter that the client declared.
pub proof fn law_subscribe_pending(v: ServerView, id: usize, u: Uri, c: u64)
    requires
        server_inv(v),
        is_active(v, id),
    ensures
        pending_for(server_subscribe(v, id, u, c), id, u) == (if registered_counter(
            v.registry,
            u,
        ) > c {
            Some(registered_counter(v.registry, u))
        } else {
            None
        }),
{
    let w = server_subscribe(v, id, u, c);
    lemma_active_index(v, id);
    let sess = session_of(v, id);
    let reg = registered_counter(v.registry, u);
    lemma_session_ops(sess, u, 0, c, reg);
    lemma_replace_session(v, w, id, session_subscribe(sess, u, c, reg));
    let watching = session_watch(sess, u, c);
    lemma_delta_put(watching.outbox, u, reg);
    lemma_delta_drop(watching.outbox, u);
}

/// What a message of subscriptions leaves pending: for a resource whose
/// last command in the message is a subscription that declares `c`, the
/// registry's counter is pending where it is greater than `c`, and nothing
/// where it is not. So the reply holds no counter for the resource that the
/// client has already, and the counter that it holds is the registry's.
pub proof fn law_message_pending(v: ServerView, id: usize, cmds: Seq<CommandView>, u: Uri, c: u64)
    requires
        server_inv(v),
        consistent(v),
        is_active(v, id),
        declared_last(cmds, u) == Some(c),
    ensures
        registered_counter(run_commands(v, id, cmds).registry, u) == registered_counter(
            v.registry,
            u,
        ),
        pending_for(run_commands(v, id, cmds), id, u) == (if registered_counter(v.registry, u)
            > c {
            Some(registered_counter(v.registry, u))
        } else {
            None
        }),
    decreases cmds.len(),
{
    lemma_commands_counters(v, id, cmds, u);
    let front = cmds.drop_last();
    let m = run_commands(v, id, front);
    law_commands(v, id, front);
    lemma_commands_counters(v, id, front, u);
    lemma_command_counters(m, id, cmds.last(), u);
    match cmds.last() {
        CommandView::Subscribe { uri, counter } => {
            if uri == u {
                law_subscribe_pending(m, id, u, c);
            } else {
                law_message_pending(v, id, front, u, c);
            }
        },
        CommandView::Unsubscribe { uri } => {
            law_message_pending(v, id, front, u, c);
        },
        CommandView::UnsubscribeAll => {},
        _ => {
            law_message_pending(v, id, front, u, c);
        },
    }
}

/// Commands change no counter of the registry and leave the session open.
pub proof fn lemma_commands_counters(v: ServerView, id: usize, cmds: Seq<CommandView>, u: Uri)
    requires
        server_inv(v),
        consistent(v),
        is_active(v, id),
    ensures
        registered_counter(run_commands(v, id, cmds).registry, u) == registered_counter(
            v.registry,
            u,
        ),
        is_active(run_commands(v, id, cmds), id),
    decreases cmds.len(),
{
    if cmds.len() > 0 {
        lemma_commands_counters(v, id, cmds.drop_last(), u);
        law_commands(v, id, cmds.drop_last());
        lemma_command_counters(run_commands(v, id, cmds.drop_last()), id, cmds.last(), u);
    }
}

} // verus!
