use veda::handler::{Frame, MyWebSocket, Output, BL_INTERVAL, CLIENT_TIMEOUT, HEARTBEAT_INTERVAL};
use veda::record::{decode, LogRecord};
use veda::registry::{Registry, SubscribeElement};
use veda::server::CCUSServer;
use veda::session::SessionState;
use veda::tail::{backlog, classify, QueueError, Severity, TailAction, TailEvent, TailState, Tailer};

fn change(uri: &[u8], counter: u64) -> TailEvent {
    TailEvent::Record { record: LogRecord::Change { uri: uri.to_vec(), counter } }
}

#[test]
fn tick_reads_the_backlog_and_delivers() {
    let mut server = CCUSServer::new();
    let s1 = server.connect().unwrap();
    server.prepare_command(b"+a=0,+b=0", s1);
    let mut tail = Tailer::new(100);
    assert_eq!(tail.step(&mut server, TailEvent::Tick), TailAction::QueryPart);
    assert_eq!(tail.current(), TailState::AwaitPart);
    assert_eq!(
        tail.step(&mut server, TailEvent::PartInfo { pushed: 13, popped: 10 }),
        TailAction::Read
    );
    assert_eq!(tail.current(), TailState::Reading { left: 3 });
    assert_eq!(tail.step(&mut server, change(b"a", 1)), TailAction::Ack { more: true });
    assert_eq!(
        tail.step(&mut server, TailEvent::Record { record: LogRecord::Malformed }),
        TailAction::Ack { more: true }
    );
    assert_eq!(tail.step(&mut server, change(b"b", 2)), TailAction::Ack { more: false });
    assert_eq!(tail.current(), TailState::Idle);
    assert_eq!(tail.total_prepared_count(), 3);
    let out = server.take_deltas();
    assert_eq!(out.len(), 1);
    assert_eq!(out[0].msg.0, b"a=1,b=2".to_vec());
}

#[test]
fn record_without_a_counter_is_acknowledged_and_passed_over() {
    let mut server = CCUSServer::new();
    let s1 = server.connect().unwrap();
    server.prepare_command(b"+doc:1=0", s1);
    let mut tail = Tailer::new(10);
    tail.step(&mut server, TailEvent::Tick);
    tail.step(&mut server, TailEvent::PartInfo { pushed: 2, popped: 0 });
    assert_eq!(tail.step(&mut server, change(b"doc:1", 5)), TailAction::Ack { more: true });
    assert_eq!(server.take_delta(s1), b"doc:1=5".to_vec());
    let nameless = TailEvent::Record { record: decode(Some(b"doc:1".to_vec()), None) };
    assert_eq!(tail.step(&mut server, nameless), TailAction::Ack { more: false });
    assert!(server.take_deltas().is_empty());
    assert_eq!(server.subscribe(b"doc:1", 9, s1), 5);
}

#[test]
fn tail_step_over_a_batch() {
    let mut server = CCUSServer::new();
    let s1 = server.connect().unwrap();
    let s2 = server.connect().unwrap();
    server.prepare_command(b"+A=0", s1);
    server.prepare_command(b"+B=0,+A=0", s2);
    let batch = server.tail_step(&[
        LogRecord::Change { uri: b"A".to_vec(), counter: 1 },
        LogRecord::Malformed,
        decode(Some(b"B".to_vec()), None),
        LogRecord::Change { uri: b"B".to_vec(), counter: 2 },
        LogRecord::Change { uri: b"A".to_vec(), counter: 3 },
        LogRecord::Change { uri: b"C".to_vec(), counter: 4 },
    ]);
    assert_eq!(batch.acked, 6);
    assert_eq!(batch.deliveries.len(), 2);
    assert_eq!((batch.deliveries[0].id, batch.deliveries[0].msg.0.clone()), (s1, b"A=3".to_vec()));
    assert_eq!(
        (batch.deliveries[1].id, batch.deliveries[1].msg.0.clone()),
        (s2, b"A=3,B=2".to_vec())
    );
    let batch = server.tail_step(&[]);
    assert_eq!(batch.acked, 0);
    assert!(batch.deliveries.is_empty());
}

#[test]
fn batch_is_bounded() {
    let mut server = CCUSServer::new();
    let mut tail = Tailer::new(2);
    tail.step(&mut server, TailEvent::Tick);
    assert_eq!(
        tail.step(&mut server, TailEvent::PartInfo { pushed: 1000, popped: 10 }),
        TailAction::Read
    );
    assert_eq!(tail.current(), TailState::Reading { left: 2 });
    assert_eq!(tail.step(&mut server, change(b"a", 1)), TailAction::Ack { more: true });
    assert_eq!(tail.step(&mut server, change(b"a", 2)), TailAction::Ack { more: false });
    assert_eq!(tail.step(&mut server, change(b"a", 3)), TailAction::Wait);
    assert_eq!(tail.total_prepared_count(), 2);
}

#[test]
fn empty_backlog_asks_for_a_new_segment() {
    let mut server = CCUSServer::new();
    let mut tail = Tailer::new(10);
    tail.step(&mut server, TailEvent::Tick);
    assert_eq!(
        tail.step(&mut server, TailEvent::PartInfo { pushed: 7, popped: 7 }),
        TailAction::QuerySegment
    );
    assert_eq!(
        tail.step(&mut server, TailEvent::SegmentInfo { queue_part: 4, consumer_part: 3 }),
        TailAction::Read
    );
    assert_eq!(tail.current(), TailState::Reading { left: 1 });
    assert_eq!(tail.step(&mut server, TailEvent::EndOfLog), TailAction::Finish { report: false });

    tail.step(&mut server, TailEvent::Tick);
    tail.step(&mut server, TailEvent::PartInfo { pushed: 5, popped: 7 });
    assert_eq!(
        tail.step(&mut server, TailEvent::SegmentInfo { queue_part: 3, consumer_part: 3 }),
        TailAction::Wait
    );
    assert_eq!(tail.current(), TailState::Idle);
}

#[test]
fn read_errors_end_the_batch() {
    let mut server = CCUSServer::new();
    let mut tail = Tailer::new(10);
    tail.step(&mut server, TailEvent::Tick);
    assert_eq!(
        tail.step(&mut server, TailEvent::PartFailed { error: QueueError::FailOpen }),
        TailAction::Finish { report: true }
    );
    tail.step(&mut server, TailEvent::Tick);
    tail.step(&mut server, TailEvent::PartInfo { pushed: 2, popped: 0 });
    assert_eq!(
        tail.step(&mut server, TailEvent::ReadFailed { error: QueueError::FailReadTailMessage }),
        TailAction::Finish { report: false }
    );
    tail.step(&mut server, TailEvent::Tick);
    tail.step(&mut server, TailEvent::PartInfo { pushed: 2, popped: 0 });
    assert_eq!(
        tail.step(&mut server, TailEvent::ReadFailed { error: QueueError::InvalidChecksum }),
        TailAction::Finish { report: true }
    );
    assert_eq!(tail.current(), TailState::Idle);
}

#[test]
fn unexpected_events_reset_the_tail_step() {
    let mut server = CCUSServer::new();
    let s1 = server.connect().unwrap();
    server.prepare_command(b"+a=0", s1);
    let mut tail = Tailer::new(10);
    assert_eq!(tail.step(&mut server, change(b"a", 1)), TailAction::Wait);
    assert_eq!(server.take_delta(s1), b"".to_vec());
    assert_eq!(tail.step(&mut server, TailEvent::EndOfLog), TailAction::Wait);
    tail.step(&mut server, TailEvent::Tick);
    assert_eq!(tail.step(&mut server, TailEvent::Tick), TailAction::Wait);
    assert_eq!(tail.current(), TailState::Idle);
    let mut none = Tailer::new(0);
    none.step(&mut server, TailEvent::Tick);
    assert_eq!(none.step(&mut server, TailEvent::PartInfo { pushed: 2, popped: 0 }), TailAction::Wait);
}

#[test]
fn backlog_and_severity() {
    assert_eq!(backlog(10, 4), 6);
    assert_eq!(backlog(4, 4), 0);
    assert_eq!(backlog(3, 4), 0);
    assert_eq!(backlog(u32::MAX, 0), u32::MAX);
    assert_eq!(classify(QueueError::FailReadTailMessage), Severity::Transient);
    for e in [
        QueueError::NotReady,
        QueueError::AlreadyOpen,
        QueueError::FailWrite,
        QueueError::InvalidChecksum,
        QueueError::FailOpen,
        QueueError::FailRead,
        QueueError::NotFound,
        QueueError::Other,
    ] {
        assert_eq!(classify(e), Severity::Fatal);
    }
}

#[test]
fn statistics_are_reported_when_they_change() {
    let mut server = CCUSServer::new();
    assert_eq!(server.stat(), None);
    let s1 = server.connect().unwrap();
    assert_eq!(server.stat(), Some((1, 0)));
    assert_eq!(server.stat(), None);
    server.prepare_command(b"+a=0,+b=0", s1);
    assert_eq!(server.uri_count(), 2);
    assert_eq!(server.stat(), Some((1, 2)));
    server.prepare_command(b"-*", s1);
    assert_eq!(server.stat(), None);
}

fn text(out: Output) -> Option<Vec<u8>> {
    match out {
        Output::Text(t) => Some(t),
        _ => None,
    }
}

#[test]
fn handler_follows_the_life_of_a_session() {
    let mut server = CCUSServer::new();
    let mut other = MyWebSocket::new(0);
    other.started(&mut server);
    let mut h = MyWebSocket::new(1000);
    assert!(!h.is_active());
    assert!(matches!(h.handle(&mut server, Frame::Text(b"+a=0".to_vec()), 1001), Output::Nothing));
    assert!(matches!(h.started(&mut server), Output::Nothing));
    assert!(h.is_active());
    assert_eq!(h.id(), 2);
    assert!(matches!(h.started(&mut server), Output::Nothing));
    assert_eq!(server.session_count(), 2);

    assert!(matches!(h.handle(&mut server, Frame::Text(b"+a=0".to_vec()), 1002), Output::Nothing));
    server.ingest(b"a", 9);
    assert_eq!(text(h.bl(&mut server)), Some(b"a=9".to_vec()));
    assert!(matches!(h.bl(&mut server), Output::Nothing));
    assert_eq!(h.snd_rcv_subsrc(&mut server, b"+a=3"), b"a=9".to_vec());

    assert!(matches!(h.handle(&mut server, Frame::Ping(b"x".to_vec()), 2000), Output::Pong(p) if p == b"x".to_vec()));
    assert!(matches!(h.handle(&mut server, Frame::Pong(Vec::new()), 3000), Output::Nothing));
    assert!(matches!(h.handle(&mut server, Frame::Binary(b"\x00\x01".to_vec()), 3000), Output::Binary(b) if b == vec![0u8, 1]));
    assert!(matches!(h.handle(&mut server, Frame::Nop, 3000), Output::Nothing));

    assert!(matches!(h.handle(&mut server, Frame::Close, 4000), Output::Stop));
    assert!(!h.is_active());
    assert!(!server.is_open(2));
    assert_eq!(server.uri_count(), 0);
    assert!(matches!(h.handle(&mut server, Frame::Text(b"?".to_vec()), 4001), Output::Nothing));
    assert!(matches!(h.hb(&mut server, 999_999), Output::Nothing));
    h.finished(&mut server);
    assert!(server.is_open(1));
}

#[test]
fn heartbeat_gives_up_a_silent_client() {
    assert_eq!((HEARTBEAT_INTERVAL, CLIENT_TIMEOUT, BL_INTERVAL), (5000, 60000, 1000));
    let mut server = CCUSServer::new();
    let mut h = MyWebSocket::new(1000);
    h.started(&mut server);
    assert!(matches!(h.hb(&mut server, 6000), Output::Ping));
    assert!(matches!(h.hb(&mut server, 61_000), Output::Ping));
    assert!(matches!(h.hb(&mut server, 500), Output::Ping));
    h.handle(&mut server, Frame::Pong(Vec::new()), 50_000);
    assert!(matches!(h.hb(&mut server, 110_000), Output::Ping));
    assert!(matches!(h.hb(&mut server, 110_001), Output::Stop));
    assert!(!h.is_active());
    assert!(!server.is_open(1));
}

#[test]
fn finished_connection_closes_the_session() {
    let mut server = CCUSServer::new();
    let mut h = MyWebSocket::new(0);
    h.started(&mut server);
    h.handle(&mut server, Frame::Text(b"+a=0".to_vec()), 1);
    h.finished(&mut server);
    assert!(!h.is_active());
    assert_eq!(server.session_count(), 0);
    assert_eq!(server.uri_count(), 0);
}

#[test]
fn registry_operations() {
    let mut r = Registry::new();
    assert_eq!(r.len(), 0);
    assert_eq!(r.counter(b"a"), None);
    assert_eq!(r.subscribe(b"a", 1), 0);
    assert_eq!(r.subscribe(b"a", 2), 0);
    assert_eq!(r.subscribe(b"a", 1), 0);
    assert!(r.is_subscribed(b"a", 1) && r.is_subscribed(b"a", 2));
    assert!(!r.is_subscribed(b"a", 3) && !r.is_subscribed(b"b", 1));
    assert!(!r.ingest(b"b", 4));
    assert!(r.ingest(b"a", 4));
    assert!(!r.ingest(b"a", 4));
    assert!(r.ingest(b"a", 2));
    assert_eq!(r.counter(b"a"), Some(2));
    assert_eq!(r.subscribe(b"a", 3), 2);
    r.unsubscribe(b"a", 1);
    r.unsubscribe(b"zzz", 1);
    assert!(!r.is_subscribed(b"a", 1));
    assert_eq!(r.len(), 1);
    r.subscribe(b"b", 2);
    r.unsubscribe_all(2, false);
    assert_eq!(r.len(), 2);
    r.unsubscribe_all(2, true);
    assert_eq!(r.len(), 1);
    assert!(r.is_subscribed(b"a", 3));
    r.unsubscribe_all(3, true);
    assert_eq!(r.len(), 0);
}

#[test]
fn registry_entry() {
    let mut e = SubscribeElement::default();
    assert_eq!((e.counter(), e.subscribers()), (0, 0));
    e.insert(7);
    e.insert(7);
    e.insert(8);
    assert_eq!(e.subscribers(), 2);
    assert!(e.contains(7) && e.contains(8) && !e.contains(9));
    e.remove(7);
    e.remove(7);
    e.set_counter(5);
    assert_eq!((e.counter(), e.subscribers()), (5, 1));
}

#[test]
fn session_state() {
    let mut s = SessionState::new(4);
    assert_eq!(s.id(), 4);
    assert!(!s.has_pending());
    s.mark(b"a", 1);
    assert!(!s.has_pending());
    s.watch(b"a", 9);
    s.watch(b"a", 3);
    s.watch(b"b", 0);
    assert_eq!(s.last_acked(b"a"), Some(3));
    assert_eq!(s.last_acked(b"c"), None);
    s.mark(b"b", 2);
    s.mark(b"a", 5);
    s.mark(b"b", 6);
    assert!(s.has_pending());
    assert_eq!(s.take_delta(), b"b=6,a=5".to_vec());
    assert_eq!(s.last_acked(b"a"), Some(5));
    assert_eq!(s.last_acked(b"b"), Some(6));
    assert_eq!(s.take_delta(), b"".to_vec());
    s.mark(b"a", 7);
    s.mark(b"b", 8);
    s.unwatch(b"a");
    assert_eq!(s.last_acked(b"a"), None);
    assert_eq!(s.take_delta(), b"b=8".to_vec());
    s.mark(b"b", 9);
    s.unmark(b"a");
    s.unmark(b"b");
    assert!(!s.has_pending());
    assert_eq!(s.last_acked(b"b"), Some(8));
    s.mark(b"b", 9);
    s.unwatch_all();
    assert!(!s.has_pending());
    assert_eq!(s.last_acked(b"b"), None);
}
