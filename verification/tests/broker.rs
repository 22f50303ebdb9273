use veda::record::LogRecord;
use veda::server::{CCUSServer, ClientMessage, Disconnect};

fn change(uri: &[u8], counter: u64) -> LogRecord {
    LogRecord::Change { uri: uri.to_vec(), counter }
}

#[test]
fn subscriber_learns_of_an_ingested_change() {
    let mut server = CCUSServer::new();
    let s1 = server.connect().unwrap();
    let reply = server.prepare_command(b"+doc:1=0", s1);
    assert_eq!(reply, b"".to_vec());
    assert!(server.ingest(b"doc:1", 5));
    let out = server.take_deltas();
    assert_eq!(out.len(), 1);
    assert_eq!(out[0].id, s1);
    assert_eq!(out[0].msg.0, b"doc:1=5".to_vec());
    assert_eq!(server.prepare_command(b"?", s1), b"".to_vec());
}

#[test]
fn poll_hands_out_what_is_pending() {
    let mut server = CCUSServer::new();
    let s1 = server.connect().unwrap();
    server.prepare_command(b"+doc:1=0", s1);
    server.ingest(b"doc:1", 5);
    assert_eq!(server.prepare_command(b"?", s1), b"doc:1=5".to_vec());
    assert_eq!(server.prepare_command(b"?", s1), b"".to_vec());
}

#[test]
fn client_that_is_ahead_gets_no_notification() {
    let mut server = CCUSServer::new();
    let s0 = server.connect().unwrap();
    let s1 = server.connect().unwrap();
    server.prepare_command(b"+doc:1=0", s0);
    server.ingest(b"doc:1", 3);
    server.take_deltas();
    assert_eq!(server.subscribe(b"doc:1", 10, s1), 3);
    assert_eq!(server.take_delta(s1), b"".to_vec());
    assert_eq!(server.prepare_command(b"+doc:1=10", s1), b"".to_vec());
}

#[test]
fn client_that_is_behind_is_told_at_once() {
    let mut server = CCUSServer::new();
    let s0 = server.connect().unwrap();
    let s1 = server.connect().unwrap();
    server.prepare_command(b"+doc:1=0", s0);
    server.ingest(b"doc:1", 3);
    assert_eq!(server.prepare_command(b"+doc:1=2", s1), b"doc:1=3".to_vec());
}

#[test]
fn entries_are_pruned_on_disconnect_only() {
    let mut server = CCUSServer::new();
    let s1 = server.connect().unwrap();
    let s2 = server.connect().unwrap();
    server.prepare_command(b"+a=0,+b=0", s1);
    server.ingest(b"a", 4);
    server.take_deltas();
    server.prepare_command(b"-*", s1);
    // the entry survived `-*`: its counter is still on record
    assert_eq!(server.subscribe(b"a", 9, s2), 4);
    server.prepare_command(b"-a", s2);
    server.disconnect(Disconnect { id: s1 });
    // the disconnect pruned the entries that nobody watches
    assert_eq!(server.subscribe(b"a", 9, s2), 0);
    assert!(!server.is_open(s1));
}

#[test]
fn two_sessions_both_receive_the_change() {
    let mut server = CCUSServer::new();
    let s1 = server.connect().unwrap();
    let s2 = server.connect().unwrap();
    server.prepare_command(b"+doc:9=0", s1);
    server.prepare_command(b"+doc:9=0", s2);
    server.ingest(b"doc:9", 7);
    assert_eq!(server.prepare_command(b"?", s2), b"doc:9=7".to_vec());
    let out = server.take_deltas();
    assert_eq!(out.len(), 1);
    assert_eq!((out[0].id, out[0].msg.0.clone()), (s1, b"doc:9=7".to_vec()));
}

#[test]
fn malformed_record_does_not_block_the_batch() {
    let mut server = CCUSServer::new();
    let s1 = server.connect().unwrap();
    server.prepare_command(b"+A=0,+B=0", s1);
    server.ingest_batch(&[change(b"A", 1), LogRecord::Malformed, change(b"B", 2)]);
    assert_eq!(server.take_delta(s1), b"A=1,B=2".to_vec());
}

#[test]
fn batch_is_coalesced_to_the_last_counter() {
    let mut server = CCUSServer::new();
    let s1 = server.connect().unwrap();
    server.prepare_command(b"+A=0,+B=0", s1);
    server.ingest_batch(&[change(b"A", 1), change(b"B", 2), change(b"A", 3)]);
    assert_eq!(server.take_delta(s1), b"A=3,B=2".to_vec());
}

#[test]
fn resubscribing_does_not_duplicate_delivery() {
    let mut server = CCUSServer::new();
    let s1 = server.connect().unwrap();
    server.prepare_command(b"+A=0", s1);
    server.prepare_command(b"+A=0", s1);
    server.ingest(b"A", 1);
    let out = server.take_deltas();
    assert_eq!(out.len(), 1);
    assert_eq!(out[0].msg.0, b"A=1".to_vec());
}

#[test]
fn handshake_stops_the_message() {
    let mut server = CCUSServer::new();
    let s1 = server.connect().unwrap();
    let s2 = server.connect().unwrap();
    server.prepare_command(b"+A=0", s2);
    server.ingest(b"A", 5);
    let reply = server.handle(ClientMessage { id: s1, msg: b"ccus=ticket,+A=0".to_vec() });
    assert_eq!(reply.0, b"".to_vec());
    let reply = server.handle(ClientMessage { id: s1, msg: b"x,+A=0,a=b=c,ccus=t,?".to_vec() });
    assert_eq!(reply.0, b"A=5".to_vec());
}

#[test]
fn closed_session_is_ignored() {
    let mut server = CCUSServer::new();
    assert_eq!(server.connect(), Some(1));
    assert_eq!(server.connect(), Some(2));
    server.disconnect(Disconnect { id: 1 });
    assert_eq!(server.prepare_command(b"+A=0,?", 1), b"".to_vec());
    assert_eq!(server.subscribe(b"A", 0, 1), 0);
    assert!(!server.ingest(b"A", 3));
    assert_eq!(server.connect(), Some(3));
    assert_eq!(server.session_count(), 2);
}

fn counter_of(reply: &[u8], uri: &[u8]) -> Option<u64> {
    let text = String::from_utf8(reply.to_vec()).unwrap();
    let uri = String::from_utf8(uri.to_vec()).unwrap();
    text.split(',').find_map(|pair| {
        let (u, c) = pair.split_once('=')?;
        if u == uri {
            c.parse().ok()
        } else {
            None
        }
    })
}

#[test]
fn deliveries_do_not_go_down_while_the_log_does_not() {
    let mut server = CCUSServer::new();
    let s1 = server.connect().unwrap();
    let s2 = server.connect().unwrap();
    server.prepare_command(b"+u=0,+w=0", s1);
    let mut seen: Vec<u64> = Vec::new();
    let log: [(&[u8], u64); 9] = [
        (b"u", 1),
        (b"w", 9),
        (b"u", 1),
        (b"u", 4),
        (b"x", 2),
        (b"u", 4),
        (b"u", 7),
        (b"w", 10),
        (b"u", 12),
    ];
    for (i, (uri, counter)) in log.iter().enumerate() {
        server.ingest(uri, *counter);
        if i % 2 == 0 {
            let reply = server.prepare_command(b"?", s1);
            seen.extend(counter_of(&reply, b"u"));
        }
        if i == 3 {
            // the session leaves for a while; the entry is pruned in between
            server.prepare_command(b"-u", s1);
            server.disconnect(Disconnect { id: s2 });
            server.prepare_command(b"+u=0", s1);
        }
    }
    seen.extend(counter_of(&server.take_delta(s1), b"u"));
    assert_eq!(seen, vec![1, 7, 12]);
    assert!(seen.windows(2).all(|w| w[0] <= w[1]));
}

#[test]
fn subscribe_racing_an_ingest_misses_nothing() {
    // the subscription comes first
    let mut server = CCUSServer::new();
    let s0 = server.connect().unwrap();
    let s1 = server.connect().unwrap();
    server.prepare_command(b"+doc=3", s0);
    server.ingest(b"doc", 3);
    server.take_deltas();
    assert_eq!(server.prepare_command(b"+doc=3", s1), b"".to_vec());
    server.ingest(b"doc", 8);
    assert_eq!(server.prepare_command(b"?", s1), b"doc=8".to_vec());

    // the record comes first
    let mut server = CCUSServer::new();
    let s0 = server.connect().unwrap();
    let s1 = server.connect().unwrap();
    server.prepare_command(b"+doc=3", s0);
    server.ingest(b"doc", 3);
    server.take_deltas();
    server.ingest(b"doc", 8);
    assert_eq!(server.prepare_command(b"+doc=3", s1), b"doc=8".to_vec());
}

#[test]
fn unsubscribed_session_is_not_told() {
    let mut server = CCUSServer::new();
    let s1 = server.connect().unwrap();
    let s2 = server.connect().unwrap();
    server.prepare_command(b"+a=0,+b=0", s1);
    server.prepare_command(b"+a=0", s2);
    server.ingest(b"a", 1);
    server.ingest(b"b", 1);
    server.prepare_command(b"-a", s1);
    let out = server.take_deltas();
    assert_eq!(out.len(), 2);
    assert_eq!((out[0].id, out[0].msg.0.clone()), (s1, b"b=1".to_vec()));
    assert_eq!((out[1].id, out[1].msg.0.clone()), (s2, b"a=1".to_vec()));
    server.ingest(b"a", 2);
    assert_eq!(server.take_delta(s1), b"".to_vec());
    assert_eq!(server.take_delta(s2), b"a=2".to_vec());
}

#[test]
fn record_with_the_registered_counter_changes_nothing() {
    let mut server = CCUSServer::new();
    let s1 = server.connect().unwrap();
    server.prepare_command(b"+a=0", s1);
    assert!(!server.ingest(b"a", 0));
    assert!(server.ingest(b"a", 5));
    server.take_deltas();
    assert!(!server.ingest(b"a", 5));
    assert!(server.take_deltas().is_empty());
    assert!(!server.on_record(&LogRecord::Malformed));
    assert!(!server.on_record(&change(b"zzz", 1)));
    assert!(server.on_record(&change(b"a", 6)));
}

#[test]
fn client_that_declares_it_is_ahead_is_not_handed_what_it_has() {
    let mut server = CCUSServer::new();
    let s1 = server.connect().unwrap();
    server.prepare_command(b"+U=0,+W=0", s1);
    server.ingest(b"U", 5);
    server.ingest(b"W", 3);
    // U=5 is pending; the client now says that it has 7 of U already
    assert_eq!(server.prepare_command(b"+U=7,?", s1), b"W=3".to_vec());
    server.ingest(b"U", 8);
    assert_eq!(server.prepare_command(b"+U=8", s1), b"".to_vec());
    assert_eq!(server.prepare_command(b"?", s1), b"".to_vec());
    assert_eq!(server.prepare_command(b"+U=2", s1), b"U=8".to_vec());
}

#[test]
fn reply_to_subscriptions_holds_what_the_registry_is_ahead_by() {
    let mut server = CCUSServer::new();
    let s0 = server.connect().unwrap();
    let s1 = server.connect().unwrap();
    server.prepare_command(b"+a=0,+b=0,+c=0", s0);
    server.tail_step(&[change(b"a", 4), change(b"b", 6), change(b"c", 9)]);
    assert_eq!(server.prepare_command(b"+a=4,+b=5,+c=0,+d=0", s1), b"b=6,c=9".to_vec());
    assert_eq!(server.prepare_command(b"+c=1,+c=9", s1), b"".to_vec());
    assert_eq!(server.prepare_command(b"+c=9,+c=1", s1), b"c=9".to_vec());
}
