use veda::indexer::{prefixed, prepare_element_id, update, update_prefix, Counters, Sent, Verdict};
use veda::query::{direct_query, get_individual, query, stored_query, Engine, Target};
use veda::reload::{ReloadWatch, RETRY_DELAY};
use veda::text::{contains_bytes, matches_at, replace_byte};

#[test]
fn element_of_the_identifier_queue() {
    assert_eq!(prepare_element_id(b"d:1,v-s:Doc"), Some((b"d:1".to_vec(), b"v-s:Doc".to_vec())));
    assert_eq!(prepare_element_id(b"a,b,c"), Some((b"a".to_vec(), b"b,c".to_vec())));
    assert_eq!(prepare_element_id(b",x"), Some((Vec::new(), b"x".to_vec())));
    assert_eq!(prepare_element_id(b"x,"), Some((b"x".to_vec(), Vec::new())));
    assert_eq!(prepare_element_id(b"d:1"), None);
    assert_eq!(prepare_element_id(b""), None);
}

#[test]
fn prefix_of_an_ontology() {
    assert_eq!(update_prefix(b"v-s:"), b"v-s".to_vec());
    assert_eq!(update_prefix(b"v-s"), b"v-s".to_vec());
    assert_eq!(update_prefix(b"rdf:::"), b"rdf".to_vec());
    assert_eq!(update_prefix(b"a:b:"), b"a:b".to_vec());
    assert_eq!(update_prefix(b":"), Vec::<u8>::new());
    assert_eq!(update_prefix(b""), Vec::<u8>::new());
}

#[test]
fn identifiers_of_the_platform() {
    assert!(prefixed(b"d:abc"));
    assert!(prefixed(b"v-s:Person"));
    assert!(prefixed(b"abcd:x"));
    assert!(prefixed(b"a:"));
    assert!(!prefixed(b"abcde:x"));
    assert!(!prefixed(b":x"));
    assert!(!prefixed(b"nocolon"));
    assert!(!prefixed(b""));
    assert!(!prefixed(b"http://example.org/x"));
    assert!(!prefixed(b"d:a//b"));
}

#[test]
fn answers_of_the_store() {
    let mut c = Counters { stored: 0, skipped: 0 };
    assert_eq!(update(&mut c, b"d:1", Sent::Status(201)), Verdict::Done);
    assert_eq!(update(&mut c, b"d:1", Sent::Status(204)), Verdict::Done);
    assert_eq!(c, Counters { stored: 2, skipped: 0 });
    assert_eq!(update(&mut c, b"d:1", Sent::Status(400)), Verdict::Recoverable);
    assert_eq!(update(&mut c, b"http://x/y", Sent::Status(500)), Verdict::Done);
    assert_eq!(update(&mut c, b"d:1", Sent::Status(200)), Verdict::Recoverable);
    assert_eq!(c, Counters { stored: 2, skipped: 3 });
    assert_eq!(update(&mut c, b"d:1", Sent::Failed), Verdict::Fatal);
    assert_eq!(c, Counters { stored: 2, skipped: 4 });
    assert_eq!(update(&mut c, b"d:1", Sent::NotWritten), Verdict::Done);
    assert_eq!(c, Counters { stored: 2, skipped: 4 });
    let mut full = Counters { stored: u64::MAX, skipped: u64::MAX };
    update(&mut full, b"d:1", Sent::Status(201));
    update(&mut full, b"d:1", Sent::Failed);
    assert_eq!(full, Counters { stored: u64::MAX, skipped: u64::MAX });
}

#[test]
fn engine_of_a_request() {
    assert_eq!(query(true, true), Engine::Sparql);
    assert_eq!(query(true, false), Engine::Sparql);
    assert_eq!(query(false, true), Engine::Sql);
    assert_eq!(query(false, false), Engine::FullText);
    assert!(stored_query(b"clickhouse"));
    assert!(!stored_query(b"mysql"));
    assert!(!stored_query(b"clickhouse "));
    assert!(!stored_query(b""));
}

#[test]
fn full_text_query_in_shape() {
    assert_eq!(direct_query(b"report"), b"'*' == 'report'".to_vec());
    assert_eq!(direct_query(b""), b"'*' == ''".to_vec());
    assert_eq!(direct_query(b"two\nlines"), b"'*' == 'two lines'".to_vec());
    assert_eq!(direct_query(b"'a' == 'b'"), b"'a' == 'b'".to_vec());
    assert_eq!(direct_query(b"'a' == 'b'\n&& 'c'"), b"'a' == 'b' && 'c'".to_vec());
    assert_eq!(direct_query(b"x||y"), b"x||y".to_vec());
    assert_eq!(direct_query(b"a = b & c | d"), b"'*' == 'a = b & c | d'".to_vec());
}

#[test]
fn requests_for_the_state_of_a_queue() {
    assert!(matches!(get_individual(b"d:1"), Target::Individual));
    assert!(matches!(get_individual(b""), Target::Individual));
    assert!(matches!(get_individual(b"srv:queue-state"), Target::Individual));
    assert!(matches!(
        get_individual(b"srv:queue-state-fanout"),
        Target::QueueState(name) if name == b"fanout".to_vec()
    ));
    assert!(matches!(
        get_individual(b"srv:queue-state-"),
        Target::QueueState(name) if name.is_empty()
    ));
    assert!(matches!(get_individual(b"x srv:queue-state-fanout"), Target::Refused));
}

#[test]
fn searching_and_replacing_bytes() {
    assert!(contains_bytes(b"abc", b""));
    assert!(contains_bytes(b"", b""));
    assert!(!contains_bytes(b"", b"a"));
    assert!(contains_bytes(b"abc", b"abc"));
    assert!(contains_bytes(b"abc", b"bc"));
    assert!(!contains_bytes(b"abc", b"abcd"));
    assert!(!contains_bytes(b"abab", b"bb"));
    assert!(matches_at(b"abc", b"bc", 1));
    assert!(!matches_at(b"abc", b"bc", 2));
    assert!(!matches_at(b"abc", b"bc", 9));
    assert!(matches_at(b"abc", b"", 3));
    assert!(!matches_at(b"abc", b"", 4));
    assert_eq!(replace_byte(b"a\nb\n", b'\n', b' '), b"a b ".to_vec());
    assert_eq!(replace_byte(b"", 1, 2), Vec::<u8>::new());
}

#[test]
fn store_is_reopened_when_its_marker_changes() {
    assert_eq!(RETRY_DELAY, 3);
    let mut w = ReloadWatch::new(100);
    assert!(!w.check_for_reload(Some(100)));
    assert!(!w.check_for_reload(None));
    assert!(w.check_for_reload(Some(101)));
    assert!(!w.check_for_reload(Some(101)));
    assert!(w.check_for_reload(Some(100)));
    assert!(!w.check_for_reload(None));
    assert!(!w.check_for_reload(Some(100)));
}
