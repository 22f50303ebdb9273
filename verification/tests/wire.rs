use veda::protocol::{parse_item, parse_message, Command};
use veda::record::{decode, to_counter, LogRecord};
use veda::text::{bytes_eq, find_byte, parse_unsigned, push_bytes, push_decimal, to_vec};

fn is_subscribe(c: &Command, u: &[u8], n: u64) -> bool {
    matches!(c, Command::Subscribe { uri, counter } if uri.as_slice() == u && *counter == n)
}

fn is_unsubscribe(c: &Command, u: &[u8]) -> bool {
    matches!(c, Command::Unsubscribe { uri } if uri.as_slice() == u)
}

#[test]
fn items_of_the_protocol() {
    assert!(matches!(parse_item(b"N"), Command::Start));
    assert!(matches!(parse_item(b"?"), Command::Poll));
    assert!(matches!(parse_item(b"-*"), Command::UnsubscribeAll));
    assert!(matches!(parse_item(b"ccus=ticket"), Command::Handshake));
    assert!(matches!(parse_item(b"ccus="), Command::Handshake));
    assert!(is_subscribe(&parse_item(b"+doc:1=10"), b"doc:1", 10));
    assert!(is_unsubscribe(&parse_item(b"-doc:1"), b"doc:1"));
}

#[test]
fn counter_that_is_no_number_counts_as_zero() {
    assert!(is_subscribe(&parse_item(b"+doc:1=abc"), b"doc:1", 0));
    assert!(is_subscribe(&parse_item(b"+doc:1="), b"doc:1", 0));
    assert!(is_subscribe(&parse_item(b"+doc:1=-3"), b"doc:1", 0));
    assert!(is_subscribe(&parse_item(b"+doc:1=18446744073709551616"), b"doc:1", 0));
    assert!(is_subscribe(&parse_item(b"+doc:1=18446744073709551615"), b"doc:1", u64::MAX));
    assert!(is_subscribe(&parse_item(b"+doc:1=+7"), b"doc:1", 7));
}

#[test]
fn empty_identifiers_are_taken_as_they_come() {
    assert!(is_subscribe(&parse_item(b"+=5"), b"", 5));
    assert!(is_unsubscribe(&parse_item(b"-"), b""));
    assert!(is_unsubscribe(&parse_item(b"-**"), b"**"));
}

#[test]
fn unknown_items_are_skipped() {
    for item in [
        &b""[..],
        b"x",
        b"NN",
        b"??",
        b"+doc:1",
        b"doc:1=5",
        b"xdoc:1=5",
        b"+a=1=2",
        b"=",
        b"=5",
        b"ccus",
        b"cus=x",
        b"*",
    ] {
        assert!(matches!(parse_item(item), Command::Skip), "{:?}", item);
    }
}

#[test]
fn message_is_cut_at_commas_and_at_the_handshake() {
    let cmds = parse_message(b"+a=1,,-b,zz,?,N,-*");
    assert_eq!(cmds.len(), 7);
    assert!(is_subscribe(&cmds[0], b"a", 1));
    assert!(matches!(cmds[1], Command::Skip));
    assert!(is_unsubscribe(&cmds[2], b"b"));
    assert!(matches!(cmds[3], Command::Skip));
    assert!(matches!(cmds[4], Command::Poll));
    assert!(matches!(cmds[5], Command::Start));
    assert!(matches!(cmds[6], Command::UnsubscribeAll));

    assert_eq!(parse_message(b"").len(), 1);
    assert_eq!(parse_message(b",").len(), 2);
    assert_eq!(parse_message(b"ccus=t,+a=1").len(), 0);
    let cmds = parse_message(b"+a=1,ccus=t,+b=2");
    assert_eq!(cmds.len(), 1);
    assert!(is_subscribe(&cmds[0], b"a", 1));
}

#[test]
fn decimal_numbers() {
    assert_eq!(parse_unsigned(b"0", u64::MAX), Some(0));
    assert_eq!(parse_unsigned(b"0042", u64::MAX), Some(42));
    assert_eq!(parse_unsigned(b"+42", u64::MAX), Some(42));
    assert_eq!(parse_unsigned(b"18446744073709551615", u64::MAX), Some(u64::MAX));
    assert_eq!(parse_unsigned(b"18446744073709551616", u64::MAX), None);
    assert_eq!(parse_unsigned(b"99999999999999999999999", u64::MAX), None);
    assert_eq!(parse_unsigned(b"256", 255), None);
    assert_eq!(parse_unsigned(b"255", 255), Some(255));
    assert_eq!(parse_unsigned(b"", u64::MAX), None);
    assert_eq!(parse_unsigned(b"+", u64::MAX), None);
    assert_eq!(parse_unsigned(b"-1", u64::MAX), None);
    assert_eq!(parse_unsigned(b"1 ", u64::MAX), None);
    assert_eq!(parse_unsigned(b"++1", u64::MAX), None);
    assert_eq!(parse_unsigned(b"12a", u64::MAX), None);

    let mut out = b"n=".to_vec();
    push_decimal(&mut out, 0);
    out.push(b',');
    push_decimal(&mut out, 907);
    out.push(b',');
    push_decimal(&mut out, u64::MAX);
    assert_eq!(out, b"n=0,907,18446744073709551615".to_vec());
}

#[test]
fn decimal_round_trip() {
    for n in [0u64, 1, 9, 10, 99, 100, 12345, u64::MAX - 1, u64::MAX] {
        let mut out = Vec::new();
        push_decimal(&mut out, n);
        assert_eq!(out, n.to_string().into_bytes());
        assert_eq!(parse_unsigned(&out, u64::MAX), Some(n));
    }
}

#[test]
fn byte_strings() {
    assert!(bytes_eq(b"", b""));
    assert!(bytes_eq(b"abc", b"abc"));
    assert!(!bytes_eq(b"abc", b"abd"));
    assert!(!bytes_eq(b"abc", b"ab"));
    assert_eq!(to_vec(b"xyz"), b"xyz".to_vec());
    let mut out = b"ab".to_vec();
    push_bytes(&mut out, b"cd");
    push_bytes(&mut out, b"");
    assert_eq!(out, b"abcd".to_vec());
    assert_eq!(find_byte(b"a,b,c", 0, b','), 1);
    assert_eq!(find_byte(b"a,b,c", 2, b','), 3);
    assert_eq!(find_byte(b"a,b,c", 4, b','), 5);
    assert_eq!(find_byte(b"a,b,c", 5, b','), 5);
}

#[test]
fn records_are_decoded_from_their_fields() {
    assert!(matches!(decode(None, Some(5)), LogRecord::Malformed));
    assert!(matches!(decode(None, None), LogRecord::Malformed));
    assert!(matches!(
        decode(Some(b"d:1".to_vec()), Some(5)),
        LogRecord::Change { uri, counter: 5 } if uri == b"d:1".to_vec()
    ));
    assert!(matches!(decode(Some(b"d:1".to_vec()), None), LogRecord::Malformed));
    assert!(matches!(
        decode(Some(b"d:1".to_vec()), Some(0)),
        LogRecord::Change { counter: 0, .. }
    ));
    assert!(matches!(
        decode(Some(Vec::new()), Some(-1)),
        LogRecord::Change { counter: u64::MAX, .. }
    ));
    assert_eq!(to_counter(0), 0);
    assert_eq!(to_counter(i64::MAX), i64::MAX as u64);
    assert_eq!(to_counter(-1), u64::MAX);
    assert_eq!(to_counter(i64::MIN), 1u64 << 63);
    assert_eq!(to_counter(-7), (-7i64) as u64);
}
