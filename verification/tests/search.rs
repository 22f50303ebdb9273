use veda::key2slot::{push_hex_upper, render, Key2Slot};
use veda::vql::{delim, is_op, priority, process_op, Decor, Operator, TTA};

fn shown(src: &str) -> Option<String> {
    TTA::parse_expr(src).map(|t| t.to_string())
}

#[test]
fn new_node_has_the_given_parts() {
    let l = TTA::new("a", None, None, Decor::QUOTED);
    let t = TTA::new("==", Some(Box::new(l)), None, Decor::NONE);
    assert_eq!(t.op(), "==");
    assert_eq!(t.decor(), Decor::NONE);
    assert_eq!(t.left().unwrap().op(), "a");
    assert_eq!(t.left().unwrap().decor(), Decor::QUOTED);
    assert!(t.right().is_none());
    assert_eq!(t.to_string(), "op===\nL=op=a");
}

#[test]
fn quoted_comparison() {
    let t = TTA::parse_expr("'a' == 'b'").unwrap();
    assert_eq!(t.op(), "==");
    assert_eq!(t.decor(), Decor::NONE);
    assert_eq!(t.left().unwrap().op(), "a");
    assert_eq!(t.left().unwrap().decor(), Decor::QUOTED);
    assert_eq!(t.right().unwrap().op(), "b");
    assert_eq!(t.to_string(), "op===\nL=op=a\nR=op=b");
}

#[test]
fn bare_comparison() {
    let t = TTA::parse_expr("a == b").unwrap();
    assert_eq!(t.to_string(), "op===\nL=op=a\nR=op=b");
    assert_eq!(t.left().unwrap().decor(), Decor::NONE);
}

#[test]
fn other_operators() {
    assert_eq!(shown("'a' != 'b'"), Some("op=!=\nL=op=a\nR=op=b".to_string()));
    assert_eq!(shown("'a' =* 'b'"), Some("op==*\nL=op=a\nR=op=b".to_string()));
    assert_eq!(shown("'a' =+ 'b'"), Some("op==+\nL=op=a\nR=op=b".to_string()));
    assert_eq!(shown("'a' === 'b'"), Some("op====\nL=op=a\nR=op=b".to_string()));
    assert_eq!(shown("'a' < 'b'"), Some("op=<\nL=op=a\nR=op=b".to_string()));
    assert_eq!(shown("'a' >= 'b'"), Some("op=>=\nL=op=a\nR=op=b".to_string()));
    assert_eq!(shown("'a' || 'b'"), Some("op=||\nL=op=a\nR=op=b".to_string()));
}

#[test]
fn range_and_backtick_operands_are_quoted() {
    let t = TTA::parse_expr("'v-s:created' == [2020,2021]").unwrap();
    assert_eq!(t.left().unwrap().op(), "v-s:created");
    assert_eq!(t.right().unwrap().op(), "2020,2021");
    assert_eq!(t.right().unwrap().decor(), Decor::QUOTED);
    let t = TTA::parse_expr("`x y`").unwrap();
    assert_eq!(t.op(), "x y");
    assert_eq!(t.decor(), Decor::QUOTED);
}

#[test]
fn operand_in_another_script() {
    let t = TTA::parse_expr("'rdfs:label' == 'документ'").unwrap();
    assert_eq!(t.right().unwrap().op(), "документ");
}

#[test]
fn unclosed_quote_runs_to_the_end() {
    assert_eq!(shown("'abc"), Some("op=abc".to_string()));
}

#[test]
fn parentheses_around_a_comparison() {
    assert_eq!(shown("(a == b)"), Some("op===\nL=op=a\nR=op=b".to_string()));
    assert_eq!(shown("('a' == 'b')"), Some("op===\nL=op=a\nR=op=b".to_string()));
}

#[test]
fn operator_that_binds_no_more_strongly_is_dropped() {
    assert_eq!(
        shown("'a' == 'b' && 'c' == 'd'"),
        Some("op===\nL=op=c\nR=op=d".to_string())
    );
    assert_eq!(
        shown("'a' && 'b' || 'c'"),
        Some("op=||\nL=op=&&\nL=op=a\nR=op=b\nR=op=c".to_string())
    );
}

#[test]
fn closing_parenthesis_takes_the_operator_below_with_it() {
    assert_eq!(shown("'a' && ('b')"), Some("op=b".to_string()));
}

#[test]
fn operator_inside_parentheses_drops_the_opening_one() {
    assert_eq!(
        shown("'a' && ('b' || 'c')"),
        Some("op=&&\nL=op=a\nR=op=||\nL=op=b\nR=op=c".to_string())
    );
}

#[test]
fn text_without_operand_gives_nothing() {
    assert!(TTA::parse_expr("").is_none());
    assert!(TTA::parse_expr("   \t\r\n").is_none());
    assert!(TTA::parse_expr("()").is_none());
}

#[test]
fn text_that_cannot_be_read_gives_nothing() {
    assert!(TTA::parse_expr("a==b").is_none());
    assert!(TTA::parse_expr("=").is_none());
    assert!(TTA::parse_expr("(-").is_none());
    assert!(TTA::parse_expr("x(-").is_none());
}

#[test]
fn stop_byte_at_the_end_is_an_empty_operand() {
    assert_eq!(shown("a=="), Some("op=".to_string()));
}

#[test]
fn operators_are_recognised() {
    assert_eq!(is_op(b">"), Some(Operator::Gt));
    assert_eq!(is_op(b"<"), Some(Operator::Lt));
    assert_eq!(is_op(b">="), Some(Operator::Ge));
    assert_eq!(is_op(b"<="), Some(Operator::Le));
    assert_eq!(is_op(b"=="), Some(Operator::Eq));
    assert_eq!(is_op(b"!="), Some(Operator::Ne));
    assert_eq!(is_op(b"=*"), Some(Operator::Like));
    assert_eq!(is_op(b"=+"), Some(Operator::Plus));
    assert_eq!(is_op(b"||"), Some(Operator::Or));
    assert_eq!(is_op(b"&&"), Some(Operator::And));
    assert_eq!(is_op(b"==="), Some(Operator::Same));
    assert_eq!(is_op(b">x"), Some(Operator::Gt));
    assert_eq!(is_op(b"<x"), Some(Operator::Lt));
    assert_eq!(is_op(b"=*="), None);
    assert_eq!(is_op(b"="), None);
    assert_eq!(is_op(b""), None);
    assert_eq!(is_op(b"===="), None);
    assert_eq!(is_op(b"ab"), None);
}

#[test]
fn priorities() {
    assert_eq!(priority(Operator::Lt), 4);
    assert_eq!(priority(Operator::Le), 4);
    assert_eq!(priority(Operator::Gt), 4);
    assert_eq!(priority(Operator::Ge), -1);
    assert_eq!(priority(Operator::Eq), 3);
    assert_eq!(priority(Operator::Ne), 3);
    assert_eq!(priority(Operator::Like), 3);
    assert_eq!(priority(Operator::Plus), 3);
    assert_eq!(priority(Operator::Same), 3);
    assert_eq!(priority(Operator::And), 2);
    assert_eq!(priority(Operator::Or), 1);
    assert_eq!(priority(Operator::Open), -1);
}

#[test]
fn delimiters() {
    assert!(delim(b' ') && delim(b'\t') && delim(b'\r') && delim(b'\n'));
    assert!(!delim(b'a') && !delim(b'(') && !delim(0));
}

#[test]
fn applying_an_operator_joins_the_two_topmost_operands() {
    let mut st = vec![
        Box::new(TTA::new("x", None, None, Decor::NONE)),
        Box::new(TTA::new("a", None, None, Decor::NONE)),
        Box::new(TTA::new("b", None, None, Decor::NONE)),
    ];
    process_op(&mut st, Operator::And);
    assert_eq!(st.len(), 2);
    assert_eq!(st[1].to_string(), "op=&&\nL=op=a\nR=op=b");
    process_op(&mut st, Operator::Open);
    assert_eq!(st.len(), 0);
    process_op(&mut st, Operator::Or);
    assert_eq!(st.len(), 1);
    assert_eq!(st[0].to_string(), "op=||");
}

#[test]
fn slot_named_by_number() {
    let t = Key2Slot::default();
    assert!(t.is_empty());
    assert_eq!(t.get_slot(""), None);
    assert_eq!(t.get_slot("#12"), Some(12));
    assert_eq!(t.get_slot("#+5"), Some(5));
    assert_eq!(t.get_slot("#007"), Some(7));
    assert_eq!(t.get_slot("#4294967295"), Some(u32::MAX));
    assert_eq!(t.get_slot("#4294967296"), None);
    assert_eq!(t.get_slot("#"), None);
    assert_eq!(t.get_slot("#x"), None);
    assert_eq!(t.get_slot("#-1"), None);
    assert_eq!(t.get_slot("title"), None);
}

#[test]
fn new_fields_get_the_next_slot() {
    let mut t = Key2Slot::default();
    assert_eq!(t.get_slot_and_set_if_not_found("a"), 1);
    assert_eq!(t.get_slot_and_set_if_not_found("b"), 2);
    assert_eq!(t.get_slot_and_set_if_not_found("a"), 1);
    assert_eq!(t.get_slot_and_set_if_not_found("#9"), 9);
    assert_eq!(t.get_slot("b"), Some(2));
    assert_eq!(t.get_slot("c"), None);
    assert!(!t.is_empty());
    assert_eq!(t.lines(), b"\"a\",1\n\"b\",2\n".to_vec());
}

#[test]
fn field_that_looks_like_a_bad_slot_number_is_stored_again() {
    let mut t = Key2Slot::default();
    assert_eq!(t.get_slot_and_set_if_not_found("#x"), 1);
    assert_eq!(t.get_slot_and_set_if_not_found("a"), 2);
    assert_eq!(t.get_slot_and_set_if_not_found("#x"), 3);
    assert_eq!(t.lines(), b"\"#x\",3\n\"a\",2\n".to_vec());
}

#[test]
fn serialized_table_carries_its_checksum() {
    let mut t = Key2Slot::default();
    t.get_slot_and_set_if_not_found("a");
    t.get_slot_and_set_if_not_found("b");
    let (lines, hash) = t.serialize();
    assert_eq!(lines, b"\"a\",1\n\"b\",2\n".to_vec());
    assert_eq!(hash, b"43A08149".to_vec());
    assert_eq!(hash, format!("{:X}", crc32fast::hash(&lines)).into_bytes());
    assert_eq!(t.store(), Some(b"\"43A08149\",12\n\"a\",1\n\"b\",2\n".to_vec()));
}

#[test]
fn empty_table_is_not_written() {
    let t = Key2Slot::default();
    assert_eq!(t.store(), None);
    assert_eq!(t.serialize(), (Vec::new(), b"0".to_vec()));
}

#[test]
fn file_image_and_hexadecimal() {
    assert_eq!(render(b"\"title\",1\n", 0xE1EE676B), b"\"E1EE676B\",10\n\"title\",1\n".to_vec());
    let mut out = b"x".to_vec();
    push_hex_upper(&mut out, 0);
    push_hex_upper(&mut out, 0xA0F);
    push_hex_upper(&mut out, u32::MAX);
    assert_eq!(out, b"x0A0FFFFFFFFF".to_vec());
}
