//! The snapshot codec: parsing, serialization, and the round trip.

use packdiag::slop::{Slop, SlopError, SlopValue};
use packdiag::text::split_lines;

fn lines(v: &[&str]) -> Vec<String> {
    v.iter().map(|s| s.to_string()).collect()
}

#[test]
fn parses_scalar_lines() {
    let slop = Slop::from_lines(lines(&["a=1", "b=hello world"])).unwrap();
    match slop.get("a") {
        Some(SlopValue::Str(s)) => assert_eq!(s, "1"),
        _ => panic!("expected a scalar under `a`"),
    }
    match slop.get("b") {
        Some(SlopValue::Str(s)) => assert_eq!(s, "hello world"),
        _ => panic!("expected a scalar under `b`"),
    }
    assert!(slop.get("c").is_none());
}

#[test]
fn parses_list_blocks() {
    let slop = Slop::from_lines(lines(&["k{", "    e1", "    e2", "}"])).unwrap();
    let list = slop.get_list("k").unwrap();
    assert_eq!(list.len(), 2);
    assert_eq!(list[0], "e1");
    assert_eq!(list[1], "e2");
}

#[test]
fn ignores_blank_and_comment_lines() {
    let slop = Slop::from_lines(lines(&["", "   ", "# comment", "a=1"])).unwrap();
    assert!(slop.get("a").is_some());
    assert!(slop.get("# comment").is_none());
}

#[test]
fn comment_rules_do_not_apply_inside_blocks() {
    let slop = Slop::from_lines(lines(&["k{", "    #keep", "    ", "}"])).unwrap();
    let list = slop.get_list("k").unwrap();
    assert_eq!(list.len(), 2);
    assert_eq!(list[0], "#keep");
    assert_eq!(list[1], "");
}

#[test]
fn malformed_line_is_an_error_with_its_number() {
    let r = Slop::from_lines(lines(&["a=1", "what is this"]));
    assert_eq!(r.err().unwrap(), SlopError::MalformedLine(2));
}

#[test]
fn unterminated_block_is_an_error_at_its_opening_line() {
    let r = Slop::from_lines(lines(&["a=1", "k{", "    e1"]));
    assert_eq!(r.err().unwrap(), SlopError::MalformedLine(2));
}

#[test]
fn later_insert_replaces_in_place() {
    let mut slop = Slop::new();
    slop.insert_str("a", "1");
    slop.insert_str("b", "2");
    slop.insert_str("a", "3");
    match slop.get("a") {
        Some(SlopValue::Str(s)) => assert_eq!(s, "3"),
        _ => panic!("expected a scalar under `a`"),
    }
    assert_eq!(slop.serialize(), "a=3\nb=2\n");
}

#[test]
fn serializes_scalars_and_lists() {
    let mut slop = Slop::new();
    slop.insert_str("a", "1");
    slop.insert("k", SlopValue::List(lines(&["e1", "e2"])));
    assert_eq!(slop.serialize(), "a=1\nk{\n    e1\n    e2\n}\n");
}

#[test]
fn serializes_an_empty_list_without_element_lines() {
    let mut slop = Slop::new();
    slop.insert("k", SlopValue::List(Vec::new()));
    assert_eq!(slop.serialize(), "k{\n}\n");
}

#[test]
fn round_trip_reproduces_the_snapshot() {
    let mut slop = Slop::new();
    slop.insert_str("!version", "1");
    slop.insert_str("!count", "3");
    slop.insert("/Icons", SlopValue::List(lines(&["a.png:16x16", "b.png:8x32"])));
    slop.insert("/UI/Chat", SlopValue::List(lines(&["c.png:1x1"])));
    slop.insert("/Empty", SlopValue::List(Vec::new()));
    let text = slop.serialize();
    let back = Slop::from_lines(split_lines(&text)).unwrap();
    assert_eq!(back.serialize(), text);
    let list = back.get_list("/Icons").unwrap();
    assert_eq!(list.len(), 2);
    assert_eq!(list[0], "a.png:16x16");
    match back.get("!count") {
        Some(SlopValue::Str(s)) => assert_eq!(s, "3"),
        _ => panic!("expected a scalar under `!count`"),
    }
    assert_eq!(back.get_list("/Empty").unwrap().len(), 0);
}

#[test]
fn split_lines_matches_line_semantics() {
    let ls = split_lines("a\n\nb\r\nc\n");
    assert_eq!(ls, vec!["a".to_string(), "".to_string(), "b".to_string(), "c".to_string()]);
    assert_eq!(split_lines(""), Vec::<String>::new());
    assert_eq!(split_lines("x"), vec!["x".to_string()]);
}

#[test]
fn values_may_hold_equals_and_braces() {
    let slop = Slop::from_lines(lines(&["a=x=y{z}", "k{", "    v=1", "}"])).unwrap();
    match slop.get("a") {
        Some(SlopValue::Str(s)) => assert_eq!(s, "x=y{z}"),
        _ => panic!("expected a scalar under `a`"),
    }
    assert_eq!(slop.get_list("k").unwrap()[0], "v=1");
}

#[test]
fn parse_lines_adds_to_an_existing_store() {
    let mut slop = Slop::new();
    slop.insert_str("a", "1");
    slop.parse_lines(&lines(&["b=2", "a=3"])).unwrap();
    assert_eq!(slop.serialize(), "a=3\nb=2\n");
}

#[test]
fn parse_lines_on_a_bad_line_changes_nothing() {
    let mut slop = Slop::new();
    slop.insert_str("a", "1");
    let r = slop.parse_lines(&lines(&["b=2", "}"]));
    assert_eq!(r.err().unwrap(), SlopError::MalformedLine(2));
    assert_eq!(slop.serialize(), "a=1\n");
}

#[test]
fn from_map_wraps_prebuilt_pairs() {
    let slop = Slop::from_map(vec![
        ("a".to_string(), SlopValue::Str("1".to_string())),
        ("k".to_string(), SlopValue::List(lines(&["e"]))),
    ]);
    assert_eq!(slop.serialize(), "a=1\nk{\n    e\n}\n");
}
