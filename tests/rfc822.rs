use fapt_pkg::error::ParseError;
use chrono::{Datelike, Timelike};
use fapt_pkg::rfc822::{joined, parse_date, scan, ByteSections, FieldMap, Line, Value};

fn line(key: &str, vals: &[&str]) -> Line {
    (key.to_string(), vals.iter().map(|v| v.to_string()).collect())
}

fn value(key: &str, vals: Option<&[&str]>) -> Value {
    Value {
        key: key.to_string(),
        val: vals.map(|v| v.iter().map(|s| s.to_string()).collect()),
    }
}

#[test]
fn single_line_header() {
    assert_eq!(
        vec![line("Foo", &["bar"])],
        scan("Foo: bar\n").collect_lines().unwrap()
    );
}

#[test]
fn multi_line_header() {
    assert_eq!(
        vec![line("Foo", &["bar", "baz"])],
        scan("Foo:\n bar\n baz\n").collect_lines().unwrap()
    );
}

#[test]
fn multi_line_joined() {
    assert_eq!(
        vec![line("Foo", &["bar", "baz", "quux"])],
        scan("Foo: bar\n baz\n quux\n").collect_lines().unwrap()
    );
}

#[test]
fn walkies() {
    let parts = ByteSections::new(b"foo\nbar\n\nbaz\n".to_vec(), String::new()).collect_sections();
    assert_eq!(vec![b"foo\nbar\n".to_vec(), b"baz\n".to_vec()], parts);
}

#[test]
fn sections_skip_leading_and_repeated_blank_lines() {
    let parts = ByteSections::new(b"\n\nfoo\n\n\n\nbar\n".to_vec(), String::new()).collect_sections();
    assert_eq!(vec![b"foo\n".to_vec(), b"bar\n".to_vec()], parts);
    let none = ByteSections::new(Vec::new(), String::new()).collect_sections();
    assert!(none.is_empty());
}

#[test]
fn string_sections_decode_and_reject_bad_utf8() {
    let mut s = ByteSections::new(b"a: b\n\n\xff\n".to_vec(), "f".to_string()).into_string_sections();
    assert_eq!(Some(Ok("a: b\n".to_string())), s.next_section());
    assert!(matches!(s.next_section(), Some(Err(ParseError::TypeError { .. }))));
    assert_eq!(None, s.next_section());
}

#[test]
fn scan_error_carries_line() {
    let r = scan("Foo: bar\nnonsense\n").collect_lines();
    assert_eq!(Err(ParseError::Scan { line: "nonsense".to_string() }), r);
}

#[test]
fn scan_skips_blank_and_comment_lines() {
    let r = scan("\n# a comment\nFoo: bar\n\nBaz:\n").collect_lines().unwrap();
    assert_eq!(vec![line("Foo", &["bar"]), line("Baz", &[])], r);
    assert!(scan("").collect_lines().unwrap().is_empty());
    assert!(scan("\n   \n").collect_lines().unwrap().is_empty());
}

#[test]
fn scan_keeps_duplicate_keys_and_strips_cr() {
    let r = scan("A: 1\r\nA: 2\r\n").collect_lines().unwrap();
    assert_eq!(vec![line("A", &["1"]), line("A", &["2"])], r);
}

#[test]
fn field_map_last_wins_and_remove() {
    let mut m = scan("A: 1\nB: x\nA: 2\n").collect_to_map().unwrap();
    assert_eq!(Some(vec!["2".to_string()]), m.get_value("A").val);
    assert_eq!(None, m.get_value("C").val);
    let removed = m.remove_value("A");
    assert_eq!(Some(vec!["2".to_string()]), removed.val);
    assert_eq!(None, m.get_value("A").val);
    assert_eq!(Some(vec!["x".to_string()]), m.get_value("B").val);
    let m2 = FieldMap::from_lines(vec![line("K", &["v"])]);
    assert_eq!("K", m2.get_value("K").key);
}

#[test]
fn one_line_rejects_many_lines() {
    let v = value("Foo", Some(&["a", "b"]));
    assert_eq!(
        Err(ParseError::MultiLineViolation { key: "Foo".to_string() }),
        v.one_line()
    );
    assert!(v.one_line_owned().is_err());
    assert!(v.one_line_req().is_err());
    assert_eq!(Ok(Some("a".to_string())), value("Foo", Some(&["a"])).one_line());
    assert_eq!(Ok(None), value("Foo", None).one_line());
    assert_eq!(
        Err(ParseError::MissingField { key: "Foo".to_string() }),
        value("Foo", None).one_line_req()
    );
}

#[test]
fn joined_lines_and_required() {
    assert_eq!(Some("a b c".to_string()), value("K", Some(&["a", "b", "c"])).joined_lines());
    assert_eq!(Some(String::new()), value("K", Some(&[])).joined_lines());
    assert_eq!(None, value("K", None).joined_lines());
    assert!(value("K", None).joined_lines_req().is_err());
    assert_eq!(Ok("x".to_string()), value("K", Some(&["x"])).joined_lines_req());
    assert!(value("K", None).required().is_err());
    assert_eq!("a b", joined(&vec!["a".to_string(), "b".to_string()]));
}

#[test]
fn split_comma_trims_and_drops_empty() {
    let v = value("K", Some(&["a, b,,", " c ,d"]));
    assert_eq!(
        vec!["a", "b", "c", "d"],
        v.split_comma().unwrap()
    );
    assert!(value("K", None).split_comma().is_err());
}

#[test]
fn split_whitespace_words() {
    let v = value("K", Some(&["  a b\tc ", "d"]));
    assert_eq!(vec!["a", "b", "c", "d"], v.split_whitespace().unwrap());
    assert_eq!(
        Err(ParseError::MissingField { key: "K".to_string() }),
        value("K", None).split_whitespace()
    );
}

fn utc(date: &str) -> chrono::DateTime<chrono::Utc> {
    let t = parse_date(date).unwrap();
    chrono::DateTime::from_timestamp(t.secs, 0).unwrap()
}

#[test]
fn date_parsing_seriously_it_is_2019() {
    let d = utc("Wed, 06 Feb 2019 14:29:43 UTC");
    assert_eq!(
        (2019, 2, 6, 14, 29, 43),
        (d.year(), d.month(), d.day(), d.hour(), d.minute(), d.second()),
    );

    let d = utc("Wed, 13 Feb 2019  6:51:09 UTC");
    assert_eq!(
        (2019, 2, 13, 6, 51, 9),
        (d.year(), d.month(), d.day(), d.hour(), d.minute(), d.second()),
    );
}

#[test]
fn date_parsing_rejects_garbage() {
    assert!(matches!(parse_date("Wed, 06 Foo 2019 14:29:43 UTC"), Err(ParseError::TypeError { .. })));
    assert_eq!(0, parse_date("Thu, 01 Jan 1970 00:00:00 UTC").unwrap().secs);
}

#[test]
fn unicode_whitespace_is_whitespace() {
    let v = value("K", Some(&["\u{a0}"]));
    assert!(v.split_comma().unwrap().is_empty());
    assert!(v.split_whitespace().unwrap().is_empty());
    let w = value("K", Some(&["a\u{a0}b\u{3000}c"]));
    assert_eq!(vec!["a", "b", "c"], w.split_whitespace().unwrap());
    let r = scan("Foo: bar\u{a0}\n\u{a0}\nBaz: q\n").collect_lines().unwrap();
    assert_eq!(vec![line("Foo", &["bar"]), line("Baz", &["q"])], r);
}
