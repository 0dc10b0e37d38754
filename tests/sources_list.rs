use fapt_pkg::error::ParseError;
use fapt_pkg::sources_list::{read, read_line, Entry};

fn expected() -> Vec<Entry> {
    vec![
        Entry {
            src: false,
            arch: None,
            url: "http://foo/".to_string(),
            suite_codename: "bar".to_string(),
            components: vec!["baz".to_string(), "quux".to_string()],
        },
        Entry {
            src: true,
            arch: None,
            url: "http://foo/".to_string(),
            suite_codename: "bar".to_string(),
            components: vec!["baz".to_string(), "quux".to_string()],
        },
    ]
}

#[test]
fn sources_list_simple() {
    assert_eq!(
        expected(),
        read(
            r"
deb     http://foo  bar  baz quux
deb-src http://foo  bar  baz quux
",
        )
        .unwrap()
    );
}

#[test]
fn classic_sources_list_simple() {
    assert_eq!(
        expected(),
        read("\ndeb     http://foo  bar  baz quux\ndeb-src http://foo  bar  baz quux\n").unwrap()
    );
}

#[test]
fn sources_list_debs_arch_and_comments() {
    let r = read("# comment\ndebs [arch=amd64] http://m/ sid main # trailing\n").unwrap();
    assert_eq!(2, r.len());
    assert!(!r[0].src);
    assert!(r[1].src);
    assert_eq!(Some("[arch=amd64]".to_string()), r[0].arch);
    assert_eq!("http://m/", r[0].url);
    assert_eq!(vec!["main".to_string()], r[1].components);
}

#[test]
fn sources_list_errors() {
    assert!(matches!(read_line("deb"), Err(ParseError::MissingField { .. })));
    assert!(matches!(read_line("deb http://foo"), Err(ParseError::MissingField { .. })));
    assert!(matches!(
        read_line("rpm http://foo bar"),
        Err(ParseError::UnknownEnumToken { .. })
    ));
    assert!(read("deb http://a b\nnope http://a b\n").is_err());
    assert!(read_line("   # only a comment").unwrap().is_empty());
}

#[test]
fn sources_list_unicode_whitespace() {
    let r = read_line("deb\u{a0}http://foo\u{2003}bar baz").unwrap();
    assert_eq!(1, r.len());
    assert_eq!("http://foo/", r[0].url);
    assert_eq!("bar", r[0].suite_codename);
    assert!(read_line("\u{a0}").unwrap().is_empty());
}
