use std::cmp::Ordering;

use fapt_pkg::deps::{read_deps, ArchFilter};
use fapt_pkg::error::ParseError;
use fapt_pkg::package::{check_description_digest, Package, PackageType};
use fapt_pkg::rfc822::scan;
use fapt_pkg::types::{
    compare_versions, parse_priority, yes_no, Arch, Constraint, ConstraintOperator, Priority,
};
use fapt_pkg::values::{parse_size, read};

const PROVIDES_EXAMPLE: &str = r#"Package: python3-cffi-backend
Status: install ok installed
Priority: optional
Section: python
Installed-Size: 190
Maintainer: Ubuntu Developers <ubuntu-devel-discuss@lists.ubuntu.com>
Architecture: amd64
Source: python-cffi
Version: 1.11.5-1
Replaces: python3-cffi (<< 1)
Provides: python3-cffi-backend-api-9729, python3-cffi-backend-api-max (= 10495), python3-cffi-backend-api-min (= 9729)
Depends: python3 (<< 3.7), python3 (>= 3.6~), python3:any (>= 3.1~), libc6 (>= 2.14), libffi6 (>= 3.0.4)
Breaks: python3-cffi (<< 1)
Description: Foreign Function Interface for Python 3 calling C code - runtime
 Convenient and reliable way of calling C code from Python 3.
 .
 The aim of this project is to provide a convenient and reliable way of calling
 C code from Python. It keeps Python logic in Python, and minimises the C
 required. It is able to work at either the C API or ABI level, unlike most
 other approaches, that only support the ABI level.
 .
 This package contains the runtime support for pre-built cffi modules.
Original-Maintainer: Debian Python Modules Team <python-modules-team@lists.alioth.debian.org>
Homepage: http://cffi.readthedocs.org/
"#;

const MINIMAL: &str = "Package: foo\nVersion: 1.0\nPriority: optional\nArchitecture: amd64 i386\nDescription: a thing\n";

#[test]
fn version() {
    let cons = Constraint::new(ConstraintOperator::Gt, "1.0");
    assert!(cons.satisfied_by("2.0"));
    assert!(!cons.satisfied_by("1.0"));
}

#[test]
fn parse_provides() {
    let p = Package::parse_bin(scan(PROVIDES_EXAMPLE)).unwrap();
    assert_eq!("python3-cffi-backend", p.name.as_str());
    let bin = match p.style {
        PackageType::Binary(bin) => bin,
        _ => panic!("wrong type!"),
    };
    assert_eq!(3, bin.provides.len());
}

#[test]
fn provides_example_fields() {
    let p = Package::parse_bin(scan(PROVIDES_EXAMPLE)).unwrap();
    assert_eq!("1.11.5-1", p.version);
    assert_eq!(Priority::Optional, p.priority);
    assert_eq!(vec![Arch::Amd64], p.arches);
    assert_eq!(1, p.maintainer.len());
    assert_eq!("Ubuntu Developers", p.maintainer[0].name);
    assert_eq!("ubuntu-devel-discuss@lists.ubuntu.com", p.maintainer[0].email);
    assert_eq!(1, p.original_maintainer.len());
    assert_eq!("python3-cffi-backend:amd64=1.11.5-1", p.to_string());
    let bin = p.bin().unwrap();
    assert_eq!(190, bin.installed_size);
    assert_eq!(5, bin.depends.len());
    assert_eq!(Some(Arch::Any), bin.depends[2].alternate[0].arch);
    assert_eq!(1, bin.replaces.len());
    assert_eq!(1, bin.breaks.len());
    assert!(bin.description.starts_with("Foreign Function Interface for Python 3"));
    assert!(bin.description.contains("Python 3. . The aim"));
    assert_eq!(
        Some(vec!["install ok installed".to_string()]),
        p.unparsed.get_value("Status").val
    );
    assert_eq!(
        Some(vec!["http://cffi.readthedocs.org/".to_string()]),
        p.unparsed.get_value("Homepage").val
    );
}

#[test]
fn identity_fields_kept() {
    let p = Package::parse_bin(scan(MINIMAL)).unwrap();
    assert_eq!("foo", p.name);
    assert_eq!("1.0", p.version);
    assert_eq!(Priority::Optional, p.priority);
    assert_eq!(vec![Arch::Amd64, Arch::I386], p.arches);
    let again = Package::parse_bin(scan(MINIMAL)).unwrap();
    assert_eq!(p, again);
}

#[test]
fn version_ordering_examples() {
    assert_eq!(Ordering::Less, compare_versions("1.0", "2.0"));
    assert_eq!(Ordering::Less, compare_versions("1.0~rc1", "1.0"));
    assert_eq!(Ordering::Less, compare_versions("1.0", "1.0.1"));
    assert_eq!(Ordering::Greater, compare_versions("1.0.1", "1.0~rc1"));
    assert_eq!(Ordering::Equal, compare_versions("1:2.0", "1:2.0"));
    assert_eq!(Ordering::Greater, compare_versions("1:0.1", "9.9"));
    assert_eq!(Ordering::Less, compare_versions("1.0a", "1.0+"));
}

#[test]
fn constraint_operators() {
    assert!(Constraint::new(ConstraintOperator::Lt, "1.0").satisfied_by("1.0~rc1"));
    assert!(Constraint::new(ConstraintOperator::Le, "1.0").satisfied_by("1.0"));
    assert!(!Constraint::new(ConstraintOperator::Le, "1.0").satisfied_by("1.0.1"));
    assert!(Constraint::new(ConstraintOperator::Eq, "2.0").satisfied_by("2.0"));
    assert!(!Constraint::new(ConstraintOperator::Eq, "2.0").satisfied_by("2.1"));
    assert!(Constraint::new(ConstraintOperator::Ge, "3.6~").satisfied_by("3.6"));
    assert!(!Constraint::new(ConstraintOperator::Ge, "3.6").satisfied_by("3.6~"));
    assert!(ConstraintOperator::Gt.satisfied_by(Ordering::Greater));
    assert!(!ConstraintOperator::Ge.satisfied_by(Ordering::Less));
    assert!(ConstraintOperator::Le.satisfied_by(Ordering::Equal));
}

#[test]
fn dependency_grammar_three_groups() {
    let d = read_deps("python3 (<< 3.7), python3 (>= 3.6~), libc6 (>= 2.14)").unwrap();
    assert_eq!(3, d.len());
    let expect = [
        ("python3", ConstraintOperator::Lt, "3.7"),
        ("python3", ConstraintOperator::Ge, "3.6~"),
        ("libc6", ConstraintOperator::Ge, "2.14"),
    ];
    for (dep, (name, op, ver)) in d.iter().zip(expect.iter()) {
        assert_eq!(1, dep.alternate.len());
        let a = &dep.alternate[0];
        assert_eq!(*name, a.package);
        assert_eq!(1, a.version_constraints.len());
        assert_eq!(*op, a.version_constraints[0].operator);
        assert_eq!(*ver, a.version_constraints[0].version);
    }
}

#[test]
fn dependency_grammar_full_alternative() {
    let d = read_deps("foo:amd64 (>= 1.0) [linux-any !i386] <!nocheck> <stage1> | bar").unwrap();
    assert_eq!(1, d.len());
    assert_eq!(2, d[0].alternate.len());
    let a = &d[0].alternate[0];
    assert_eq!("foo", a.package);
    assert_eq!(Some(Arch::Amd64), a.arch);
    assert_eq!(
        vec![
            ArchFilter { negated: false, arch: Arch::LinuxAny },
            ArchFilter { negated: true, arch: Arch::I386 }
        ],
        a.arch_filter
    );
    assert_eq!(vec!["!nocheck".to_string(), "stage1".to_string()], a.stage_filter);
    assert_eq!("bar", d[0].alternate[1].package);
    assert!(d[0].alternate[1].version_constraints.is_empty());
    assert!(read_deps("").unwrap().is_empty());
    assert_eq!(2, read_deps("a, , b,").unwrap().len());
}

#[test]
fn dependency_grammar_errors() {
    for bad in ["foo (~~ 1.0)", "foo (>= 1.0", "foo [sparc64]", "foo:sparc64", "a | | b", "(>= 1)", "foo [linux-any", "foo <stage", "foo bar"] {
        assert!(
            matches!(read_deps(bad), Err(ParseError::DependencyGrammar { .. })),
            "{}",
            bad
        );
    }
    assert_eq!(
        Err(ParseError::DependencyGrammar { key: String::new(), text: "b (<<)".to_string() }),
        read_deps("a, b (<<), c")
    );
}

#[test]
fn provides_three_clauses() {
    let text = "Package: p\nVersion: 1\nPriority: extra\nArchitecture: all\nDescription: d\nProvides: x, y (= 2), z\n";
    let p = Package::parse_bin(scan(text)).unwrap();
    assert_eq!(3, p.bin().unwrap().provides.len());
}

#[test]
fn unknown_architecture_aborts() {
    let text = "Package: p\nVersion: 1\nPriority: extra\nArchitecture: sparc64\nDescription: d\n";
    match Package::parse_bin(scan(text)) {
        Err(ParseError::UnknownEnumToken { key, token }) => {
            assert_eq!("Architecture", key);
            assert_eq!("sparc64", token);
        }
        other => panic!("{:?}", other),
    }
    assert!(Arch::from_str("sparc64").is_err());
    assert_eq!(Ok(Arch::LinuxAny), Arch::from_str("linux-any"));
    assert_eq!("mips64el", Arch::Mips64El.as_str());
    assert_eq!("x32", Arch::X32.to_string());
}

#[test]
fn unknown_fields_kept() {
    let text = "Package: p\nX-Custom: one\n two\nVersion: 1\nPriority: extra\nArchitecture: all\nDescription: d\n";
    let p = Package::parse_bin(scan(text)).unwrap();
    assert_eq!(
        Some(vec!["one".to_string(), "two".to_string()]),
        p.unparsed.get_value("X-Custom").val
    );
    let q = Package::parse_bin(scan(text)).unwrap();
    assert_eq!(p.unparsed, q.unparsed);
}

#[test]
fn missing_priority() {
    let text = "Package: p\nVersion: 1\nArchitecture: all\nDescription: d\nDepends: libc6\n";
    assert_eq!(
        Err(ParseError::MissingField { key: "Priority".to_string() }),
        Package::parse_bin(scan(text))
    );
}

#[test]
fn missing_description_and_package() {
    let text = "Package: p\nVersion: 1\nPriority: extra\nArchitecture: all\n";
    assert_eq!(
        Err(ParseError::MissingField { key: "Description".to_string() }),
        Package::parse_bin(scan(text))
    );
    let text = "Package: p\nVersion: 1\nPriority: extra\nArchitecture: all\nDescription:\n";
    assert_eq!(
        Err(ParseError::MissingField { key: "Description".to_string() }),
        Package::parse_bin(scan(text))
    );
    let text = "Version: 1\nPriority: extra\nArchitecture: all\nDescription: d\n";
    assert_eq!(
        Err(ParseError::MissingField { key: "Package".to_string() }),
        Package::parse_bin(scan(text))
    );
}

#[test]
fn field_errors_name_their_field() {
    let base = "Package: p\nVersion: 1\nPriority: extra\nArchitecture: all\nDescription: d\n";
    let with = |extra: &str| Package::parse_bin(scan(&format!("{}{}", base, extra)));
    assert_eq!(
        Err(ParseError::TypeError { key: "Installed-Size".to_string(), text: "12k".to_string() }),
        with("Installed-Size: 12k\n")
    );
    assert_eq!(
        Err(ParseError::TypeError { key: "Essential".to_string(), text: "maybe".to_string() }),
        with("Essential: maybe\n")
    );
    assert_eq!(
        Err(ParseError::MultiLineViolation { key: "Version".to_string() }),
        with("Version: 1\n 2\n")
    );
    assert_eq!(
        Err(ParseError::UnknownEnumToken { key: "Priority".to_string(), token: "urgent".to_string() }),
        with("Priority: urgent\n")
    );
    assert_eq!(
        Err(ParseError::DependencyGrammar { key: "Depends".to_string(), text: "a (".to_string() }),
        with("Depends: a (\n")
    );
    assert_eq!(
        Err(ParseError::Scan { line: "junk".to_string() }),
        with("junk\n")
    );
    let p = with("Essential: yes\nInstalled-Size: 42\nDepends: a\nDepends: b | c\n").unwrap();
    let b = p.bin().unwrap();
    assert!(b.essential);
    assert!(!b.build_essential);
    assert_eq!(42, b.installed_size);
    assert_eq!(2, b.depends.len());
}

#[test]
fn bad_maintainer_only_warns() {
    let lines = scan("Package: p\nVersion: 1\nPriority: extra\nArchitecture: all\nDescription: d\nMaintainer: nobody\n")
        .collect_lines()
        .unwrap();
    let (p, warnings) = Package::parse_bin_lines(&lines).unwrap();
    assert!(p.maintainer.is_empty());
    assert_eq!(1, warnings.len());
}

#[test]
fn description_digest() {
    let base = "Package: p\nVersion: 1\nPriority: extra\nArchitecture: all\nDescription: hello\n";
    let good = format!("{}Description-md5: 5d41402abc4b2a76b9719d911017c592\n", base);
    assert!(Package::parse_bin(scan(&good)).is_ok());
    let bad = format!("{}Description-md5: 00000000000000000000000000000000\n", base);
    assert!(matches!(
        Package::parse_bin(scan(&bad)),
        Err(ParseError::ChecksumMismatch { .. })
    ));
    assert_eq!(Ok(()), check_description_digest("ab", "ab"));
    assert!(check_description_digest("ab", "cd").is_err());
}

#[test]
fn scalar_value_parsers() {
    assert_eq!(Ok(190), parse_size("190"));
    assert_eq!(Ok(18446744073709551615), parse_size("18446744073709551615"));
    assert!(parse_size("18446744073709551616").is_err());
    assert!(parse_size("").is_err());
    assert!(parse_size("-1").is_err());
    assert_eq!(Ok(true), yes_no("yes"));
    assert_eq!(Ok(false), yes_no("no"));
    assert!(yes_no("Yes").is_err());
    assert_eq!(Ok(Priority::Required), parse_priority("required"));
    assert_eq!(Ok(Priority::Source), parse_priority("source"));
    assert!(parse_priority("unknown").is_err());
    assert_eq!(Priority::Unknown, Priority::default());
    let ids = read("A B <a@b>, C <c@d>").unwrap();
    assert_eq!(2, ids.len());
    assert_eq!("A B", ids[0].name);
    assert_eq!("c@d", ids[1].email);
    assert!(read("no address").is_none());
}

#[test]
fn duplicate_architectures_kept_once() {
    let text = "Package: p\nVersion: 1\nPriority: extra\nArchitecture: amd64 i386 amd64\nDescription: d\n";
    let p = Package::parse_bin(scan(text)).unwrap();
    assert_eq!(vec![Arch::Amd64, Arch::I386], p.arches);
}

#[test]
fn file_reference_fields() {
    let base = "Package: p\nVersion: 1\nPriority: extra\nArchitecture: all\nDescription: d\n";
    let text = format!("{}Filename: pool/p.deb\nSize: 1234\nMD5sum: abc\nSHA256: def\n", base);
    let p = Package::parse_bin(scan(&text)).unwrap();
    let f = p.bin().unwrap().file.clone().unwrap();
    assert_eq!("pool/p.deb", f.name);
    assert_eq!(1234, f.size);
    assert_eq!("abc", f.md5);
    assert_eq!("", f.sha1);
    assert_eq!("def", f.sha256);
    assert!(p.unparsed.get_value("Filename").val.is_none());
    assert!(Package::parse_bin(scan(base)).unwrap().bin().unwrap().file.is_none());
    assert_eq!(
        Err(ParseError::TypeError { key: "Size".to_string(), text: "12k".to_string() }),
        Package::parse_bin(scan(&format!("{}Size: 12k\n", base)))
    );
}

#[test]
fn error_kind_fixed_per_field() {
    let base = "Package: p\nVersion: 1\nPriority: extra\nDescription: d\n";
    assert_eq!(
        Err(ParseError::MultiLineViolation { key: "Architecture".to_string() }),
        Package::parse_bin(scan(&format!("{}Architecture: amd64\n sparc64\n", base)))
    );
    let base = "Package: p\nVersion: 1\nPriority: extra\nArchitecture: all\nDescription: d\n";
    assert_eq!(
        Err(ParseError::DependencyGrammar { key: "Depends".to_string(), text: "b (".to_string() }),
        Package::parse_bin(scan(&format!("{}Depends: a,\n b (\n", base)))
    );
    assert_eq!(
        Err(ParseError::MultiLineViolation { key: "Installed-Size".to_string() }),
        Package::parse_bin(scan(&format!("{}Installed-Size: 1\n 2\n", base)))
    );
}

#[test]
fn size_accepts_leading_plus() {
    assert_eq!(Ok(5), parse_size("+5"));
    assert!(parse_size("+").is_err());
    assert!(parse_size("++5").is_err());
}

#[test]
fn constraint_on_equal_version() {
    assert!(Constraint::new(ConstraintOperator::Ge, "1.0").satisfied_by("1.0"));
    assert!(!Constraint::new(ConstraintOperator::Lt, "1.0").satisfied_by("1.0"));
}
