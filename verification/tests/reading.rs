use confignoble::error::{LineFault, ParseError, SourceError};
use confignoble::full::Full;
use confignoble::version::{Identifier, Version};
use confignoble::{SeL4Source, SingleValue};

fn fault(text: &str) -> ParseError {
    Full::parse(text).unwrap_err()
}

fn line(line: usize, fault: LineFault) -> ParseError {
    ParseError::Line { line, fault }
}

const HEAD: &str = "[sel4]\nversion = '1.0.0'\n";

#[test]
fn smallest_document() {
    let f = Full::parse("[sel4]\nversion = '0.0.0'").unwrap();
    assert_eq!(None, f.sel4.default_platform);
    assert_eq!(
        SeL4Source::Version(Version { major: 0, minor: 0, patch: 0, pre: vec![], build: vec![] }),
        f.sel4.source
    );
    assert!(f.sel4.config.shared_config.is_empty());
    assert!(f.sel4.config.debug_config.is_empty());
    assert!(f.sel4.config.release_config.is_empty());
    assert_eq!(0, f.sel4.config.contextual_config.len());
}

#[test]
fn comments_blank_space_and_line_ends_are_passed_over() {
    let text = "# a comment\r\n\r\n  [sel4]   # the root\r\n\tversion\t=\t'1.2.3'  # which one\r\n\n[sel4.config]\nA=1\n  B   =   'x'#y\n";
    let f = Full::parse(text).unwrap();
    assert_eq!(
        SeL4Source::Version(Version { major: 1, minor: 2, patch: 3, pre: vec![], build: vec![] }),
        f.sel4.source
    );
    assert_eq!(2, f.sel4.config.shared_config.len());
    assert_eq!(Some(&SingleValue::Integer(1)), f.sel4.config.shared_config.get("A"));
    assert_eq!(
        Some(&SingleValue::String("x".to_owned())),
        f.sel4.config.shared_config.get("B")
    );
}

#[test]
fn sections_may_come_in_any_order() {
    let a = Full::parse("[sel4.config.x]\nK = 1\n[sel4.config]\nS = 2\n[sel4]\nversion = '1.0.0'\n[sel4.config.release]\n[sel4.config.y]\n[sel4.config.debug]\nD = true\n").unwrap();
    let b = Full::parse("[sel4]\nversion = '1.0.0'\n[sel4.config]\nS = 2\n[sel4.config.debug]\nD = true\n[sel4.config.release]\n[sel4.config.x]\nK = 1\n[sel4.config.y]\n").unwrap();
    assert_eq!(a, b);
    let (first, _) = a.sel4.config.contextual_config.entry(0).unwrap();
    let (second, table) = a.sel4.config.contextual_config.entry(1).unwrap();
    assert_eq!("x", first);
    assert_eq!("y", second);
    assert!(table.is_empty());
    assert!(a.sel4.config.contextual_config.entry(2).is_none());
}

#[test]
fn keys_keep_the_order_of_the_text() {
    let f = Full::parse("[sel4]\nversion = '1.0.0'\n[sel4.config]\nzeta = 1\nalpha = 2\nMid-dle_3 = 3\n").unwrap();
    let t = &f.sel4.config.shared_config;
    assert_eq!("zeta", t.entry(0).unwrap().0);
    assert_eq!("alpha", t.entry(1).unwrap().0);
    assert_eq!("Mid-dle_3", t.entry(2).unwrap().0);
    assert_eq!(&SingleValue::Integer(3), t.entry(2).unwrap().1);
}

#[test]
fn strings_between_either_quote() {
    let f = Full::parse("[sel4]\nversion = \"1.0.0\"\n[sel4.config]\na = \"it's\"\nb = 'say \"hi\" \\ # not a comment'\nc = ''\n").unwrap();
    let t = &f.sel4.config.shared_config;
    assert_eq!(Some(&SingleValue::String("it's".to_owned())), t.get("a"));
    assert_eq!(
        Some(&SingleValue::String("say \"hi\" \\ # not a comment".to_owned())),
        t.get("b")
    );
    assert_eq!(Some(&SingleValue::String(String::new())), t.get("c"));
}

#[test]
fn integers_in_range() {
    let f = Full::parse("[sel4]\nversion = '1.0.0'\n[sel4.config]\na = 0\nb = -5\nc = +7\nd = 9223372036854775807\ne = -9223372036854775808\nf = -0\n").unwrap();
    let t = &f.sel4.config.shared_config;
    assert_eq!(Some(&SingleValue::Integer(0)), t.get("a"));
    assert_eq!(Some(&SingleValue::Integer(-5)), t.get("b"));
    assert_eq!(Some(&SingleValue::Integer(7)), t.get("c"));
    assert_eq!(Some(&SingleValue::Integer(i64::MAX)), t.get("d"));
    assert_eq!(Some(&SingleValue::Integer(i64::MIN)), t.get("e"));
    assert_eq!(Some(&SingleValue::Integer(0)), t.get("f"));
}

#[test]
fn what_is_no_value_is_refused() {
    for bad in [
        "9223372036854775808",
        "-9223372036854775809",
        "18446744073709551616",
        "007",
        "1.5",
        "1_000",
        "0x10",
        "True",
        "yes",
        "-",
        "1979-05-27",
        "#",
    ] {
        let text = format!("{}[sel4.config]\nk = {}\n", HEAD, bad);
        assert_eq!(line(4, LineFault::InvalidValue), fault(&text), "{}", bad);
    }
}

#[test]
fn lists_and_tables_are_no_values() {
    assert_eq!(
        line(4, LineFault::NotScalar),
        fault("[sel4]\nversion = '1.0.0'\n[sel4.config]\nk = [1, 2]\n")
    );
    assert_eq!(
        line(4, LineFault::NotScalar),
        fault("[sel4]\nversion = '1.0.0'\n[sel4.config]\nk = { a = 1 }\n")
    );
    assert_eq!(
        line(3, LineFault::NotScalar),
        fault("[sel4]\nversion = '1.0.0'\n[sel4.config.arm.inner]\n")
    );
}

#[test]
fn malformed_lines() {
    for bad in [
        "just words",
        "k",
        "k =",
        "= 1",
        "k = 'open",
        "k = \"open",
        "k = \"a\\nb\"",
        "k = 'a' 'b'",
        "k = 1 2",
        "a.b = 1",
        "\"k\" = 1",
        "[sel4.config",
        "[[sel4.config]]",
        "[sel4.config] x",
        "k = '''a'''",
    ] {
        let text = format!("{}\n{}\n", HEAD, bad);
        assert_eq!(line(4, LineFault::Syntax), fault(&text), "{}", bad);
    }
}

#[test]
fn unknown_tables_and_keys() {
    assert_eq!(line(1, LineFault::UnknownKey), fault("k = 1\n[sel4]\nversion = '1.0.0'\n"));
    assert_eq!(line(3, LineFault::UnknownKey), fault("[sel4]\nversion = '1.0.0'\nflavour = 'x'\n"));
    assert_eq!(line(3, LineFault::UnknownSection), fault("[sel4]\nversion = '1.0.0'\n[build]\n"));
    assert_eq!(line(1, LineFault::UnknownSection), fault("[sel4.other]\n"));
    assert_eq!(line(1, LineFault::UnknownSection), fault("[sel4.config.]\n"));
    assert_eq!(line(1, LineFault::UnknownSection), fault("[sel4.config.a b]\n"));
    assert_eq!(line(1, LineFault::UnknownSection), fault("[ sel4 ]\n"));
    assert_eq!(line(1, LineFault::UnknownSection), fault("[]\n"));
}

#[test]
fn nothing_is_given_twice() {
    assert_eq!(line(3, LineFault::DuplicateSection), fault("[sel4]\nversion = '1.0.0'\n[sel4]\n"));
    assert_eq!(line(2, LineFault::DuplicateSection), fault("[sel4.config]\n[sel4.config]\n"));
    assert_eq!(
        line(3, LineFault::DuplicateSection),
        fault("[sel4.config.debug]\n\n[sel4.config.debug]\n")
    );
    assert_eq!(
        line(2, LineFault::DuplicateSection),
        fault("[sel4.config.release]\n[sel4.config.release]\n")
    );
    assert_eq!(
        line(4, LineFault::DuplicateSection),
        fault("[sel4.config.arm]\nk = 1\n[sel4.config.x86]\n[sel4.config.arm]\n")
    );
    assert_eq!(line(3, LineFault::DuplicateKey), fault("[sel4.config]\nk = 1\nk = 2\n"));
    assert_eq!(line(3, LineFault::DuplicateKey), fault("[sel4.config.arm]\nk = 1\nk = 1\n"));
    assert_eq!(line(3, LineFault::DuplicateKey), fault("[sel4]\nversion = '1.0.0'\nversion = '1.0.0'\n"));
    assert_eq!(
        line(3, LineFault::DuplicateKey),
        fault("[sel4]\ndefault_platform = 'a'\ndefault_platform = 'b'\n")
    );
}

#[test]
fn the_same_key_may_stand_in_two_tables() {
    let f = Full::parse("[sel4]\nversion = '1.0.0'\n[sel4.config]\nk = 1\n[sel4.config.debug]\nk = 2\n[sel4.config.arm]\nk = 3\n").unwrap();
    assert_eq!(Some(&SingleValue::Integer(1)), f.sel4.config.shared_config.get("k"));
    assert_eq!(Some(&SingleValue::Integer(2)), f.sel4.config.debug_config.get("k"));
    assert_eq!(
        Some(&SingleValue::Integer(3)),
        f.sel4.config.contextual_config.get("arm").unwrap().get("k")
    );
}

#[test]
fn fields_of_the_root_are_strings() {
    assert_eq!(line(2, LineFault::ExpectedString), fault("[sel4]\ndefault_platform = 3\n"));
    assert_eq!(line(2, LineFault::ExpectedString), fault("[sel4]\nversion = 10\n"));
    assert_eq!(line(2, LineFault::ExpectedString), fault("[sel4]\nkernel_dir = true\n"));
    assert_eq!(line(2, LineFault::ExpectedString), fault("[sel4]\ntools_dir = false\n"));
}

#[test]
fn the_first_refused_line_is_named() {
    assert_eq!(
        line(2, LineFault::Syntax),
        fault("[sel4]\n???\n[sel4]\nversion = 1\n")
    );
}

#[test]
fn both_source_groups_are_refused() {
    assert_eq!(
        ParseError::Source(SourceError::AmbiguousSource),
        fault("[sel4]\nkernel_dir = 'k'\ntools_dir = 't'\nversion = '1.0.0'\n")
    );
    assert_eq!(
        ParseError::Source(SourceError::AmbiguousSource),
        fault("[sel4]\ntools_dir = 't'\nversion = 'not even a version'\n")
    );
    assert_eq!(
        Err(SourceError::AmbiguousSource),
        SeL4Source::from_fields(Some("k".to_owned()), None, Some("1.0.0".to_owned()))
    );
}

#[test]
fn no_source_group_is_refused() {
    assert_eq!(ParseError::Source(SourceError::MissingSource), fault(""));
    assert_eq!(
        ParseError::Source(SourceError::MissingSource),
        fault("[sel4]\ndefault_platform = 'p'\n[sel4.config]\nk = 1\n")
    );
    assert_eq!(
        ParseError::Source(SourceError::MissingSource),
        fault("[sel4]\nkernel_dir = 'k'\n")
    );
    assert_eq!(
        ParseError::Source(SourceError::MissingSource),
        fault("[sel4]\ntools_dir = 't'\n")
    );
    assert_eq!(Err(SourceError::MissingSource), SeL4Source::from_fields(None, None, None));
}

#[test]
fn one_source_group_is_taken() {
    assert_eq!(
        Ok(SeL4Source::LocalDirectories { kernel_dir: "k".to_owned(), tools_dir: "t".to_owned() }),
        SeL4Source::from_fields(Some("k".to_owned()), Some("t".to_owned()), None)
    );
    assert_eq!(
        Ok(SeL4Source::Version(Version { major: 1, minor: 2, patch: 3, pre: vec![], build: vec![] })),
        SeL4Source::from_fields(None, None, Some("1.2.3".to_owned()))
    );
}

#[test]
fn malformed_versions_are_refused() {
    for bad in [
        "", "1", "1.0", "1.0.0.0", "01.0.0", "1.00.0", "1.0.00", "a.b.c", "1.0.0-", "1.0.0+",
        "1.0.0-a..b", "1.0.0-01", "1.0.0-a_b", "1.0.0+a+b", "v1.0.0", " 1.0.0", "1.0.0 ",
        "18446744073709551616.0.0", "1.0.0-18446744073709551616", "-1.0.0", "1.-1.0",
    ] {
        assert_eq!(None, Version::parse(bad), "{}", bad);
        let text = format!("[sel4]\nversion = '{}'\n", bad);
        assert_eq!(ParseError::Source(SourceError::InvalidVersion), fault(&text), "{}", bad);
    }
}

#[test]
fn versions_with_identifiers() {
    let v = Version::parse("1.2.3-alpha.1.x-y+build.001.7.18446744073709551616").unwrap();
    assert_eq!(
        Version {
            major: 1,
            minor: 2,
            patch: 3,
            pre: vec![
                Identifier::AlphaNumeric("alpha".to_owned()),
                Identifier::Numeric(1),
                Identifier::AlphaNumeric("x-y".to_owned())
            ],
            build: vec![
                Identifier::AlphaNumeric("build".to_owned()),
                Identifier::AlphaNumeric("001".to_owned()),
                Identifier::Numeric(7),
                Identifier::AlphaNumeric("18446744073709551616".to_owned())
            ],
        },
        v
    );
    assert!(v.is_wf());
    assert_eq!("1.2.3-alpha.1.x-y+build.001.7.18446744073709551616", v.to_text());
    assert_eq!(
        Version { major: 18446744073709551615, minor: 0, patch: 0, pre: vec![], build: vec![Identifier::AlphaNumeric("-".to_owned())] },
        Version::parse("18446744073709551615.0.0+-").unwrap()
    );
    assert_eq!(
        Version { major: 1, minor: 0, patch: 0, pre: vec![Identifier::Numeric(0), Identifier::AlphaNumeric("-1".to_owned())], build: vec![] },
        Version::parse("1.0.0-0.-1").unwrap()
    );
}

#[test]
fn a_declared_context_without_keys_is_kept() {
    let f = Full::parse("[sel4]\nversion = '1.0.0'\n[sel4.config.empty]\n").unwrap();
    assert_eq!(1, f.sel4.config.contextual_config.len());
    assert!(f.sel4.config.contextual_config.contains_key("empty"));
    assert!(!f.sel4.config.contextual_config.contains_key("absent"));
    assert_eq!(0, f.sel4.config.contextual_config.get("empty").unwrap().len());
    assert!(f.sel4.config.contextual_config.get("absent").is_none());
    let text = f.to_toml_string().unwrap();
    assert_eq!(
        "[sel4]\nversion = '1.0.0'\n\n[sel4.config]\n\n[sel4.config.debug]\n\n[sel4.config.release]\n\n[sel4.config.empty]\n",
        text
    );
    assert_eq!(f, Full::parse(&text).unwrap());
}
