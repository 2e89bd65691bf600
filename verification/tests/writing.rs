use confignoble::error::SerializeError;
use confignoble::full::{Config, Full, SeL4};
use confignoble::table::{ConfigTable, ContextTable};
use confignoble::version::{Identifier, Version};
use confignoble::{SeL4Source, SingleValue};

fn version(pre: Vec<Identifier>, build: Vec<Identifier>) -> SeL4Source {
    SeL4Source::Version(Version { major: 1, minor: 2, patch: 3, pre, build })
}

fn document(source: SeL4Source) -> Full {
    Full {
        sel4: SeL4 {
            default_platform: None,
            source,
            config: Config {
                shared_config: ConfigTable::new(),
                debug_config: ConfigTable::new(),
                release_config: ConfigTable::new(),
                contextual_config: ContextTable::new(),
            },
        },
    }
}

fn text(s: &str) -> SingleValue {
    SingleValue::String(s.to_owned())
}

#[test]
fn every_section_is_written_and_absent_fields_are_left_out() {
    let f = document(version(vec![], vec![]));
    assert_eq!(
        "[sel4]\nversion = '1.2.3'\n\n[sel4.config]\n\n[sel4.config.debug]\n\n[sel4.config.release]\n",
        f.to_toml_string().unwrap()
    );
    let g = document(SeL4Source::LocalDirectories {
        kernel_dir: "../kernel".to_owned(),
        tools_dir: "/opt/tools dir".to_owned(),
    });
    assert_eq!(
        "[sel4]\nkernel_dir = '../kernel'\ntools_dir = '/opt/tools dir'\n\n[sel4.config]\n\n[sel4.config.debug]\n\n[sel4.config.release]\n",
        g.to_toml_string().unwrap()
    );
}

#[test]
fn a_built_document_is_written_in_its_order() {
    let mut f = document(version(
        vec![Identifier::AlphaNumeric("rc".to_owned()), Identifier::Numeric(2)],
        vec![Identifier::AlphaNumeric("007".to_owned())],
    ));
    f.sel4.default_platform = Some("board".to_owned());
    f.sel4.config.shared_config.insert("zeta".to_owned(), SingleValue::Integer(-12));
    f.sel4.config.shared_config.insert("alpha".to_owned(), text("plain"));
    f.sel4.config.shared_config.insert("zeta".to_owned(), SingleValue::Integer(i64::MIN));
    f.sel4.config.debug_config.insert("D".to_owned(), SingleValue::Boolean(true));
    f.sel4.config.release_config.insert("D".to_owned(), SingleValue::Boolean(false));
    let mut late = ConfigTable::new();
    late.insert("quote".to_owned(), text("it's"));
    late.insert("max".to_owned(), SingleValue::Integer(i64::MAX));
    f.sel4.config.contextual_config.insert("late".to_owned(), late);
    f.sel4.config.contextual_config.insert("early".to_owned(), ConfigTable::new());
    let expected = "[sel4]\ndefault_platform = 'board'\nversion = '1.2.3-rc.2+007'\n\n[sel4.config]\nzeta = -9223372036854775808\nalpha = 'plain'\n\n[sel4.config.debug]\nD = true\n\n[sel4.config.release]\nD = false\n\n[sel4.config.late]\nquote = \"it's\"\nmax = 9223372036854775807\n\n[sel4.config.early]\n";
    let written = f.to_toml_string().unwrap();
    assert_eq!(expected, written);
    assert_eq!(f, Full::parse(&written).unwrap());
}

#[test]
fn numbers_are_written_without_a_point() {
    for (n, s) in [(0i64, "0"), (7, "7"), (10, "10"), (256, "256"), (-1, "-1"), (-100, "-100"), (1234567890123, "1234567890123")] {
        let mut f = document(version(vec![], vec![]));
        f.sel4.config.shared_config.insert("n".to_owned(), SingleValue::Integer(n));
        let written = f.to_toml_string().unwrap();
        assert!(written.contains(&format!("\nn = {}\n", s)), "{}", written);
        assert_eq!(f, Full::parse(&written).unwrap());
    }
}

#[test]
fn names_that_cannot_be_written() {
    for bad in ["", "a b", "a.b", "k=", "é", "[x]", "a#"] {
        let mut f = document(version(vec![], vec![]));
        f.sel4.config.shared_config.insert(bad.to_owned(), SingleValue::Integer(1));
        assert_eq!(Err(SerializeError::UnwritableName), f.to_toml_string(), "{}", bad);
        let mut g = document(version(vec![], vec![]));
        g.sel4.config.debug_config.insert(bad.to_owned(), SingleValue::Integer(1));
        assert_eq!(Err(SerializeError::UnwritableName), g.to_toml_string(), "{}", bad);
        let mut h = document(version(vec![], vec![]));
        h.sel4.config.release_config.insert(bad.to_owned(), SingleValue::Integer(1));
        assert_eq!(Err(SerializeError::UnwritableName), h.to_toml_string(), "{}", bad);
        let mut i = document(version(vec![], vec![]));
        i.sel4.config.contextual_config.insert(bad.to_owned(), ConfigTable::new());
        assert_eq!(Err(SerializeError::UnwritableName), i.to_toml_string(), "{}", bad);
        let mut j = document(version(vec![], vec![]));
        let mut t = ConfigTable::new();
        t.insert(bad.to_owned(), SingleValue::Integer(1));
        j.sel4.config.contextual_config.insert("ctx".to_owned(), t);
        assert_eq!(Err(SerializeError::UnwritableName), j.to_toml_string(), "{}", bad);
    }
    for taken in ["debug", "release"] {
        let mut f = document(version(vec![], vec![]));
        f.sel4.config.contextual_config.insert(taken.to_owned(), ConfigTable::new());
        assert_eq!(Err(SerializeError::UnwritableName), f.to_toml_string());
    }
}

#[test]
fn strings_that_cannot_be_written() {
    for bad in ["a\nb", "'\"", "it's a \\ path", "\n"] {
        let mut f = document(version(vec![], vec![]));
        f.sel4.config.shared_config.insert("k".to_owned(), text(bad));
        assert_eq!(Err(SerializeError::UnwritableString), f.to_toml_string(), "{:?}", bad);
        let mut g = document(version(vec![], vec![]));
        g.sel4.default_platform = Some(bad.to_owned());
        assert_eq!(Err(SerializeError::UnwritableString), g.to_toml_string(), "{:?}", bad);
        let h = document(SeL4Source::LocalDirectories {
            kernel_dir: bad.to_owned(),
            tools_dir: "t".to_owned(),
        });
        assert_eq!(Err(SerializeError::UnwritableString), h.to_toml_string(), "{:?}", bad);
        let i = document(SeL4Source::LocalDirectories {
            kernel_dir: "k".to_owned(),
            tools_dir: bad.to_owned(),
        });
        assert_eq!(Err(SerializeError::UnwritableString), i.to_toml_string(), "{:?}", bad);
        let mut j = document(version(vec![], vec![]));
        let mut t = ConfigTable::new();
        t.insert("k".to_owned(), text(bad));
        j.sel4.config.contextual_config.insert("ctx".to_owned(), t);
        assert_eq!(Err(SerializeError::UnwritableString), j.to_toml_string(), "{:?}", bad);
    }
}

#[test]
fn strings_that_can_be_written() {
    for (good, written) in [
        ("", "''"),
        ("plain", "'plain'"),
        ("say \"hi\"", "'say \"hi\"'"),
        ("back\\slash", "'back\\slash'"),
        ("it's", "\"it's\""),
        ("tab\there # no comment", "'tab\there # no comment'"),
    ] {
        let mut f = document(version(vec![], vec![]));
        f.sel4.config.shared_config.insert("k".to_owned(), text(good));
        let out = f.to_toml_string().unwrap();
        assert!(out.contains(&format!("\nk = {}\n", written)), "{}", out);
        assert_eq!(f, Full::parse(&out).unwrap());
    }
}

#[test]
fn versions_that_cannot_be_written() {
    for bad in ["", "a.b", "a_b", "a+b", "01", "7", "a b"] {
        let f = document(version(vec![Identifier::AlphaNumeric(bad.to_owned())], vec![]));
        assert_eq!(Err(SerializeError::UnwritableVersion), f.to_toml_string(), "{}", bad);
    }
    for bad in ["", "a.b", "a_b", "a+b", "7", "0"] {
        let f = document(version(vec![], vec![Identifier::AlphaNumeric(bad.to_owned())]));
        assert_eq!(Err(SerializeError::UnwritableVersion), f.to_toml_string(), "{}", bad);
    }
    let fine = document(version(
        vec![Identifier::AlphaNumeric("0a".to_owned()), Identifier::Numeric(0)],
        vec![Identifier::AlphaNumeric("01".to_owned()), Identifier::AlphaNumeric("-".to_owned())],
    ));
    let out = fine.to_toml_string().unwrap();
    assert!(out.contains("version = '1.2.3-0a.0+01.-'\n"), "{}", out);
    assert_eq!(fine, Full::parse(&out).unwrap());
}

#[test]
fn a_name_is_reported_before_a_string_and_a_string_before_a_version() {
    let mut f = document(version(vec![Identifier::AlphaNumeric("01".to_owned())], vec![]));
    f.sel4.default_platform = Some("a\nb".to_owned());
    f.sel4.config.release_config.insert("not a key".to_owned(), SingleValue::Integer(1));
    assert_eq!(Err(SerializeError::UnwritableName), f.to_toml_string());
    let mut g = document(version(vec![Identifier::AlphaNumeric("01".to_owned())], vec![]));
    g.sel4.default_platform = Some("a\nb".to_owned());
    assert_eq!(Err(SerializeError::UnwritableString), g.to_toml_string());
}

#[test]
fn what_is_read_can_be_written_and_read_again() {
    let source = "  [sel4.config.b]\nk = \"x\"   # trailing\n\n[sel4]\r\ntools_dir = \"t's\"\nkernel_dir = 'k'\n[sel4.config.a]\n[sel4.config]\nn = +0\n";
    let f = Full::parse(source).unwrap();
    let written = f.to_toml_string().unwrap();
    assert_eq!(
        "[sel4]\nkernel_dir = 'k'\ntools_dir = \"t's\"\n\n[sel4.config]\nn = 0\n\n[sel4.config.debug]\n\n[sel4.config.release]\n\n[sel4.config.b]\nk = 'x'\n\n[sel4.config.a]\n",
        written
    );
    let g = Full::parse(&written).unwrap();
    assert_eq!(f, g);
    assert_eq!(written, g.to_toml_string().unwrap());
}
