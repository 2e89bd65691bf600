use confignoble::contextualized::Contextualized;
use confignoble::error::{ImportError, LineFault, ParseError, ResolutionError, SourceError};
use confignoble::full::Full;
use confignoble::table::ConfigTable;
use confignoble::{SeL4Source, SingleValue};

const LAYERS: &str = "[sel4]
default_platform = 'board'
kernel_dir = 'k'
tools_dir = 't'

[sel4.config]
Shared = 'shared'
Build = 'shared'
Target = 'shared'
Platform = 'shared'

[sel4.config.debug]
Build = 'debug'
Target = 'debug'
Platform = 'debug'
OnlyDebug = 1

[sel4.config.release]
Build = 'release'
OnlyRelease = 2

[sel4.config.arm]
Target = 'arm'
Platform = 'arm'
OnlyArm = 3

[sel4.config.board]
Platform = 'board'
OnlyBoard = 4

[sel4.config.other]
OnlyOther = 5
";

fn text(s: &str) -> SingleValue {
    SingleValue::String(s.to_owned())
}

fn keys(t: &ConfigTable) -> Vec<String> {
    let mut out = vec![];
    let mut i = 0;
    while let Some((k, _)) = t.entry(i) {
        out.push(k.clone());
        i += 1;
    }
    out
}

#[test]
fn a_later_layer_wins() {
    let r = Contextualized::from_str(LAYERS, "arm".to_owned(), true, Some("board".to_owned())).unwrap();
    let c = &r.sel4_config;
    assert_eq!(Some(&text("shared")), c.get("Shared"));
    assert_eq!(Some(&text("debug")), c.get("Build"));
    assert_eq!(Some(&text("arm")), c.get("Target"));
    assert_eq!(Some(&text("board")), c.get("Platform"));
    assert_eq!(Some(&SingleValue::Integer(1)), c.get("OnlyDebug"));
    assert_eq!(Some(&SingleValue::Integer(3)), c.get("OnlyArm"));
    assert_eq!(Some(&SingleValue::Integer(4)), c.get("OnlyBoard"));
    assert_eq!(None, c.get("OnlyRelease"));
    assert_eq!(None, c.get("OnlyOther"));
    assert_eq!(None, c.get("Nowhere"));
    assert_eq!(7, c.len());
    assert_eq!(
        vec!["Shared", "Build", "Target", "Platform", "OnlyDebug", "OnlyArm", "OnlyBoard"],
        keys(c)
    );
}

#[test]
fn the_kind_of_build_chooses_its_layer() {
    let r = Contextualized::from_str(LAYERS, "arm".to_owned(), false, Some("other".to_owned())).unwrap();
    let c = &r.sel4_config;
    assert_eq!(Some(&text("release")), c.get("Build"));
    assert_eq!(Some(&text("arm")), c.get("Target"));
    assert_eq!(Some(&text("arm")), c.get("Platform"));
    assert_eq!(Some(&SingleValue::Integer(2)), c.get("OnlyRelease"));
    assert_eq!(Some(&SingleValue::Integer(5)), c.get("OnlyOther"));
    assert_eq!(None, c.get("OnlyDebug"));
    assert_eq!(false, r.context.is_debug);
    assert_eq!("other", r.context.platform);
}

#[test]
fn a_context_that_is_not_declared_adds_nothing() {
    let r = Contextualized::from_str(LAYERS, "riscv".to_owned(), true, Some("nowhere".to_owned())).unwrap();
    let c = &r.sel4_config;
    assert_eq!(5, c.len());
    assert_eq!(Some(&text("debug")), c.get("Target"));
    assert_eq!(Some(&text("debug")), c.get("Platform"));
    assert_eq!("riscv", r.context.target);
    assert_eq!("nowhere", r.context.platform);
}

#[test]
fn without_a_platform_the_default_is_meant() {
    let f = Full::parse(LAYERS).unwrap();
    let implicit = Contextualized::from_full(f.clone(), "arm".to_owned(), true, None).unwrap();
    let explicit =
        Contextualized::from_full(f.clone(), "arm".to_owned(), true, Some("board".to_owned())).unwrap();
    assert_eq!(implicit, explicit);
    assert_eq!("board", implicit.context.platform);
    let other =
        Contextualized::from_full(f.clone(), "arm".to_owned(), true, Some("other".to_owned())).unwrap();
    assert_ne!(implicit.context, other.context);
    assert_ne!(implicit.sel4_config, other.sel4_config);
    assert_eq!(f.sel4.source, other.sel4_source);
}

#[test]
fn target_and_platform_are_looked_up_in_one_place() {
    let r = Contextualized::from_str(LAYERS, "board".to_owned(), false, Some("arm".to_owned())).unwrap();
    let c = &r.sel4_config;
    assert_eq!(Some(&text("arm")), c.get("Platform"));
    assert_eq!(Some(&text("arm")), c.get("Target"));
    assert_eq!(Some(&SingleValue::Integer(4)), c.get("OnlyBoard"));
    assert_eq!(Some(&SingleValue::Integer(3)), c.get("OnlyArm"));
}

#[test]
fn no_platform_at_all() {
    let text = "[sel4]\nversion = '1.0.0'\n[sel4.config]\nk = 1\n";
    assert_eq!(
        Err(ImportError::Resolution(ResolutionError::MissingPlatform)),
        Contextualized::from_str(text, "arm".to_owned(), true, None)
    );
    let f = Full::parse(text).unwrap();
    assert_eq!(
        Err(ResolutionError::MissingPlatform),
        Contextualized::from_full(f.clone(), "arm".to_owned(), false, None)
    );
    let r = Contextualized::from_full(f, "arm".to_owned(), false, Some("p".to_owned())).unwrap();
    assert_eq!(1, r.sel4_config.len());
    assert_eq!(
        SeL4Source::Version(confignoble::version::Version {
            major: 1,
            minor: 0,
            patch: 0,
            pre: vec![],
            build: vec![]
        }),
        r.sel4_source
    );
}

#[test]
fn a_text_that_is_no_document_is_not_resolved() {
    assert_eq!(
        Err(ImportError::Parse(ParseError::Line { line: 2, fault: LineFault::Syntax })),
        Contextualized::from_str("[sel4]\n!\n", "arm".to_owned(), true, Some("p".to_owned()))
    );
    assert_eq!(
        Err(ImportError::Parse(ParseError::Source(SourceError::MissingSource))),
        Contextualized::from_str("[sel4]\n", "arm".to_owned(), true, None)
    );
}

#[test]
fn a_table_keeps_the_order_of_its_keys() {
    let mut t = ConfigTable::new();
    assert!(t.is_empty());
    assert_eq!(0, t.len());
    t.insert("b".to_owned(), SingleValue::Integer(1));
    t.insert("a".to_owned(), SingleValue::Integer(2));
    t.insert("b".to_owned(), SingleValue::Integer(3));
    assert_eq!(2, t.len());
    assert!(!t.is_empty());
    assert_eq!(vec!["b", "a"], keys(&t));
    assert_eq!(Some(&SingleValue::Integer(3)), t.get("b"));
    assert_eq!(Some(&SingleValue::Integer(2)), t.get("a"));
    assert_eq!(None, t.get("c"));
    assert_eq!(None, t.get(""));
    assert!(t.contains_key("a"));
    assert!(!t.contains_key("A"));
    assert!(t.entry(2).is_none());
    let copy = t.clone();
    assert_eq!(t, copy);
    t.insert("c".to_owned(), SingleValue::Boolean(false));
    assert_ne!(t, copy);
}

#[test]
fn a_context_that_repeats_what_is_below_changes_only_the_platform() {
    let text = "[sel4]\ndefault_platform = 'b'\nversion = '1.0.0'\n[sel4.config]\nk = 1\n[sel4.config.a]\nk = 1\n[sel4.config.b]\n";
    let f = Full::parse(text).unwrap();
    let default = Contextualized::from_full(f.clone(), "t".to_owned(), true, None).unwrap();
    let other = Contextualized::from_full(f, "t".to_owned(), true, Some("a".to_owned())).unwrap();
    assert_eq!("b", default.context.platform);
    assert_eq!("a", other.context.platform);
    assert_ne!(default, other);
    assert_eq!(default.sel4_config, other.sel4_config);
    assert_eq!(Some(&SingleValue::Integer(1)), other.sel4_config.get("k"));
}
