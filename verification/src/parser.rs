//! Reading a document: the lines of a text taken in one by one.

use vstd::prelude::*;
use vstd::slice::slice_subrange;
use crate::error::{LineFault, ParseError};
use crate::format::{
    assemble, close, open_section, parse_text, root_entry, set_field, spec_parse, start, step,
    DraftView, Section,
};
use crate::full::{Config, Full, SeL4};
use crate::source::SeL4Source;
use crate::syntax::{lemma_blank_line, read_line, Line};
use crate::table::{ConfigTable, ContextTable};
use crate::text::{after_prefix, chars_of, lemma_cut, lemma_span_all, scan, spells, split, string_of, Class};
use crate::value::SingleValue;
use crate::views::{agrees, opt_view};

verus! {

/// The table that the pairs of the next lines belong to.
pub enum Open {
    Top,
    Root,
    Shared,
    Debug,
    Release,
    Context(String),
}

impl View for Open {
    type V = Section;

    open spec fn view(&self) -> Section {
        match self {
            Open::Top => Section::Top,
            Open::Root => Section::Root,
            Open::Shared => Section::Shared,
            Open::Debug => Section::Debug,
            Open::Release => Section::Release,
            Open::Context(name) => Section::Context(name@),
        }
    }
}

/// What was read of a document so far.
pub struct Draft {
    pub section: Open,
    pub current: ConfigTable,
    pub seen_root: bool,
    pub seen_shared: bool,
    pub seen_debug: bool,
    pub seen_release: bool,
    pub default_platform: Option<String>,
    pub kernel_dir: Option<String>,
    pub tools_dir: Option<String>,
    pub version: Option<String>,
    pub shared: ConfigTable,
    pub debug: ConfigTable,
    pub release: ConfigTable,
    pub contexts: ContextTable,
}

impl View for Draft {
    type V = DraftView;

    open spec fn view(&self) -> DraftView {
        DraftView {
            section: self.section@,
            current: self.current@,
            seen_root: self.seen_root,
            seen_shared: self.seen_shared,
            seen_debug: self.seen_debug,
            seen_release: self.seen_release,
            default_platform: opt_view(self.default_platform),
            kernel_dir: opt_view(self.kernel_dir),
            tools_dir: opt_view(self.tools_dir),
            version: opt_view(self.version),
            shared: self.shared@,
            debug: self.debug@,
            release: self.release@,
            contexts: self.contexts@,
        }
    }
}

/// Nothing read yet.
pub fn start_draft() -> (d: Draft)
    ensures
        d@ == start(),
{
    Draft {
        section: Open::Top,
        current: ConfigTable::new(),
        seen_root: false,
        seen_shared: false,
        seen_debug: false,
        seen_release: false,
        default_platform: None,
        kernel_dir: None,
        tools_dir: None,
        version: None,
        shared: ConfigTable::new(),
        debug: ConfigTable::new(),
        release: ConfigTable::new(),
        contexts: ContextTable::new(),
    }
}

/// Puts the open table where it belongs.
pub fn close_draft(d: Draft) -> (r: Draft)
    ensures
        r@ == close(d@),
{
    let mut d = d;
    let mut table = ConfigTable::new();
    let mut section = Open::Top;
    std::mem::swap(&mut d.current, &mut table);
    std::mem::swap(&mut d.section, &mut section);
    match section {
        Open::Top => {},
        Open::Root => {},
        Open::Shared => {
            d.shared = table;
        },
        Open::Debug => {
            d.debug = table;
        },
        Open::Release => {
            d.release = table;
        },
        Open::Context(name) => {
            d.contexts.insert(name, table);
        },
    }
    d
}

/// Opens the table `name`.
pub fn open_draft(d: Draft, name: &String) -> (r: Result<Draft, LineFault>)
    ensures
        agrees(r, open_section(d@, name@)),
{
    let mut d = d;
    let chars = chars_of(name.as_str());
    let s = chars.as_slice();
    if spells(s, "sel4") {
        if d.seen_root {
            Err(LineFault::DuplicateSection)
        } else {
            d.section = Open::Root;
            d.seen_root = true;
            Ok(d)
        }
    } else if spells(s, "sel4.config") {
        if d.seen_shared {
            Err(LineFault::DuplicateSection)
        } else {
            d.section = Open::Shared;
            d.seen_shared = true;
            Ok(d)
        }
    } else {
        match after_prefix(s, "sel4.config.") {
            None => Err(LineFault::UnknownSection),
            Some(n) => {
                let rest = slice_subrange(s, n, s.len());
                proof {
                    assert(rest@ =~= name@.skip(n as int));
                    lemma_span_all(rest@, Class::Bare);
                    lemma_span_all(rest@, Class::Except('.'));
                }
                if spells(rest, "debug") {
                    if d.seen_debug {
                        Err(LineFault::DuplicateSection)
                    } else {
                        d.section = Open::Debug;
                        d.seen_debug = true;
                        Ok(d)
                    }
                } else if spells(rest, "release") {
                    if d.seen_release {
                        Err(LineFault::DuplicateSection)
                    } else {
                        d.section = Open::Release;
                        d.seen_release = true;
                        Ok(d)
                    }
                } else if rest.len() > 0 && scan(rest, 0, Class::Bare) == rest.len() {
                    let context = string_of(rest);
                    if d.contexts.contains_key(context.as_str()) {
                        Err(LineFault::DuplicateSection)
                    } else {
                        d.section = Open::Context(context);
                        Ok(d)
                    }
                } else if scan(rest, 0, Class::Except('.')) < rest.len() {
                    Err(LineFault::NotScalar)
                } else {
                    Err(LineFault::UnknownSection)
                }
            },
        }
    }
}

/// Gives a field of `[sel4]` its value: the text of a string, once.
fn set(field: Option<String>, value: SingleValue) -> (r: Result<Option<String>, LineFault>)
    ensures
        match set_field(opt_view(field), value@) {
            Ok(f) => r matches Ok(x) && opt_view(x) == f,
            Err(e) => r matches Err(g) && g == e,
        },
{
    match value {
        SingleValue::String(s) => {
            if field.is_some() {
                Err(LineFault::DuplicateKey)
            } else {
                Ok(Some(s))
            }
        },
        _ => Err(LineFault::ExpectedString),
    }
}

/// Takes a pair of `[sel4]` in.
fn root_pair(d: Draft, key: String, value: SingleValue) -> (r: Result<Draft, LineFault>)
    ensures
        agrees(r, root_entry(d@, key@, value@)),
{
    let mut d = d;
    let chars = chars_of(key.as_str());
    let k = chars.as_slice();
    let mut field: Option<String> = None;
    if spells(k, "default_platform") {
        std::mem::swap(&mut d.default_platform, &mut field);
        match set(field, value) {
            Ok(f) => {
                d.default_platform = f;
                Ok(d)
            },
            Err(e) => Err(e),
        }
    } else if spells(k, "kernel_dir") {
        std::mem::swap(&mut d.kernel_dir, &mut field);
        match set(field, value) {
            Ok(f) => {
                d.kernel_dir = f;
                Ok(d)
            },
            Err(e) => Err(e),
        }
    } else if spells(k, "tools_dir") {
        std::mem::swap(&mut d.tools_dir, &mut field);
        match set(field, value) {
            Ok(f) => {
                d.tools_dir = f;
                Ok(d)
            },
            Err(e) => Err(e),
        }
    } else if spells(k, "version") {
        std::mem::swap(&mut d.version, &mut field);
        match set(field, value) {
            Ok(f) => {
                d.version = f;
                Ok(d)
            },
            Err(e) => Err(e),
        }
    } else {
        Err(LineFault::UnknownKey)
    }
}

/// Takes one more line in.
pub fn take_line(d: Draft, line: Line) -> (r: Result<Draft, LineFault>)
    ensures
        agrees(r, step(d@, line@)),
{
    match line {
        Line::Blank => Ok(d),
        Line::Header(name) => open_draft(close_draft(d), &name),
        Line::Entry(key, value) => {
            let top = match &d.section {
                Open::Top => true,
                _ => false,
            };
            let root = match &d.section {
                Open::Root => true,
                _ => false,
            };
            if top {
                Err(LineFault::UnknownKey)
            } else if root {
                root_pair(d, key, value)
            } else if d.current.contains_key(key.as_str()) {
                Err(LineFault::DuplicateKey)
            } else {
                let mut d = d;
                d.current.insert(key, value);
                Ok(d)
            }
        },
    }
}

/// The document that a finished draft describes.
pub fn finish(d: Draft) -> (r: Result<Full, ParseError>)
    ensures
        agrees(r, assemble(d@)),
{
    let Draft {
        default_platform,
        kernel_dir,
        tools_dir,
        version,
        shared,
        debug,
        release,
        contexts,
        ..
    } = d;
    match SeL4Source::from_fields(kernel_dir, tools_dir, version) {
        Err(e) => Err(ParseError::Source(e)),
        Ok(source) => Ok(
            Full {
                sel4: SeL4 {
                    default_platform,
                    source,
                    config: Config {
                        shared_config: shared,
                        debug_config: debug,
                        release_config: release,
                        contextual_config: contexts,
                    },
                },
            },
        ),
    }
}

/// Reads a document.
pub fn read_document(text: &str) -> (r: Result<Full, ParseError>)
    ensures
        agrees(r, spec_parse(text@)),
{
    let chars = chars_of(text);
    let total: usize = chars.len();
    let mut rest: &[char] = chars.as_slice();
    let mut d = start_draft();
    let mut n: usize = 0;
    loop
        invariant
            n + rest@.len() <= total,
            parse_text(d@, n as nat, rest@) == parse_text(start(), 0, text@),
        decreases rest@.len(),
    {
        let (line, tail) = split(rest, '\n');
        proof {
            lemma_cut(rest@, '\n');
            lemma_blank_line();
            if rest@.len() == 0 {
                assert(line@ =~= Seq::<char>::empty());
            }
        }
        match read_line(line) {
            Err(f) => {
                return Err(ParseError::Line { line: n + 1, fault: f });
            },
            Ok(l) => {
                match take_line(d, l) {
                    Err(f) => {
                        return Err(ParseError::Line { line: n + 1, fault: f });
                    },
                    Ok(next) => {
                        match tail {
                            None => {
                                return finish(close_draft(next));
                            },
                            Some(t) => {
                                d = next;
                                rest = t;
                                n = n + 1;
                            },
                        }
                    },
                }
            },
        }
    }
}

} // verus!
