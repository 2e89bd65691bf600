//! The text format of a document: what a text says, line by line, and how a
//! document is written.
//!
//! A text is read one line at a time. A header opens a table, and the pairs
//! that follow belong to it until the next header. `[sel4]` holds the default
//! platform and the source fields, `[sel4.config]` the shared keys,
//! `[sel4.config.debug]` and `[sel4.config.release]` the keys of the two kinds
//! of build, and `[sel4.config.<name>]` the keys of the context `<name>`.
//!
//! A document is written in one way only: `[sel4]`, `[sel4.config]`,
//! `[sel4.config.debug]`, `[sel4.config.release]`, then each context in its
//! order, with an empty line before every header but the first.

use vstd::prelude::*;
use crate::error::{LineFault, ParseError, SerializeError};
use crate::full::{ConfigView, FullView, SeL4View};
use crate::source::{source_of, SourceView};
use crate::syntax::{entry_line, header_line, parse_line, LineView};
use crate::table::{has_key, keyed, upsert, ContextsView, TableView};
use crate::text::{all_in, cut, lemma_cut, starts_with, Class};
use crate::value::{quote_for, writable, ValueView};
use crate::version::{render_version, version_wf};

verus! {

/// The table that the pairs of the next lines belong to.
pub enum Section {
    /// No header was read yet.
    Top,
    /// `[sel4]`.
    Root,
    /// `[sel4.config]`.
    Shared,
    /// `[sel4.config.debug]`.
    Debug,
    /// `[sel4.config.release]`.
    Release,
    /// `[sel4.config.<name>]`.
    Context(Seq<char>),
}

/// What was read of a document so far.
pub struct DraftView {
    /// The table that is open.
    pub section: Section,
    /// The pairs of the open table, unless that is `[sel4]`.
    pub current: TableView,
    pub seen_root: bool,
    pub seen_shared: bool,
    pub seen_debug: bool,
    pub seen_release: bool,
    pub default_platform: Option<Seq<char>>,
    pub kernel_dir: Option<Seq<char>>,
    pub tools_dir: Option<Seq<char>>,
    pub version: Option<Seq<char>>,
    pub shared: TableView,
    pub debug: TableView,
    pub release: TableView,
    pub contexts: ContextsView,
}

/// Nothing read yet.
pub open spec fn start() -> DraftView {
    DraftView {
        section: Section::Top,
        current: Seq::empty(),
        seen_root: false,
        seen_shared: false,
        seen_debug: false,
        seen_release: false,
        default_platform: None,
        kernel_dir: None,
        tools_dir: None,
        version: None,
        shared: Seq::empty(),
        debug: Seq::empty(),
        release: Seq::empty(),
        contexts: Seq::empty(),
    }
}

/// The draft with its open table put where it belongs, and no table open.
pub open spec fn close(d: DraftView) -> DraftView {
    let rest = DraftView { section: Section::Top, current: Seq::empty(), ..d };
    match d.section {
        Section::Top => rest,
        Section::Root => rest,
        Section::Shared => DraftView { shared: d.current, ..rest },
        Section::Debug => DraftView { debug: d.current, ..rest },
        Section::Release => DraftView { release: d.current, ..rest },
        Section::Context(name) => DraftView {
            contexts: upsert(d.contexts, name, d.current),
            ..rest
        },
    }
}

/// A name that can be written without quotes: one or more letters, digits,
/// `_` and `-`.
pub open spec fn name_ok(name: Seq<char>) -> bool {
    name.len() > 0 && all_in(name, Class::Bare)
}

/// The draft with the table `name` open, where no table is open in `d`.
///
/// Each table may be declared once. A name below `sel4.config.` with a `.`
/// in it would be a table inside a context, where only single values stand.
pub open spec fn open_section(d: DraftView, name: Seq<char>) -> Result<DraftView, LineFault> {
    if name == "sel4"@ {
        if d.seen_root {
            Err(LineFault::DuplicateSection)
        } else {
            Ok(DraftView { section: Section::Root, seen_root: true, ..d })
        }
    } else if name == "sel4.config"@ {
        if d.seen_shared {
            Err(LineFault::DuplicateSection)
        } else {
            Ok(DraftView { section: Section::Shared, seen_shared: true, ..d })
        }
    } else if starts_with(name, "sel4.config."@) {
        let rest = name.skip("sel4.config."@.len() as int);
        if rest == "debug"@ {
            if d.seen_debug {
                Err(LineFault::DuplicateSection)
            } else {
                Ok(DraftView { section: Section::Debug, seen_debug: true, ..d })
            }
        } else if rest == "release"@ {
            if d.seen_release {
                Err(LineFault::DuplicateSection)
            } else {
                Ok(DraftView { section: Section::Release, seen_release: true, ..d })
            }
        } else if name_ok(rest) {
            if has_key(d.contexts, rest) {
                Err(LineFault::DuplicateSection)
            } else {
                Ok(DraftView { section: Section::Context(rest), ..d })
            }
        } else if !all_in(rest, Class::Except('.')) {
            Err(LineFault::NotScalar)
        } else {
            Err(LineFault::UnknownSection)
        }
    } else {
        Err(LineFault::UnknownSection)
    }
}

/// What a field of `[sel4]` becomes when it is given `value`: the text of a
/// string, once.
pub open spec fn set_field(field: Option<Seq<char>>, value: ValueView) -> Result<
    Option<Seq<char>>,
    LineFault,
> {
    match value {
        ValueView::Text(s) => if field is Some {
            Err(LineFault::DuplicateKey)
        } else {
            Ok(Some(s))
        },
        _ => Err(LineFault::ExpectedString),
    }
}

/// The draft with a pair of `[sel4]` taken in.
pub open spec fn root_entry(d: DraftView, key: Seq<char>, value: ValueView) -> Result<
    DraftView,
    LineFault,
> {
    if key == "default_platform"@ {
        match set_field(d.default_platform, value) {
            Ok(f) => Ok(DraftView { default_platform: f, ..d }),
            Err(e) => Err(e),
        }
    } else if key == "kernel_dir"@ {
        match set_field(d.kernel_dir, value) {
            Ok(f) => Ok(DraftView { kernel_dir: f, ..d }),
            Err(e) => Err(e),
        }
    } else if key == "tools_dir"@ {
        match set_field(d.tools_dir, value) {
            Ok(f) => Ok(DraftView { tools_dir: f, ..d }),
            Err(e) => Err(e),
        }
    } else if key == "version"@ {
        match set_field(d.version, value) {
            Ok(f) => Ok(DraftView { version: f, ..d }),
            Err(e) => Err(e),
        }
    } else {
        Err(LineFault::UnknownKey)
    }
}

/// The draft with one more line taken in.
pub open spec fn step(d: DraftView, line: LineView) -> Result<DraftView, LineFault> {
    match line {
        LineView::Blank => Ok(d),
        LineView::Header(name) => open_section(close(d), name),
        LineView::Entry(key, value) => match d.section {
            Section::Top => Err(LineFault::UnknownKey),
            Section::Root => root_entry(d, key, value),
            _ => if has_key(d.current, key) {
                Err(LineFault::DuplicateKey)
            } else {
                Ok(DraftView { current: d.current.push((key, value)), ..d })
            },
        },
    }
}

/// The draft with the text of one line taken in.
pub open spec fn step_text(d: DraftView, line: Seq<char>) -> Result<DraftView, LineFault> {
    match parse_line(line) {
        Ok(l) => step(d, l),
        Err(f) => Err(f),
    }
}

/// The draft with all lines of `text` taken in, the first of which is line
/// `n + 1` of the document; or the first line that is refused.
pub open spec fn parse_text(d: DraftView, n: nat, text: Seq<char>) -> Result<DraftView, ParseError>
    decreases text.len(),
{
    let (line, rest) = cut(text, '\n');
    match step_text(d, line) {
        Err(f) => Err(ParseError::Line { line: (n + 1) as usize, fault: f }),
        Ok(next) => match rest {
            None => Ok(close(next)),
            Some(r) => {
                proof {
                    lemma_cut(text, '\n');
                }
                parse_text(next, n + 1, r)
            },
        },
    }
}

/// The document that a finished draft describes.
pub open spec fn assemble(d: DraftView) -> Result<FullView, ParseError> {
    match source_of(d.kernel_dir, d.tools_dir, d.version) {
        Err(e) => Err(ParseError::Source(e)),
        Ok(source) => Ok(
            FullView {
                sel4: SeL4View {
                    default_platform: d.default_platform,
                    source: source,
                    config: ConfigView {
                        shared_config: d.shared,
                        debug_config: d.debug,
                        release_config: d.release,
                        contextual_config: d.contexts,
                    },
                },
            },
        ),
    }
}

/// The document that a text describes.
pub open spec fn spec_parse(text: Seq<char>) -> Result<FullView, ParseError> {
    match parse_text(start(), 0, text) {
        Err(e) => Err(e),
        Ok(d) => assemble(d),
    }
}

/// How a pair is written: on a line of its own.
pub open spec fn entry_text(key: Seq<char>, value: ValueView) -> Seq<char> {
    entry_line(key, value) + seq!['\n']
}

/// How the pairs of a table are written: one after the other.
pub open spec fn table_text(t: TableView) -> Seq<char>
    decreases t.len(),
{
    if t.len() == 0 {
        Seq::empty()
    } else {
        entry_text(t[0].0, t[0].1) + table_text(t.drop_first())
    }
}

/// How a table is written: its header, then its pairs.
pub open spec fn section_text(name: Seq<char>, t: TableView) -> Seq<char> {
    header_line(name) + seq!['\n'] + table_text(t)
}

/// How the contexts are written: each after an empty line.
pub open spec fn contexts_text(cs: ContextsView) -> Seq<char>
    decreases cs.len(),
{
    if cs.len() == 0 {
        Seq::empty()
    } else {
        seq!['\n'] + section_text("sel4.config."@ + cs[0].0, cs[0].1) + contexts_text(
            cs.drop_first(),
        )
    }
}

/// The pair that names the default platform, where there is one.
pub open spec fn platform_entries(p: Option<Seq<char>>) -> TableView {
    match p {
        Some(s) => seq![("default_platform"@, ValueView::Text(s))],
        None => Seq::empty(),
    }
}

/// The pairs that describe a source: only the fields of its kind.
pub open spec fn source_entries(s: SourceView) -> TableView {
    match s {
        SourceView::LocalDirectories { kernel_dir, tools_dir } => seq![
            ("kernel_dir"@, ValueView::Text(kernel_dir)),
            ("tools_dir"@, ValueView::Text(tools_dir)),
        ],
        SourceView::Version(v) => seq![("version"@, ValueView::Text(render_version(v)))],
    }
}

/// The pairs of `[sel4]`.
pub open spec fn root_table(s: SeL4View) -> TableView {
    platform_entries(s.default_platform) + source_entries(s.source)
}

/// How a document is written.
pub open spec fn spec_serialize(d: FullView) -> Seq<char> {
    section_text("sel4"@, root_table(d.sel4)) + seq!['\n'] + section_text(
        "sel4.config"@,
        d.sel4.config.shared_config,
    ) + seq!['\n'] + section_text("sel4.config."@ + "debug"@, d.sel4.config.debug_config)
        + seq!['\n'] + section_text("sel4.config."@ + "release"@, d.sel4.config.release_config)
        + contexts_text(d.sel4.config.contextual_config)
}

/// Every key of the table can be written without quotes.
pub open spec fn keys_ok(t: TableView) -> bool {
    forall|i: int| 0 <= i < t.len() ==> name_ok((#[trigger] t[i]).0)
}

/// Every value of the table can be written.
pub open spec fn values_ok(t: TableView) -> bool {
    forall|i: int| 0 <= i < t.len() ==> writable((#[trigger] t[i]).1)
}

/// A name that a context can have: one that can be written without quotes
/// and is neither `debug` nor `release`.
pub open spec fn context_name_ok(name: Seq<char>) -> bool {
    name_ok(name) && name != "debug"@ && name != "release"@
}

/// Every context has a name that it can have, and keys that can be written
/// without quotes.
pub open spec fn context_names_ok(cs: ContextsView) -> bool {
    forall|i: int|
        0 <= i < cs.len() ==> context_name_ok((#[trigger] cs[i]).0) && keys_ok(cs[i].1)
}

/// Every value of every context can be written.
pub open spec fn context_values_ok(cs: ContextsView) -> bool {
    forall|i: int| 0 <= i < cs.len() ==> values_ok((#[trigger] cs[i]).1)
}

/// Every name of the document can be written.
pub open spec fn names_ok(d: FullView) -> bool {
    &&& keys_ok(d.sel4.config.shared_config)
    &&& keys_ok(d.sel4.config.debug_config)
    &&& keys_ok(d.sel4.config.release_config)
    &&& context_names_ok(d.sel4.config.contextual_config)
}

/// The strings of `[sel4]` can be written.
pub open spec fn root_strings_ok(s: SeL4View) -> bool {
    &&& s.default_platform matches Some(p) ==> quote_for(p) is Some
    &&& s.source matches SourceView::LocalDirectories { kernel_dir, tools_dir } ==> quote_for(
        kernel_dir,
    ) is Some && quote_for(tools_dir) is Some
}

/// Every string of the document can be written.
pub open spec fn strings_ok(d: FullView) -> bool {
    &&& root_strings_ok(d.sel4)
    &&& values_ok(d.sel4.config.shared_config)
    &&& values_ok(d.sel4.config.debug_config)
    &&& values_ok(d.sel4.config.release_config)
    &&& context_values_ok(d.sel4.config.contextual_config)
}

/// The version of the document, if it has one, is read back as itself once
/// written.
pub open spec fn version_ok(d: FullView) -> bool {
    d.sel4.source matches SourceView::Version(v) ==> version_wf(v)
}

/// What keeps a document from being written, if anything does: a name, else
/// a string, else the version.
pub open spec fn fault_of(d: FullView) -> Option<SerializeError> {
    if !names_ok(d) {
        Some(SerializeError::UnwritableName)
    } else if !strings_ok(d) {
        Some(SerializeError::UnwritableString)
    } else if !version_ok(d) {
        Some(SerializeError::UnwritableVersion)
    } else {
        None
    }
}

/// No context name occurs twice, and no key occurs twice in a table.
pub open spec fn tables_keyed(c: ConfigView) -> bool {
    &&& keyed(c.shared_config)
    &&& keyed(c.debug_config)
    &&& keyed(c.release_config)
    &&& keyed(c.contextual_config)
    &&& forall|i: int|
        0 <= i < c.contextual_config.len() ==> keyed((#[trigger] c.contextual_config[i]).1)
}

/// A document that can be written, and in which nothing occurs twice.
pub open spec fn well_formed(d: FullView) -> bool {
    fault_of(d) is None && tables_keyed(d.sel4.config)
}

/// A table made of two parts is written as the one part and then the other.
pub proof fn lemma_table_text_concat(a: TableView, b: TableView)
    ensures
        table_text(a + b) == table_text(a) + table_text(b),
    decreases a.len(),
{
    if a.len() == 0 {
        assert(a + b =~= b);
        assert(table_text(a) + table_text(b) =~= table_text(b));
    } else {
        lemma_table_text_concat(a.drop_first(), b);
        assert((a + b).drop_first() =~= a.drop_first() + b);
        assert((a + b)[0] == a[0]);
        assert(table_text(a + b) =~= table_text(a) + table_text(b));
    }
}

/// A table of one pair is written as that pair.
pub proof fn lemma_table_text_one(key: Seq<char>, value: ValueView)
    ensures
        table_text(seq![(key, value)]) == entry_text(key, value),
{
    let t = seq![(key, value)];
    assert(t.drop_first() =~= Seq::<(Seq<char>, ValueView)>::empty());
    assert(table_text(t.drop_first()) =~= Seq::<char>::empty());
    assert(t[0] == (key, value));
    assert(table_text(t) =~= entry_text(key, value));
}

/// A table is written as its first pairs and then the pairs from `i` on.
pub proof fn lemma_table_text_skip(t: TableView, i: int)
    requires
        0 <= i < t.len(),
    ensures
        table_text(t.skip(i)) == entry_text(t[i].0, t[i].1) + table_text(t.skip(i + 1)),
{
    assert(t.skip(i).drop_first() =~= t.skip(i + 1));
    assert(t.skip(i)[0] == t[i]);
}

/// The contexts from `i` on are written as the context at `i` and then the
/// contexts behind it.
pub proof fn lemma_contexts_text_skip(cs: ContextsView, i: int)
    requires
        0 <= i < cs.len(),
    ensures
        contexts_text(cs.skip(i)) == seq!['\n'] + section_text(
            "sel4.config."@ + cs[i].0,
            cs[i].1,
        ) + contexts_text(cs.skip(i + 1)),
{
    assert(cs.skip(i).drop_first() =~= cs.skip(i + 1));
    assert(cs.skip(i)[0] == cs[i]);
}

} // verus!
