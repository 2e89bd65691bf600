//! Writing and reading back: a document that can be written is the document
//! that its text describes.

use vstd::prelude::*;
use crate::error::{LineFault, ParseError};
use crate::format::{
    assemble, close, context_name_ok, context_names_ok, context_values_ok, contexts_text,
    entry_text, keys_ok, name_ok, open_section, parse_text, platform_entries, root_entry,
    root_strings_ok, root_table, section_text, source_entries, spec_parse, spec_serialize, start,
    step_text,
    table_text, values_ok, well_formed, DraftView, Section,
};
use crate::full::{FullView, SeL4View};
use crate::soundness::lemma_parsed_well_formed;
use crate::source::SourceView;
use crate::syntax::{entry_line, header_line, lemma_blank_line, lemma_entry_line, lemma_header_line};
use crate::table::{has_key, keyed, lemma_has_key, ContextsView, TableView};
use crate::text::{all_in, cut, lemma_all_in_concat, lemma_all_in_weaken, lemma_cut_joined, Class};
use crate::value::{quote_for, writable, ValueView};
use crate::version::{lemma_version_round_trip, lemma_version_text, render_version};

verus! {

/// What the fixed words of the format are made of.
pub proof fn lemma_words()
    ensures
        "sel4"@.len() == 4,
        "sel4.config"@.len() == 11,
        "sel4.config."@.len() == 12,
        all_in("sel4"@, Class::Except(']')),
        all_in("sel4"@, Class::Except('\n')),
        all_in("sel4.config"@, Class::Except(']')),
        all_in("sel4.config"@, Class::Except('\n')),
        all_in("sel4.config."@, Class::Except(']')),
        all_in("sel4.config."@, Class::Except('\n')),
        name_ok("debug"@),
        name_ok("release"@),
        name_ok("default_platform"@),
        name_ok("kernel_dir"@),
        name_ok("tools_dir"@),
        name_ok("version"@),
        "debug"@.len() == 5,
        "release"@.len() == 7,
        "default_platform"@.len() == 16,
        "kernel_dir"@.len() == 10,
        "tools_dir"@.len() == 9,
        "version"@.len() == 7,
{
    reveal_strlit("sel4");
    reveal_strlit("sel4.config");
    reveal_strlit("sel4.config.");
    reveal_strlit("debug");
    reveal_strlit("release");
    reveal_strlit("default_platform");
    reveal_strlit("kernel_dir");
    reveal_strlit("tools_dir");
    reveal_strlit("version");
}

/// A name made of letters, digits, `_` and `-` holds no `]` and no line break.
pub proof fn lemma_name_plain(name: Seq<char>)
    requires
        all_in(name, Class::Bare),
    ensures
        all_in(name, Class::Except(']')),
        all_in(name, Class::Except('\n')),
        all_in(name, Class::Except('.')),
{
    lemma_all_in_weaken(name, Class::Bare, Class::Except(']'));
    lemma_all_in_weaken(name, Class::Bare, Class::Except('\n'));
    lemma_all_in_weaken(name, Class::Bare, Class::Except('.'));
}

/// Reading a text that starts with a whole line takes that line in and goes
/// on with what follows it.
pub proof fn lemma_first_line(d: DraftView, n: nat, line: Seq<char>, rest: Seq<char>)
    requires
        all_in(line, Class::Except('\n')),
    ensures
        parse_text(d, n, line + seq!['\n'] + rest) == match step_text(d, line) {
            Err(f) => Err(ParseError::Line { line: (n + 1) as usize, fault: f }),
            Ok(next) => parse_text(next, n + 1, rest),
        },
{
    lemma_cut_joined(line, '\n', rest);
}

/// Reading an empty line changes nothing.
pub proof fn lemma_empty_line(d: DraftView, n: nat, rest: Seq<char>)
    ensures
        parse_text(d, n, seq!['\n'] + rest) == parse_text(d, n + 1, rest),
{
    let empty = Seq::<char>::empty();
    lemma_blank_line();
    lemma_first_line(d, n, empty, rest);
    assert(empty + seq!['\n'] + rest =~= seq!['\n'] + rest);
}

/// Reading a written header closes the open table and opens the named one.
pub proof fn lemma_header(d: DraftView, n: nat, name: Seq<char>, rest: Seq<char>)
    requires
        all_in(name, Class::Except(']')),
        all_in(name, Class::Except('\n')),
        open_section(close(d), name) is Ok,
    ensures
        parse_text(d, n, header_line(name) + seq!['\n'] + rest) == parse_text(
            open_section(close(d), name)->Ok_0,
            n + 1,
            rest,
        ),
{
    lemma_header_line(name);
    lemma_all_in_concat(seq!['['], name, Class::Except('\n'));
    lemma_all_in_concat(seq!['['] + name, seq![']'], Class::Except('\n'));
    lemma_first_line(d, n, header_line(name), rest);
}

/// Reading the written pairs of a table puts them behind the pairs of the
/// open table.
pub proof fn lemma_table(d: DraftView, n: nat, t: TableView, rest: Seq<char>)
    requires
        d.section !is Top,
        d.section !is Root,
        keys_ok(t),
        values_ok(t),
        keyed(d.current + t),
    ensures
        parse_text(d, n, table_text(t) + rest) == parse_text(
            DraftView { current: d.current + t, ..d },
            n + t.len(),
            rest,
        ),
    decreases t.len(),
{
    if t.len() == 0 {
        assert(table_text(t) + rest =~= rest);
        assert(d.current + t =~= d.current);
    } else {
        let key = t[0].0;
        let value = t[0].1;
        let more = t.drop_first();
        let line = entry_line(key, value);
        let all = d.current + t;
        let at = d.current.len() as int;
        lemma_entry_line(key, value);
        assert(table_text(t) + rest =~= line + seq!['\n'] + (table_text(more) + rest));
        lemma_first_line(d, n, line, table_text(more) + rest);
        assert(all[at] == t[0]);
        lemma_has_key(d.current, key);
        if has_key(d.current, key) {
            let i = choose|i: int| 0 <= i < d.current.len() && (#[trigger] d.current[i]).0 == key;
            assert(all[i] == d.current[i]);
            assert(all[i].0 != all[at].0);
        }
        let next = DraftView { current: d.current.push((key, value)), ..d };
        assert(step_text(d, line) == Ok::<DraftView, LineFault>(next));
        assert(next.current + more =~= all);
        assert forall|i: int| 0 <= i < more.len() implies name_ok((#[trigger] more[i]).0)
            && writable(more[i].1) by {
            assert(more[i] == t[i + 1]);
        }
        lemma_table(next, n + 1, more, rest);
    }
}

/// The draft with the fields of `[sel4]` that a document has.
pub open spec fn with_root(d: DraftView, s: SeL4View) -> DraftView {
    match s.source {
        SourceView::LocalDirectories { kernel_dir, tools_dir } => DraftView {
            default_platform: s.default_platform,
            kernel_dir: Some(kernel_dir),
            tools_dir: Some(tools_dir),
            ..d
        },
        SourceView::Version(v) => DraftView {
            default_platform: s.default_platform,
            version: Some(render_version(v)),
            ..d
        },
    }
}

/// Reading one written pair of `[sel4]` sets its field.
proof fn lemma_root_pair(d: DraftView, n: nat, key: Seq<char>, s: Seq<char>, rest: Seq<char>)
    requires
        d.section is Root,
        name_ok(key),
        quote_for(s) is Some,
        root_entry(d, key, ValueView::Text(s)) is Ok,
    ensures
        parse_text(d, n, table_text(seq![(key, ValueView::Text(s))]) + rest) == parse_text(
            root_entry(d, key, ValueView::Text(s))->Ok_0,
            n + 1,
            rest,
        ),
{
    let value = ValueView::Text(s);
    crate::format::lemma_table_text_one(key, value);
    lemma_entry_line(key, value);
    assert(entry_text(key, value) + rest =~= entry_line(key, value) + seq!['\n'] + rest);
    lemma_first_line(d, n, entry_line(key, value), rest);
}

/// Reading the written pairs of `[sel4]` sets the fields that the document
/// has.
pub proof fn lemma_root(d: DraftView, n: nat, s: SeL4View, rest: Seq<char>)
    requires
        d.section is Root,
        d.default_platform is None,
        d.kernel_dir is None,
        d.tools_dir is None,
        d.version is None,
        root_strings_ok(s),
        s.source matches SourceView::Version(v) ==> crate::version::version_wf(v),
    ensures
        parse_text(d, n, table_text(root_table(s)) + rest) == parse_text(
            with_root(d, s),
            n + root_table(s).len(),
            rest,
        ),
{
    lemma_words();
    let d1 = DraftView { default_platform: s.default_platform, ..d };
    let source_text = table_text(source_entries(s.source));
    crate::format::lemma_table_text_concat(
        platform_entries(s.default_platform),
        source_entries(s.source),
    );
    let n1 = n + platform_entries(s.default_platform).len();
    // the default platform
    match s.default_platform {
        Some(p) => {
            lemma_root_pair(d, n, "default_platform"@, p, source_text + rest);
            assert(table_text(root_table(s)) + rest =~= table_text(
                platform_entries(s.default_platform),
            ) + (source_text + rest));
        },
        None => {
            assert(d1 == d);
            assert(table_text(platform_entries(s.default_platform)) =~= Seq::<char>::empty());
            assert(table_text(root_table(s)) + rest =~= source_text + rest);
        },
    }
    assert(parse_text(d, n, table_text(root_table(s)) + rest) == parse_text(
        d1,
        n1,
        source_text + rest,
    ));
    // the source
    match s.source {
        SourceView::LocalDirectories { kernel_dir, tools_dir } => {
            let a = seq![("kernel_dir"@, ValueView::Text(kernel_dir))];
            let b = seq![("tools_dir"@, ValueView::Text(tools_dir))];
            assert(a + b =~= source_entries(s.source));
            crate::format::lemma_table_text_concat(a, b);
            let d2 = DraftView { kernel_dir: Some(kernel_dir), ..d1 };
            assert(source_text + rest =~= table_text(a) + (table_text(b) + rest));
            lemma_root_pair(d1, n1, "kernel_dir"@, kernel_dir, table_text(b) + rest);
            lemma_root_pair(d2, n1 + 1, "tools_dir"@, tools_dir, rest);
        },
        SourceView::Version(v) => {
            lemma_version_text(v, '\n');
            lemma_version_text(v, '\'');
            lemma_root_pair(d1, n1, "version"@, render_version(v), rest);
        },
    }
}

/// Reading the written contexts puts them behind the contexts that were
/// read, and ends the document.
pub proof fn lemma_contexts(d: DraftView, n: nat, cs: ContextsView)
    requires
        context_names_ok(cs),
        context_values_ok(cs),
        keyed(close(d).contexts + cs),
        forall|i: int| 0 <= i < cs.len() ==> keyed((#[trigger] cs[i]).1),
    ensures
        parse_text(d, n, contexts_text(cs)) == Ok::<DraftView, ParseError>(
            DraftView { contexts: close(d).contexts + cs, ..close(d) },
        ),
    decreases cs.len(),
{
    let closed = close(d);
    if cs.len() == 0 {
        lemma_blank_line();
        assert(contexts_text(cs) =~= Seq::<char>::empty());
        assert(closed.contexts + cs =~= closed.contexts);
        assert(cut(Seq::<char>::empty(), '\n').1 is None);
    } else {
        lemma_words();
        let name = cs[0].0;
        let table = cs[0].1;
        let more = cs.drop_first();
        let full_name = "sel4.config."@ + name;
        let all = closed.contexts + cs;
        let at = closed.contexts.len() as int;
        let tail = contexts_text(more);
        // the empty line
        assert(contexts_text(cs) =~= seq!['\n'] + (header_line(full_name) + seq!['\n'] + (
        table_text(table) + tail)));
        lemma_empty_line(d, n, header_line(full_name) + seq!['\n'] + (table_text(table) + tail));
        // the header
        lemma_name_plain(name);
        lemma_all_in_concat("sel4.config."@, name, Class::Except(']'));
        lemma_all_in_concat("sel4.config."@, name, Class::Except('\n'));
        assert(full_name.take(12) =~= "sel4.config."@);
        assert(full_name.skip(12) =~= name);
        assert(all[at] == cs[0]);
        lemma_has_key(closed.contexts, name);
        if has_key(closed.contexts, name) {
            let i = choose|i: int|
                0 <= i < closed.contexts.len() && (#[trigger] closed.contexts[i]).0 == name;
            assert(all[i] == closed.contexts[i]);
            assert(all[i].0 != all[at].0);
        }
        let opened = DraftView { section: Section::Context(name), ..closed };
        assert(open_section(closed, full_name) == Ok::<DraftView, LineFault>(opened));
        lemma_header(d, n + 1, full_name, table_text(table) + tail);
        // the pairs
        assert(opened.current + table =~= table);
        lemma_table(opened, n + 2, table, tail);
        let filled = DraftView { current: table, ..opened };
        // the other contexts
        let next = close(filled);
        assert(next.contexts == closed.contexts.push((name, table)));
        assert(next.contexts + more =~= all);
        assert forall|i: int| 0 <= i < more.len() implies context_name_ok(
            (#[trigger] more[i]).0,
        ) && keys_ok(more[i].1) && values_ok(more[i].1) && keyed(more[i].1) by {
            assert(more[i] == cs[i + 1]);
        }
        lemma_contexts(filled, n + 2 + table.len(), more);
    }
}

/// Reading an empty line, a written header and the written pairs of its
/// table opens that table and fills it.
proof fn lemma_section(
    d: DraftView,
    n: nat,
    name: Seq<char>,
    t: TableView,
    rest: Seq<char>,
    opened: DraftView,
)
    requires
        all_in(name, Class::Except(']')),
        all_in(name, Class::Except('\n')),
        open_section(close(d), name) == Ok::<DraftView, LineFault>(opened),
        opened.section !is Top,
        opened.section !is Root,
        keys_ok(t),
        values_ok(t),
        keyed(t),
    ensures
        parse_text(d, n, seq!['\n'] + section_text(name, t) + rest) == parse_text(
            DraftView { current: t, ..opened },
            n + 2 + t.len(),
            rest,
        ),
{
    let nl = seq!['\n'];
    assert(nl + section_text(name, t) + rest =~= nl + (header_line(name) + nl + (table_text(t)
        + rest)));
    lemma_empty_line(d, n, header_line(name) + nl + (table_text(t) + rest));
    lemma_header(d, n + 1, name, table_text(t) + rest);
    assert(opened.current =~= Seq::<(Seq<char>, ValueView)>::empty());
    assert(opened.current + t =~= t);
    lemma_table(opened, n + 2, t, rest);
}

/// The draft once `[sel4]` of a document is read.
spec fn after_root(doc: FullView) -> DraftView {
    with_root(DraftView { section: Section::Root, seen_root: true, ..start() }, doc.sel4)
}

/// The draft once `[sel4.config]` of a document is read.
spec fn after_shared(doc: FullView) -> DraftView {
    DraftView {
        section: Section::Shared,
        seen_shared: true,
        current: doc.sel4.config.shared_config,
        ..close(after_root(doc))
    }
}

/// The draft once `[sel4.config.debug]` of a document is read.
spec fn after_debug(doc: FullView) -> DraftView {
    DraftView {
        section: Section::Debug,
        seen_debug: true,
        current: doc.sel4.config.debug_config,
        ..close(after_shared(doc))
    }
}

/// The draft once `[sel4.config.release]` of a document is read.
spec fn after_release(doc: FullView) -> DraftView {
    DraftView {
        section: Section::Release,
        seen_release: true,
        current: doc.sel4.config.release_config,
        ..close(after_debug(doc))
    }
}

/// Reading the written `[sel4]` from the start.
proof fn lemma_read_root(doc: FullView, rest: Seq<char>)
    requires
        well_formed(doc),
    ensures
        parse_text(start(), 0, section_text("sel4"@, root_table(doc.sel4)) + rest) == parse_text(
            after_root(doc),
            1 + root_table(doc.sel4).len(),
            rest,
        ),
{
    lemma_words();
    let root = root_table(doc.sel4);
    let d0 = start();
    assert(close(d0) == d0);
    let d1 = DraftView { section: Section::Root, seen_root: true, ..d0 };
    assert(section_text("sel4"@, root) + rest =~= header_line("sel4"@) + seq!['\n'] + (
    table_text(root) + rest));
    lemma_header(d0, 0, "sel4"@, table_text(root) + rest);
    lemma_root(d1, 1, doc.sel4, rest);
}

/// Reading the written `[sel4.config]` behind `[sel4]`.
proof fn lemma_read_shared(doc: FullView, n: nat, rest: Seq<char>)
    requires
        well_formed(doc),
    ensures
        parse_text(
            after_root(doc),
            n,
            seq!['\n'] + section_text("sel4.config"@, doc.sel4.config.shared_config) + rest,
        ) == parse_text(after_shared(doc), n + 2 + doc.sel4.config.shared_config.len(), rest),
{
    lemma_words();
    let d = after_root(doc);
    let opened = DraftView { section: Section::Shared, seen_shared: true, ..close(d) };
    lemma_section(d, n, "sel4.config"@, doc.sel4.config.shared_config, rest, opened);
}

/// What opening a table below `sel4.config.` comes to.
proof fn lemma_open_below(d: DraftView, name: Seq<char>)
    requires
        name_ok(name),
    ensures
        all_in("sel4.config."@ + name, Class::Except(']')),
        all_in("sel4.config."@ + name, Class::Except('\n')),
        name == "debug"@ && !d.seen_debug ==> open_section(d, "sel4.config."@ + name) == Ok::<
            DraftView,
            LineFault,
        >(DraftView { section: Section::Debug, seen_debug: true, ..d }),
        name == "release"@ && !d.seen_release ==> open_section(d, "sel4.config."@ + name) == Ok::<
            DraftView,
            LineFault,
        >(DraftView { section: Section::Release, seen_release: true, ..d }),
        context_name_ok(name) && !has_key(d.contexts, name) ==> open_section(
            d,
            "sel4.config."@ + name,
        ) == Ok::<DraftView, LineFault>(DraftView { section: Section::Context(name), ..d }),
{
    lemma_words();
    let full_name = "sel4.config."@ + name;
    lemma_name_plain(name);
    lemma_all_in_concat("sel4.config."@, name, Class::Except(']'));
    lemma_all_in_concat("sel4.config."@, name, Class::Except('\n'));
    assert(full_name.take(12) =~= "sel4.config."@);
    assert(full_name.skip(12) =~= name);
}

/// Reading the written `[sel4.config.debug]` behind `[sel4.config]`.
proof fn lemma_read_debug(doc: FullView, n: nat, rest: Seq<char>)
    requires
        well_formed(doc),
    ensures
        parse_text(
            after_shared(doc),
            n,
            seq!['\n'] + section_text(
                "sel4.config."@ + "debug"@,
                doc.sel4.config.debug_config,
            ) + rest,
        ) == parse_text(after_debug(doc), n + 2 + doc.sel4.config.debug_config.len(), rest),
{
    lemma_words();
    let d = after_shared(doc);
    let opened = DraftView { section: Section::Debug, seen_debug: true, ..close(d) };
    lemma_open_below(close(d), "debug"@);
    lemma_section(
        d,
        n,
        "sel4.config."@ + "debug"@,
        doc.sel4.config.debug_config,
        rest,
        opened,
    );
}

/// Reading the written `[sel4.config.release]` behind `[sel4.config.debug]`.
proof fn lemma_read_release(doc: FullView, n: nat, rest: Seq<char>)
    requires
        well_formed(doc),
    ensures
        parse_text(
            after_debug(doc),
            n,
            seq!['\n'] + section_text(
                "sel4.config."@ + "release"@,
                doc.sel4.config.release_config,
            ) + rest,
        ) == parse_text(after_release(doc), n + 2 + doc.sel4.config.release_config.len(), rest),
{
    lemma_words();
    let d = after_debug(doc);
    let opened = DraftView { section: Section::Release, seen_release: true, ..close(d) };
    lemma_open_below(close(d), "release"@);
    lemma_section(
        d,
        n,
        "sel4.config."@ + "release"@,
        doc.sel4.config.release_config,
        rest,
        opened,
    );
}

/// Reading the written contexts behind `[sel4.config.release]` ends with the
/// document.
proof fn lemma_read_contexts(doc: FullView, n: nat)
    requires
        well_formed(doc),
    ensures
        parse_text(after_release(doc), n, contexts_text(doc.sel4.config.contextual_config))
            matches Ok(last) && assemble(last) == Ok::<FullView, ParseError>(doc),
{
    let d = after_release(doc);
    let cs = doc.sel4.config.contextual_config;
    assert(close(d).contexts + cs =~= cs);
    lemma_contexts(d, n, cs);
    match doc.sel4.source {
        SourceView::Version(v) => {
            lemma_version_round_trip(v);
        },
        SourceView::LocalDirectories { .. } => {},
    }
}

/// A document that can be written, and in which nothing occurs twice, is the
/// document that its text describes.
pub proof fn lemma_round_trip(doc: FullView)
    requires
        well_formed(doc),
    ensures
        spec_parse(spec_serialize(doc)) == Ok::<FullView, ParseError>(doc),
{
    let c = doc.sel4.config;
    let nl = seq!['\n'];
    let root = section_text("sel4"@, root_table(doc.sel4));
    let shared = section_text("sel4.config"@, c.shared_config);
    let debug = section_text("sel4.config."@ + "debug"@, c.debug_config);
    let release = section_text("sel4.config."@ + "release"@, c.release_config);
    let contexts = contexts_text(c.contextual_config);
    let after_release_text = contexts;
    let after_debug_text = nl + release + after_release_text;
    let after_shared_text = nl + debug + after_debug_text;
    let after_root_text = nl + shared + after_shared_text;
    assert(spec_serialize(doc) =~= root + after_root_text);
    let n1 = 1 + root_table(doc.sel4).len();
    let n2 = n1 + 2 + c.shared_config.len();
    let n3 = n2 + 2 + c.debug_config.len();
    let n4 = n3 + 2 + c.release_config.len();
    lemma_read_root(doc, after_root_text);
    lemma_read_shared(doc, n1, after_shared_text);
    lemma_read_debug(doc, n2, after_debug_text);
    lemma_read_release(doc, n3, after_release_text);
    lemma_read_contexts(doc, n4);
}

/// A text that is what some document is written as: a document that can be
/// written, and in which nothing occurs twice.
pub open spec fn is_canonical(text: Seq<char>) -> bool {
    exists|doc: FullView| well_formed(doc) && #[trigger] spec_serialize(doc) == text
}

/// A text that is what some document is written as is read and written back
/// as it is, character for character.
pub proof fn canonical_text_is_kept(text: Seq<char>)
    requires
        is_canonical(text),
    ensures
        spec_parse(text) is Ok,
        spec_serialize(spec_parse(text)->Ok_0) == text,
{
    let doc = choose|doc: FullView| well_formed(doc) && #[trigger] spec_serialize(doc) == text;
    lemma_round_trip(doc);
}

/// Once a text is read, writing the document and reading it again gives the
/// same document: whatever the text looked like, what is written is
/// canonical.
pub proof fn reading_is_stable(text: Seq<char>)
    requires
        spec_parse(text) is Ok,
    ensures
        well_formed(spec_parse(text)->Ok_0),
        is_canonical(spec_serialize(spec_parse(text)->Ok_0)),
        spec_parse(spec_serialize(spec_parse(text)->Ok_0)) == spec_parse(text),
{
    let doc = spec_parse(text)->Ok_0;
    lemma_parsed_well_formed(text);
    lemma_round_trip(doc);
}

/// A context that is declared without keys is kept: in the text that is
/// written, from which the same document is read, the context is declared
/// at the same place and still has no keys.
pub proof fn empty_context_is_kept(doc: FullView, i: int)
    requires
        well_formed(doc),
        0 <= i < doc.sel4.config.contextual_config.len(),
        doc.sel4.config.contextual_config[i].1.len() == 0,
    ensures
        spec_parse(spec_serialize(doc)) matches Ok(again) && again.sel4.config.contextual_config[i]
            == (doc.sel4.config.contextual_config[i].0, Seq::<(Seq<char>, ValueView)>::empty()),
        has_key(
            spec_parse(spec_serialize(doc))->Ok_0.sel4.config.contextual_config,
            doc.sel4.config.contextual_config[i].0,
        ),
{
    lemma_round_trip(doc);
    let cs = doc.sel4.config.contextual_config;
    assert(cs[i].1 =~= Seq::<(Seq<char>, ValueView)>::empty());
    lemma_has_key(cs, cs[i].0);
}

} // verus!
