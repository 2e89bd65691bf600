//! Writing a document: what keeps one from being written, and the text of
//! one that can be.

use vstd::prelude::*;
use vstd::string::StringExecFns;
use crate::error::SerializeError;
use crate::format::{
    context_name_ok, context_names_ok, context_values_ok, contexts_text, entry_text, fault_of,
    keys_ok, lemma_contexts_text_skip, lemma_table_text_concat, lemma_table_text_one,
    lemma_table_text_skip, name_ok, platform_entries, root_strings_ok, root_table, source_entries,
    spec_serialize, table_text, tables_keyed, values_ok,
};
use crate::full::{Full, SeL4};
use crate::source::SeL4Source;
use crate::syntax::header_line;
use crate::table::{keyed, ConfigTable, ContextTable};
use crate::text::{chars_of, lemma_span_all, scan, spells, Class};
use crate::value::{
    choose_quote, push_quoted, push_value, quote_for, writable, SingleValue, ValueView,
};
use crate::version::lemma_version_text;

verus! {

/// Whether `name` can be written without quotes.
fn name_is_ok(name: &str) -> (b: bool)
    ensures
        b == name_ok(name@),
{
    let chars = chars_of(name);
    proof {
        lemma_span_all(chars@, Class::Bare);
    }
    chars.len() > 0 && scan(chars.as_slice(), 0, Class::Bare) == chars.len()
}

/// Whether a context can be named `name`.
fn context_name_is_ok(name: &str) -> (b: bool)
    ensures
        b == context_name_ok(name@),
{
    let chars = chars_of(name);
    proof {
        lemma_span_all(chars@, Class::Bare);
    }
    chars.len() > 0 && scan(chars.as_slice(), 0, Class::Bare) == chars.len() && !spells(
        chars.as_slice(),
        "debug",
    ) && !spells(chars.as_slice(), "release")
}

/// Whether every key of the table can be written without quotes.
fn keys_are_ok(t: &ConfigTable) -> (b: bool)
    ensures
        b == keys_ok(t@),
{
    let mut i: usize = 0;
    while i < t.len()
        invariant
            i <= t@.len(),
            forall|j: int| 0 <= j < i ==> name_ok((#[trigger] t@[j]).0),
        decreases t@.len() - i,
    {
        match t.entry(i) {
            Some((key, _)) => {
                if !name_is_ok(key.as_str()) {
                    assert(!name_ok(t@[i as int].0));
                    return false;
                }
            },
            None => {},
        }
        i = i + 1;
    }
    true
}

/// Whether the value can be written.
fn is_writable(v: &SingleValue) -> (b: bool)
    ensures
        b == writable(v@),
{
    match v {
        SingleValue::String(s) => choose_quote(s.as_str()).is_some(),
        _ => true,
    }
}

/// Whether every value of the table can be written.
fn values_are_ok(t: &ConfigTable) -> (b: bool)
    ensures
        b == values_ok(t@),
{
    let mut i: usize = 0;
    while i < t.len()
        invariant
            i <= t@.len(),
            forall|j: int| 0 <= j < i ==> writable((#[trigger] t@[j]).1),
        decreases t@.len() - i,
    {
        match t.entry(i) {
            Some((_, value)) => {
                if !is_writable(value) {
                    assert(!writable(t@[i as int].1));
                    return false;
                }
            },
            None => {},
        }
        i = i + 1;
    }
    true
}

/// Whether every context has a name that it can have and keys that can be
/// written without quotes.
fn context_names_are_ok(cs: &ContextTable) -> (b: bool)
    ensures
        b == context_names_ok(cs@),
        b ==> forall|j: int| 0 <= j < cs@.len() ==> keyed((#[trigger] cs@[j]).1),
{
    let mut i: usize = 0;
    while i < cs.len()
        invariant
            i <= cs@.len(),
            forall|j: int|
                0 <= j < i ==> context_name_ok((#[trigger] cs@[j]).0) && keys_ok(cs@[j].1),
            forall|j: int| 0 <= j < i ==> keyed((#[trigger] cs@[j]).1),
        decreases cs@.len() - i,
    {
        match cs.entry(i) {
            Some((name, table)) => {
                proof {
                    use_type_invariant(table);
                }
                if !context_name_is_ok(name.as_str()) || !keys_are_ok(table) {
                    assert(!(context_name_ok(cs@[i as int].0) && keys_ok(cs@[i as int].1)));
                    return false;
                }
            },
            None => {},
        }
        i = i + 1;
    }
    true
}

/// Whether every value of every context can be written.
fn context_values_are_ok(cs: &ContextTable) -> (b: bool)
    ensures
        b == context_values_ok(cs@),
{
    let mut i: usize = 0;
    while i < cs.len()
        invariant
            i <= cs@.len(),
            forall|j: int| 0 <= j < i ==> values_ok((#[trigger] cs@[j]).1),
        decreases cs@.len() - i,
    {
        match cs.entry(i) {
            Some((_, table)) => {
                if !values_are_ok(table) {
                    assert(!values_ok(cs@[i as int].1));
                    return false;
                }
            },
            None => {},
        }
        i = i + 1;
    }
    true
}

/// Whether the strings of `[sel4]` can be written.
fn root_strings_are_ok(s: &SeL4) -> (b: bool)
    ensures
        b == root_strings_ok(s@),
{
    let platform = match &s.default_platform {
        Some(p) => choose_quote(p.as_str()).is_some(),
        None => true,
    };
    let source = match &s.source {
        SeL4Source::LocalDirectories { kernel_dir, tools_dir } => choose_quote(
            kernel_dir.as_str(),
        ).is_some() && choose_quote(tools_dir.as_str()).is_some(),
        SeL4Source::Version(_) => true,
    };
    platform && source
}

/// What keeps `doc` from being written, if anything does.
pub fn check(doc: &Full) -> (r: Option<SerializeError>)
    ensures
        r == fault_of(doc@),
        r is None ==> tables_keyed(doc@.sel4.config),
{
    let c = &doc.sel4.config;
    proof {
        use_type_invariant(&c.shared_config);
        use_type_invariant(&c.debug_config);
        use_type_invariant(&c.release_config);
        use_type_invariant(&c.contextual_config);
    }
    if !(keys_are_ok(&c.shared_config) && keys_are_ok(&c.debug_config) && keys_are_ok(
        &c.release_config,
    ) && context_names_are_ok(&c.contextual_config)) {
        return Some(SerializeError::UnwritableName);
    }
    if !(root_strings_are_ok(&doc.sel4) && values_are_ok(&c.shared_config) && values_are_ok(
        &c.debug_config,
    ) && values_are_ok(&c.release_config) && context_values_are_ok(&c.contextual_config)) {
        return Some(SerializeError::UnwritableString);
    }
    let version = match &doc.sel4.source {
        SeL4Source::Version(v) => v.is_wf(),
        SeL4Source::LocalDirectories { .. } => true,
    };
    if !version {
        return Some(SerializeError::UnwritableVersion);
    }
    None
}

/// Appends a pair on a line of its own to `out`.
fn push_entry(out: &mut String, key: &str, value: &SingleValue)
    requires
        writable(value@),
    ensures
        final(out)@ == old(out)@ + entry_text(key@, value@),
{
    out.append(key);
    out.push(' ');
    out.push('=');
    out.push(' ');
    let done = push_value(out, value);
    assert(done);
    out.push('\n');
    assert(out@ =~= old(out)@ + entry_text(key@, value@));
}

/// Appends a pair whose value is a string, on a line of its own, to `out`.
fn push_string_entry(out: &mut String, key: &str, s: &str)
    requires
        quote_for(s@) is Some,
    ensures
        final(out)@ == old(out)@ + table_text(seq![(key@, ValueView::Text(s@))]),
{
    out.append(key);
    out.push(' ');
    out.push('=');
    out.push(' ');
    let done = push_quoted(out, s);
    assert(done);
    out.push('\n');
    proof {
        lemma_table_text_one(key@, ValueView::Text(s@));
        assert(out@ =~= old(out)@ + entry_text(key@, ValueView::Text(s@)));
    }
}

/// Appends the pairs of a table to `out`.
fn push_table(out: &mut String, t: &ConfigTable)
    requires
        values_ok(t@),
    ensures
        final(out)@ == old(out)@ + table_text(t@),
{
    let mut i: usize = 0;
    assert(t@.skip(0) =~= t@);
    while i < t.len()
        invariant
            i <= t@.len(),
            values_ok(t@),
            out@ + table_text(t@.skip(i as int)) == old(out)@ + table_text(t@),
        decreases t@.len() - i,
    {
        let ghost before = out@;
        match t.entry(i) {
            Some((key, value)) => {
                assert(writable(t@[i as int].1));
                push_entry(out, key.as_str(), value);
            },
            None => {},
        }
        proof {
            lemma_table_text_skip(t@, i as int);
            assert(out@ + table_text(t@.skip(i + 1)) =~= before + table_text(t@.skip(i as int)));
        }
        i = i + 1;
    }
    assert(out@ + table_text(t@.skip(i as int)) =~= out@);
}

/// Appends the header of the table `name` to `out`.
fn push_header(out: &mut String, name: &str)
    ensures
        final(out)@ == old(out)@ + header_line(name@) + seq!['\n'],
{
    out.push('[');
    out.append(name);
    out.push(']');
    out.push('\n');
    assert(out@ =~= old(out)@ + header_line(name@) + seq!['\n']);
}

/// Appends the header of the table `name` below `sel4.config` to `out`.
fn push_context_header(out: &mut String, name: &str)
    ensures
        final(out)@ == old(out)@ + header_line("sel4.config."@ + name@) + seq!['\n'],
{
    out.push('[');
    out.append("sel4.config.");
    out.append(name);
    out.push(']');
    out.push('\n');
    assert(out@ =~= old(out)@ + header_line("sel4.config."@ + name@) + seq!['\n']);
}

/// Appends the pairs of `[sel4]` to `out`.
fn push_root(out: &mut String, s: &SeL4)
    requires
        root_strings_ok(s@),
        s@.source matches crate::source::SourceView::Version(v) ==> crate::version::version_wf(v),
    ensures
        final(out)@ == old(out)@ + table_text(root_table(s@)),
{
    match &s.default_platform {
        Some(p) => {
            push_string_entry(out, "default_platform", p.as_str());
        },
        None => {},
    }
    assert(out@ =~= old(out)@ + table_text(platform_entries(s@.default_platform)));
    let ghost middle = out@;
    match &s.source {
        SeL4Source::LocalDirectories { kernel_dir, tools_dir } => {
            push_string_entry(out, "kernel_dir", kernel_dir.as_str());
            push_string_entry(out, "tools_dir", tools_dir.as_str());
            proof {
                let a = seq![("kernel_dir"@, ValueView::Text(kernel_dir@))];
                let b = seq![("tools_dir"@, ValueView::Text(tools_dir@))];
                lemma_table_text_concat(a, b);
                assert(a + b =~= source_entries(s@.source));
                assert(out@ =~= middle + table_text(source_entries(s@.source)));
            }
        },
        SeL4Source::Version(v) => {
            let text = v.to_text();
            proof {
                lemma_version_text(v@, '\n');
                lemma_version_text(v@, '\'');
            }
            push_string_entry(out, "version", text.as_str());
        },
    }
    proof {
        lemma_table_text_concat(platform_entries(s@.default_platform), source_entries(s@.source));
        assert(out@ =~= old(out)@ + table_text(root_table(s@)));
    }
}

/// Appends the contexts, each after an empty line, to `out`.
fn push_contexts(out: &mut String, cs: &ContextTable)
    requires
        context_values_ok(cs@),
    ensures
        final(out)@ == old(out)@ + contexts_text(cs@),
{
    let mut i: usize = 0;
    assert(cs@.skip(0) =~= cs@);
    while i < cs.len()
        invariant
            i <= cs@.len(),
            context_values_ok(cs@),
            out@ + contexts_text(cs@.skip(i as int)) == old(out)@ + contexts_text(cs@),
        decreases cs@.len() - i,
    {
        let ghost before = out@;
        match cs.entry(i) {
            Some((name, table)) => {
                assert(values_ok(cs@[i as int].1));
                out.push('\n');
                push_context_header(out, name.as_str());
                push_table(out, table);
            },
            None => {},
        }
        proof {
            lemma_contexts_text_skip(cs@, i as int);
            assert(out@ + contexts_text(cs@.skip(i + 1)) =~= before + contexts_text(
                cs@.skip(i as int),
            ));
        }
        i = i + 1;
    }
    assert(out@ + contexts_text(cs@.skip(i as int)) =~= out@);
}

/// The text of a document that can be written.
pub fn write_document(doc: &Full) -> (out: String)
    requires
        fault_of(doc@) is None,
    ensures
        out@ == spec_serialize(doc@),
{
    let c = &doc.sel4.config;
    let mut out = String::new();
    push_header(&mut out, "sel4");
    push_root(&mut out, &doc.sel4);
    out.push('\n');
    push_header(&mut out, "sel4.config");
    push_table(&mut out, &c.shared_config);
    out.push('\n');
    push_context_header(&mut out, "debug");
    push_table(&mut out, &c.debug_config);
    out.push('\n');
    push_context_header(&mut out, "release");
    push_table(&mut out, &c.release_config);
    push_contexts(&mut out, &c.contextual_config);
    assert(out@ =~= spec_serialize(doc@));
    out
}

} // verus!
