//! What holds of everything that is read: names that can be written without
//! quotes, strings that can be written between quotes, and nothing twice.

use vstd::prelude::*;
use crate::error::{ParseError, SourceError};
use crate::full::FullView;
use crate::format::{
    close, context_name_ok, context_names_ok, context_values_ok, keys_ok, name_ok, open_section,
    parse_text, spec_parse, start, step_text, values_ok, well_formed, DraftView, Section,
};
use crate::syntax::{parse_line, LineView};
use crate::table::{has_key, keyed, lemma_has_key, TableView};
use crate::text::{all_in, cut, lemma_cut, lemma_span_range, span, Class};
use crate::value::{quote_for, value_at, writable};
use crate::version::lemma_parsed_version_wf;

verus! {

/// A table in which no key occurs twice and everything can be written.
pub open spec fn table_ok(t: TableView) -> bool {
    keyed(t) && keys_ok(t) && values_ok(t)
}

/// A field of `[sel4]` that can be written, if it is set.
pub open spec fn field_ok(f: Option<Seq<char>>) -> bool {
    f matches Some(s) ==> quote_for(s) is Some
}

/// What holds of a draft while a text is read.
pub open spec fn draft_ok(d: DraftView) -> bool {
    &&& table_ok(d.current)
    &&& table_ok(d.shared)
    &&& table_ok(d.debug)
    &&& table_ok(d.release)
    &&& keyed(d.contexts)
    &&& context_names_ok(d.contexts)
    &&& context_values_ok(d.contexts)
    &&& forall|i: int| 0 <= i < d.contexts.len() ==> keyed((#[trigger] d.contexts[i]).1)
    &&& d.section matches Section::Context(name) ==> context_name_ok(name) && !has_key(
        d.contexts,
        name,
    )
    &&& field_ok(d.default_platform)
    &&& field_ok(d.kernel_dir)
    &&& field_ok(d.tools_dir)
}

/// A part of a text without line breaks has none.
proof fn lemma_part_unbroken(line: Seq<char>, from: int, to: int)
    requires
        0 <= from <= to <= line.len(),
        all_in(line, Class::Except('\n')),
    ensures
        all_in(line.subrange(from, to), Class::Except('\n')),
{
    let s = line.subrange(from, to);
    assert forall|i: int| 0 <= i < s.len() implies Class::Except('\n').accepts(#[trigger] s[i]) by {
        assert(s[i] == line[from + i]);
    }
}

/// A value that is read from one line can be written.
pub proof fn lemma_value_writable(line: Seq<char>, at: int)
    requires
        0 <= at < line.len(),
        all_in(line, Class::Except('\n')),
    ensures
        value_at(line, at) matches Ok((v, e)) ==> writable(v),
{
    let c = line[at];
    if c == '\'' {
        let e = span(line, at + 1, Class::Except('\''));
        lemma_span_range(line, at + 1, Class::Except('\''));
        let s = line.subrange(at + 1, e);
        lemma_part_unbroken(line, at + 1, e);
        assert forall|i: int| 0 <= i < s.len() implies Class::Except('\'').accepts(
            #[trigger] s[i],
        ) by {
            assert(s[i] == line[at + 1 + i]);
        }
    } else if c == '"' {
        let e = span(line, at + 1, Class::Plain);
        lemma_span_range(line, at + 1, Class::Plain);
        let s = line.subrange(at + 1, e);
        lemma_part_unbroken(line, at + 1, e);
        assert forall|i: int| 0 <= i < s.len() implies Class::Plain.accepts(#[trigger] s[i]) by {
            assert(s[i] == line[at + 1 + i]);
        }
    }
}

/// A pair that is read from one line has a key that can be written without
/// quotes and a value that can be written.
pub proof fn lemma_line_ok(line: Seq<char>)
    requires
        all_in(line, Class::Except('\n')),
    ensures
        parse_line(line) matches Ok(LineView::Entry(k, v)) ==> name_ok(k) && writable(v),
{
    let i = span(line, 0, Class::Space);
    lemma_span_range(line, 0, Class::Space);
    if i < line.len() && line[i] != '#' && line[i] != '[' {
        let k = span(line, i, Class::Bare);
        lemma_span_range(line, i, Class::Bare);
        let eq = span(line, k, Class::Space);
        lemma_span_range(line, k, Class::Space);
        if k != i && eq < line.len() && line[eq] == '=' {
            let v = span(line, eq + 1, Class::Space);
            lemma_span_range(line, eq + 1, Class::Space);
            if v < line.len() {
                lemma_value_writable(line, v);
                let key = line.subrange(i, k);
                assert forall|j: int| 0 <= j < key.len() implies Class::Bare.accepts(
                    #[trigger] key[j],
                ) by {
                    assert(key[j] == line[i + j]);
                }
            }
        }
    }
}

/// A table with one more pair under a new key still repeats no key.
pub proof fn lemma_push_keyed<V>(t: Seq<(Seq<char>, V)>, key: Seq<char>, value: V)
    requires
        keyed(t),
        !has_key(t, key),
    ensures
        keyed(t.push((key, value))),
{
    let u = t.push((key, value));
    lemma_has_key(t, key);
    assert forall|i: int, j: int| 0 <= i < j < u.len() implies (#[trigger] u[i]).0 != (
    #[trigger] u[j]).0 by {
        assert(u[i] == t[i]);
        if j < t.len() {
            assert(u[j] == t[j]);
        }
    }
}

/// Closing the open table keeps what holds of a draft.
pub proof fn lemma_close_ok(d: DraftView)
    requires
        draft_ok(d),
    ensures
        draft_ok(close(d)),
        close(d).section is Top,
        close(d).current.len() == 0,
{
    match d.section {
        Section::Context(name) => {
            let cs = d.contexts.push((name, d.current));
            lemma_push_keyed(d.contexts, name, d.current);
            assert(close(d).contexts == cs);
            assert forall|i: int| 0 <= i < cs.len() implies context_name_ok((#[trigger] cs[i]).0)
                && keys_ok(cs[i].1) && values_ok(cs[i].1) && keyed(cs[i].1) by {
                if i < d.contexts.len() {
                    assert(cs[i] == d.contexts[i]);
                }
            }
        },
        _ => {},
    }
}

/// Opening a table keeps what holds of a draft.
pub proof fn lemma_open_ok(d: DraftView, name: Seq<char>)
    requires
        draft_ok(d),
        d.current.len() == 0,
    ensures
        open_section(d, name) matches Ok(next) ==> draft_ok(next),
{
}

/// Taking a line in keeps what holds of a draft.
pub proof fn lemma_step_ok(d: DraftView, line: Seq<char>)
    requires
        draft_ok(d),
        all_in(line, Class::Except('\n')),
    ensures
        step_text(d, line) matches Ok(next) ==> draft_ok(next),
{
    lemma_line_ok(line);
    match parse_line(line) {
        Ok(LineView::Header(name)) => {
            lemma_close_ok(d);
            lemma_open_ok(close(d), name);
        },
        Ok(LineView::Entry(key, value)) => {
            if d.section !is Top && d.section !is Root && !has_key(d.current, key) {
                let t = d.current.push((key, value));
                lemma_push_keyed(d.current, key, value);
                assert forall|i: int| 0 <= i < t.len() implies name_ok((#[trigger] t[i]).0)
                    && writable(t[i].1) by {
                    if i < d.current.len() {
                        assert(t[i] == d.current[i]);
                    }
                }
            }
        },
        _ => {},
    }
}

/// Reading a text keeps what holds of a draft, and leaves no table open.
pub proof fn lemma_parse_ok(d: DraftView, n: nat, text: Seq<char>)
    requires
        draft_ok(d),
    ensures
        parse_text(d, n, text) matches Ok(last) ==> draft_ok(last) && last.section is Top,
    decreases text.len(),
{
    let (line, rest) = cut(text, '\n');
    lemma_cut(text, '\n');
    lemma_step_ok(d, line);
    match step_text(d, line) {
        Ok(next) => match rest {
            None => {
                lemma_close_ok(next);
            },
            Some(r) => {
                lemma_parse_ok(next, n + 1, r);
            },
        },
        Err(_) => {},
    }
}

/// The document that a text describes can be written, and nothing occurs
/// twice in it.
pub proof fn lemma_parsed_well_formed(text: Seq<char>)
    ensures
        spec_parse(text) matches Ok(doc) ==> well_formed(doc),
{
    lemma_parse_ok(start(), 0, text);
    match parse_text(start(), 0, text) {
        Ok(last) => {
            match last.version {
                Some(v) => {
                    lemma_parsed_version_wf(v);
                },
                None => {},
            }
        },
        Err(_) => {},
    }
}

/// A text whose `[sel4]` gives a version beside a directory, or neither a
/// version nor both directories, describes no document: of the two groups of
/// source fields, a document has exactly one.
pub proof fn source_is_one_of_two(text: Seq<char>)
    ensures
        match parse_text(start(), 0, text) {
            Err(e) => spec_parse(text) == Err::<FullView, ParseError>(e),
            Ok(d) => {
                &&& d.version is Some && (d.kernel_dir is Some || d.tools_dir is Some)
                    ==> spec_parse(text) == Err::<FullView, ParseError>(
                    ParseError::Source(SourceError::AmbiguousSource),
                )
                &&& d.version is None && (d.kernel_dir is None || d.tools_dir is None)
                    ==> spec_parse(text) == Err::<FullView, ParseError>(
                    ParseError::Source(SourceError::MissingSource),
                )
                &&& spec_parse(text) matches Ok(doc) ==> (doc.sel4.source is Version
                    <==> d.version is Some) && (doc.sel4.source is LocalDirectories <==> d.kernel_dir
                    is Some && d.tools_dir is Some)
            },
        },
{
}

} // verus!
