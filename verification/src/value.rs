//! Single values: strings, integers and booleans, and how each is written.

use vstd::prelude::*;
use vstd::slice::slice_subrange;
use vstd::string::StringExecFns;
use crate::decimal::{decimal_i64, numeral_i64, push_decimal_i64, read_i64};
use crate::error::LineFault;
use crate::text::{all_in, scan, span, spells, string_of, Class};

verus! {

/// The value of one configuration key.
#[derive(Debug, PartialEq, Eq)]
pub enum SingleValue {
    String(String),
    Integer(i64),
    Boolean(bool),
}

/// What a `SingleValue` holds.
pub enum ValueView {
    Text(Seq<char>),
    Integer(i64),
    Boolean(bool),
}

impl View for SingleValue {
    type V = ValueView;

    open spec fn view(&self) -> ValueView {
        match self {
            SingleValue::String(s) => ValueView::Text(s@),
            SingleValue::Integer(n) => ValueView::Integer(*n),
            SingleValue::Boolean(b) => ValueView::Boolean(*b),
        }
    }
}

impl Clone for SingleValue {
    fn clone(&self) -> (r: Self)
        ensures
            r == *self,
    {
        match self {
            SingleValue::String(s) => SingleValue::String(s.clone()),
            SingleValue::Integer(n) => SingleValue::Integer(*n),
            SingleValue::Boolean(b) => SingleValue::Boolean(*b),
        }
    }
}

/// The quote between which `s` can be written: `'` where `s` holds none, else
/// `"` where `s` holds neither `"` nor `\`. A text with a line break, or with
/// a `'` beside a `"` or a `\`, has none.
pub open spec fn quote_for(s: Seq<char>) -> Option<char> {
    if !all_in(s, Class::Except('\n')) {
        None
    } else if all_in(s, Class::Except('\'')) {
        Some('\'')
    } else if all_in(s, Class::Plain) {
        Some('"')
    } else {
        None
    }
}

/// `s` between its quotes.
pub open spec fn quoted(s: Seq<char>) -> Seq<char> {
    seq![quote_for(s).unwrap()] + s + seq![quote_for(s).unwrap()]
}

/// Whether the text format can express `v`.
pub open spec fn writable(v: ValueView) -> bool {
    v matches ValueView::Text(s) ==> quote_for(s) is Some
}

/// How a value is written.
pub open spec fn render_value(v: ValueView) -> Seq<char> {
    match v {
        ValueView::Text(s) => quoted(s),
        ValueView::Integer(n) => decimal_i64(n),
        ValueView::Boolean(b) => if b {
            "true"@
        } else {
            "false"@
        },
    }
}

/// The value that starts at `at` in `line`, and where it ends.
///
/// A string stands between two `'`, or between two `"` with no `\` inside.
/// Anything else runs up to the next blank or `#` and is `true`, `false` or
/// an integer. A `[` or a `{` opens a list or a table, which is no value.
pub open spec fn value_at(line: Seq<char>, at: int) -> Result<(ValueView, int), LineFault> {
    let c = line[at];
    if c == '\'' {
        let e = span(line, at + 1, Class::Except('\''));
        if e < line.len() {
            Ok((ValueView::Text(line.subrange(at + 1, e)), e + 1))
        } else {
            Err(LineFault::Syntax)
        }
    } else if c == '"' {
        let e = span(line, at + 1, Class::Plain);
        if e < line.len() && line[e] == '"' {
            Ok((ValueView::Text(line.subrange(at + 1, e)), e + 1))
        } else {
            Err(LineFault::Syntax)
        }
    } else if c == '[' || c == '{' {
        Err(LineFault::NotScalar)
    } else {
        let e = span(line, at, Class::Token);
        let word = line.subrange(at, e);
        if word == "true"@ {
            Ok((ValueView::Boolean(true), e))
        } else if word == "false"@ {
            Ok((ValueView::Boolean(false), e))
        } else {
            match numeral_i64(word) {
                Some(n) => Ok((ValueView::Integer(n), e)),
                None => Err(LineFault::InvalidValue),
            }
        }
    }
}

/// A value ends inside its line.
pub proof fn lemma_value_end(line: Seq<char>, at: int)
    requires
        0 <= at < line.len(),
    ensures
        value_at(line, at) matches Ok((v, e)) ==> at <= e <= line.len(),
{
    crate::text::lemma_span_range(line, at + 1, Class::Except('\''));
    crate::text::lemma_span_range(line, at + 1, Class::Plain);
    crate::text::lemma_span_range(line, at, Class::Token);
}

/// Reads the value that starts at `at` in `line`.
pub fn read_value(line: &[char], at: usize) -> (r: Result<(SingleValue, usize), LineFault>)
    requires
        at < line@.len(),
    ensures
        match value_at(line@, at as int) {
            Ok((v, e)) => r matches Ok(p) && p.0@ == v && p.1 == e,
            Err(f) => r matches Err(g) && g == f,
        },
{
    let c = line[at];
    if c == '\'' {
        let e = scan(line, at + 1, Class::Except('\''));
        if e < line.len() {
            let text = string_of(slice_subrange(line, at + 1, e));
            Ok((SingleValue::String(text), e + 1))
        } else {
            Err(LineFault::Syntax)
        }
    } else if c == '"' {
        let e = scan(line, at + 1, Class::Plain);
        if e < line.len() && line[e] == '"' {
            let text = string_of(slice_subrange(line, at + 1, e));
            Ok((SingleValue::String(text), e + 1))
        } else {
            Err(LineFault::Syntax)
        }
    } else if c == '[' || c == '{' {
        Err(LineFault::NotScalar)
    } else {
        let e = scan(line, at, Class::Token);
        let word = slice_subrange(line, at, e);
        if spells(word, "true") {
            Ok((SingleValue::Boolean(true), e))
        } else if spells(word, "false") {
            Ok((SingleValue::Boolean(false), e))
        } else {
            match read_i64(word) {
                Some(n) => Ok((SingleValue::Integer(n), e)),
                None => Err(LineFault::InvalidValue),
            }
        }
    }
}

/// The quote between which `s` can be written, if there is one.
pub fn choose_quote(s: &str) -> (q: Option<char>)
    ensures
        q == quote_for(s@),
{
    let mut breaks = false;
    let mut single = false;
    let mut other = false;
    let ghost mut seen: Seq<char> = Seq::empty();
    let chars = s.chars();
    for c in it: chars
        invariant
            it.seq() == s@,
            seen == it.history(),
            breaks == !all_in(it.history(), Class::Except('\n')),
            single == !all_in(it.history(), Class::Except('\'')),
            other == !all_in(it.history(), Class::Plain),
    {
        let ghost before = it.history();
        if c == '\n' {
            breaks = true;
        }
        if c == '\'' {
            single = true;
        }
        if c == '"' || c == '\\' {
            other = true;
        }
        proof {
            let after = before.push(c);
            assert(after[before.len() as int] == c);
            assert forall|class: Class| #![auto] all_in(after, class) == (all_in(before, class) && class.accepts(c)) by {
                if all_in(before, class) && class.accepts(c) {
                    assert forall|i: int| 0 <= i < after.len() implies class.accepts(#[trigger] after[i]) by {
                        if i < before.len() {
                            assert(after[i] == before[i]);
                        }
                    }
                } else if !class.accepts(c) {
                } else {
                    let i = choose|i: int| 0 <= i < before.len() && !class.accepts(#[trigger] before[i]);
                    assert(after[i] == before[i]);
                }
            }
            seen = after;
        }
    }
    assert(seen =~= s@);
    if breaks {
        None
    } else if !single {
        Some('\'')
    } else if !other {
        Some('"')
    } else {
        None
    }
}

/// Appends `v` as it is written to `out`, where the text format can express
/// it; leaves `out` as it is and returns `false` where it cannot.
pub fn push_value(out: &mut String, v: &SingleValue) -> (done: bool)
    ensures
        done == writable(v@),
        done ==> final(out)@ == old(out)@ + render_value(v@),
        !done ==> final(out)@ == old(out)@,
{
    match v {
        SingleValue::String(s) => {
            push_quoted(out, s.as_str())
        },
        SingleValue::Integer(n) => {
            push_decimal_i64(out, *n);
            true
        },
        SingleValue::Boolean(b) => {
            if *b {
                out.append("true");
            } else {
                out.append("false");
            }
            true
        },
    }
}

/// Appends `s` between its quotes to `out`, where it has one; leaves `out` as
/// it is and returns `false` where it has none.
pub fn push_quoted(out: &mut String, s: &str) -> (done: bool)
    ensures
        done == (quote_for(s@) is Some),
        done ==> final(out)@ == old(out)@ + quoted(s@),
        !done ==> final(out)@ == old(out)@,
{
    match choose_quote(s) {
        Some(q) => {
            out.push(q);
            out.append(s);
            out.push(q);
            assert(out@ =~= old(out)@ + quoted(s@));
            true
        },
        None => false,
    }
}

} // verus!
