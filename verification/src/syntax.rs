//! Lines: what one line of a document says, and how a line is written.

use vstd::prelude::*;
use vstd::slice::slice_subrange;
use crate::decimal::lemma_decimal;
use crate::error::LineFault;
use crate::text::{all_in, lemma_span_unique, scan, span, string_of, Class};
use crate::value::{quote_for, read_value, render_value, value_at, writable, SingleValue, ValueView};
use crate::views::agrees;

verus! {

/// One line, read.
#[derive(Debug)]
pub enum Line {
    /// Nothing but blank space and perhaps a comment.
    Blank,
    /// `[name]`: the table that the next pairs belong to.
    Header(String),
    /// `key = value`.
    Entry(String, SingleValue),
}

/// What a `Line` holds.
pub enum LineView {
    Blank,
    Header(Seq<char>),
    Entry(Seq<char>, ValueView),
}

impl View for Line {
    type V = LineView;

    open spec fn view(&self) -> LineView {
        match self {
            Line::Blank => LineView::Blank,
            Line::Header(name) => LineView::Header(name@),
            Line::Entry(key, value) => LineView::Entry(key@, value@),
        }
    }
}

/// From `from` on, `line` holds only blank space and perhaps a comment.
pub open spec fn ends_at(line: Seq<char>, from: int) -> bool {
    let i = span(line, from, Class::Space);
    i >= line.len() || line[i] == '#'
}

/// What a line says.
///
/// Blank space may stand at its start, round the `=` and at its end, and a
/// comment, from a `#` on, may end it. A header is a name between `[` and
/// `]`. A pair is a key made of letters, digits, `_` and `-`, then `=`, then
/// a value.
pub open spec fn parse_line(line: Seq<char>) -> Result<LineView, LineFault> {
    let i = span(line, 0, Class::Space);
    if i >= line.len() || line[i] == '#' {
        Ok(LineView::Blank)
    } else if line[i] == '[' {
        let e = span(line, i + 1, Class::Except(']'));
        if e < line.len() && ends_at(line, e + 1) {
            Ok(LineView::Header(line.subrange(i + 1, e)))
        } else {
            Err(LineFault::Syntax)
        }
    } else {
        let k = span(line, i, Class::Bare);
        let eq = span(line, k, Class::Space);
        if k == i || eq >= line.len() || line[eq] != '=' {
            Err(LineFault::Syntax)
        } else {
            let v = span(line, eq + 1, Class::Space);
            if v >= line.len() {
                Err(LineFault::Syntax)
            } else {
                match value_at(line, v) {
                    Err(f) => Err(f),
                    Ok((value, end)) => if ends_at(line, end) {
                        Ok(LineView::Entry(line.subrange(i, k), value))
                    } else {
                        Err(LineFault::Syntax)
                    },
                }
            }
        }
    }
}

/// Whether `line` holds only blank space and perhaps a comment from `from` on.
fn at_end(line: &[char], from: usize) -> (b: bool)
    requires
        from <= line@.len(),
    ensures
        b == ends_at(line@, from as int),
{
    let i = scan(line, from, Class::Space);
    i >= line.len() || line[i] == '#'
}

/// Reads one line.
pub fn read_line(line: &[char]) -> (r: Result<Line, LineFault>)
    ensures
        agrees(r, parse_line(line@)),
{
    let i = scan(line, 0, Class::Space);
    if i >= line.len() || line[i] == '#' {
        Ok(Line::Blank)
    } else if line[i] == '[' {
        let e = scan(line, i + 1, Class::Except(']'));
        if e < line.len() && at_end(line, e + 1) {
            Ok(Line::Header(string_of(slice_subrange(line, i + 1, e))))
        } else {
            Err(LineFault::Syntax)
        }
    } else {
        let k = scan(line, i, Class::Bare);
        let eq = scan(line, k, Class::Space);
        if k == i || eq >= line.len() || line[eq] != '=' {
            Err(LineFault::Syntax)
        } else {
            let v = scan(line, eq + 1, Class::Space);
            if v >= line.len() {
                Err(LineFault::Syntax)
            } else {
                match read_value(line, v) {
                    Err(f) => Err(f),
                    Ok((value, end)) => {
                        proof {
                            crate::value::lemma_value_end(line@, v as int);
                        }
                        if at_end(line, end) {
                            Ok(Line::Entry(string_of(slice_subrange(line, i, k)), value))
                        } else {
                            Err(LineFault::Syntax)
                        }
                    },
                }
            }
        }
    }
}

/// How a header is written.
pub open spec fn header_line(name: Seq<char>) -> Seq<char> {
    seq!['['] + name + seq![']']
}

/// How a pair is written.
pub open spec fn entry_line(key: Seq<char>, value: ValueView) -> Seq<char> {
    key + seq![' ', '=', ' '] + render_value(value)
}

/// An empty line is blank.
pub proof fn lemma_blank_line()
    ensures
        parse_line(Seq::<char>::empty()) == Ok::<LineView, LineFault>(LineView::Blank),
{
}

/// A written header reads back as the header of the same name.
pub proof fn lemma_header_line(name: Seq<char>)
    requires
        all_in(name, Class::Except(']')),
    ensures
        parse_line(header_line(name)) == Ok::<LineView, LineFault>(LineView::Header(name)),
{
    let line = header_line(name);
    let n = name.len() as int;
    assert(line[0] == '[');
    assert forall|i: int| 1 <= i < n + 1 implies Class::Except(']').accepts(#[trigger] line[i]) by {
        assert(line[i] == name[i - 1]);
    }
    assert(line[n + 1] == ']');
    lemma_span_unique(line, 1, n + 1, Class::Except(']'));
    assert(line.subrange(1, n + 1) =~= name);
}

/// A written value starts with a character that is no blank space, no `#`
/// and opens neither a list nor a table, and holds no line break.
pub proof fn lemma_render_value(value: ValueView)
    requires
        writable(value),
    ensures
        render_value(value).len() > 0,
        Class::Token.accepts(render_value(value)[0]),
        render_value(value)[0] != '[',
        render_value(value)[0] != '{',
        all_in(render_value(value), Class::Except('\n')),
        value_at(render_value(value), 0) == Ok::<(ValueView, int), LineFault>(
            (value, render_value(value).len() as int),
        ),
{
    let rv = render_value(value);
    reveal_strlit("true");
    reveal_strlit("false");
    match value {
        ValueView::Text(s) => {
            let q = quote_for(s).unwrap();
            let n = s.len() as int;
            assert(rv[0] == q);
            assert(rv[n + 1] == q);
            assert forall|i: int| 1 <= i < n + 1 implies #[trigger] rv[i] == s[i - 1] by {}
            if q == '\'' {
                assert forall|i: int| 1 <= i < n + 1 implies Class::Except('\'').accepts(
                    #[trigger] rv[i],
                ) by {
                    assert(rv[i] == s[i - 1]);
                }
                lemma_span_unique(rv, 1, n + 1, Class::Except('\''));
            } else {
                assert forall|i: int| 1 <= i < n + 1 implies Class::Plain.accepts(
                    #[trigger] rv[i],
                ) by {
                    assert(rv[i] == s[i - 1]);
                }
                lemma_span_unique(rv, 1, n + 1, Class::Plain);
            }
            assert(rv.subrange(1, n + 1) =~= s);
            assert forall|i: int| 0 <= i < rv.len() implies Class::Except('\n').accepts(
                #[trigger] rv[i],
            ) by {
                if 1 <= i < n + 1 {
                    assert(rv[i] == s[i - 1]);
                }
            }
        },
        ValueView::Integer(m) => {
            crate::decimal::lemma_numeral_of_decimal(m);
            if m < 0 {
                let d = crate::decimal::decimal((-(m as int)) as nat);
                lemma_decimal((-(m as int)) as nat);
                assert(rv[0] == '-');
                assert forall|i: int| 0 <= i < rv.len() implies Class::Token.accepts(
                    #[trigger] rv[i],
                ) && rv[i] != '\n' by {
                    if i > 0 {
                        assert(rv[i] == d[i - 1]);
                    }
                }
            } else {
                lemma_decimal(m as nat);
                assert forall|i: int| 0 <= i < rv.len() implies Class::Token.accepts(
                    #[trigger] rv[i],
                ) && rv[i] != '\n' by {}
            }
            lemma_span_unique(rv, 0, rv.len() as int, Class::Token);
            assert(rv.subrange(0, rv.len() as int) =~= rv);
            assert(rv != "true"@);
            assert(rv != "false"@);
        },
        ValueView::Boolean(b) => {
            assert forall|i: int| 0 <= i < rv.len() implies Class::Token.accepts(
                #[trigger] rv[i],
            ) && rv[i] != '\n' by {}
            lemma_span_unique(rv, 0, rv.len() as int, Class::Token);
            assert(rv.subrange(0, rv.len() as int) =~= rv);
            assert("true"@ != "false"@);
        },
    }
}

/// A written pair reads back as the same key and value.
pub proof fn lemma_entry_line(key: Seq<char>, value: ValueView)
    requires
        key.len() > 0,
        all_in(key, Class::Bare),
        writable(value),
    ensures
        parse_line(entry_line(key, value)) == Ok::<LineView, LineFault>(
            LineView::Entry(key, value),
        ),
        all_in(entry_line(key, value), Class::Except('\n')),
{
    let rv = render_value(value);
    let line = entry_line(key, value);
    let n = key.len() as int;
    lemma_render_value(value);
    assert forall|i: int| 0 <= i < n implies #[trigger] line[i] == key[i] by {}
    assert(line[n] == ' ');
    assert(line[n + 1] == '=');
    assert(line[n + 2] == ' ');
    assert forall|i: int| n + 3 <= i < line.len() implies #[trigger] line[i] == rv[i - n - 3] by {}
    assert(Class::Bare.accepts(key[0]));
    assert(line[0] == key[0]);
    assert(span(line, 0, Class::Space) == 0);
    lemma_span_unique(line, 0, n, Class::Bare);
    lemma_span_unique(line, n, n + 1, Class::Space);
    assert(line[n + 3] == rv[0]);
    lemma_span_unique(line, n + 2, n + 3, Class::Space);
    assert(line.subrange(0, n) =~= key);
    lemma_value_shift(key + seq![' ', '=', ' '], rv);
    assert(span(line, line.len() as int, Class::Space) == line.len());
    assert forall|i: int| 0 <= i < line.len() implies Class::Except('\n').accepts(
        #[trigger] line[i],
    ) by {
        if i < n {
            assert(line[i] == key[i]);
        } else if i >= n + 3 {
            assert(line[i] == rv[i - n - 3]);
        }
    }
}

/// A value that fills a text from its start to its end is read the same
/// behind anything put in front of it.
pub proof fn lemma_value_shift(front: Seq<char>, text: Seq<char>)
    requires
        text.len() > 0,
        value_at(text, 0) matches Ok((v, e)) && e == text.len(),
    ensures
        value_at(front + text, front.len() as int) == Ok::<(ValueView, int), LineFault>(
            (value_at(text, 0)->Ok_0.0, (front + text).len() as int),
        ),
{
    let line = front + text;
    let at = front.len() as int;
    let c = text[0];
    assert(line[at] == c);
    assert forall|i: int| 0 <= i < text.len() implies #[trigger] line[at + i] == text[i] by {}
    let class = if c == '\'' {
        Class::Except('\'')
    } else if c == '"' {
        Class::Plain
    } else {
        Class::Token
    };
    let from = if c == '\'' || c == '"' {
        1int
    } else {
        0int
    };
    let e = span(text, from, class);
    crate::text::lemma_span_range(text, from, class);
    assert forall|i: int| at + from <= i < at + e implies class.accepts(#[trigger] line[i]) by {
        assert(line[at + (i - at)] == text[i - at]);
    }
    if e < text.len() {
        assert(line[at + e] == text[e]);
    }
    lemma_span_unique(line, at + from, at + e, class);
    assert(line.subrange(at + from, at + e) =~= text.subrange(from, e));
}

} // verus!
