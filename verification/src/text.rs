//! Characters and strings: character classes, scanning, and the conversions
//! between `str`, `String` and sequences of characters that the rest of the
//! crate works on.

use vstd::prelude::*;
use vstd::slice::slice_subrange;

verus! {

/// `String::push` appends one character to the end of the string.
pub assume_specification[ std::string::String::push ](s: &mut std::string::String, c: char)
    ensures
        final(s)@ == old(s)@.push(c),
;

/// A set of characters that a scan runs over.
#[derive(Clone, Copy, Debug)]
pub enum Class {
    /// Blank space inside a line: space, tab, carriage return.
    Space,
    /// What an unquoted key is made of: ASCII letters, digits, `_` and `-`.
    Bare,
    /// What a version identifier is made of: ASCII letters, digits and `-`.
    Ident,
    /// What an unquoted value is made of: anything but blank space and `#`.
    Token,
    /// The ten digits.
    Digit,
    /// What stands between double quotes: anything but `"` and `\`.
    Plain,
    /// Every character but the given one.
    Except(char),
}

/// Blank space inside a line: space, tab, carriage return.
pub open spec fn is_space(c: char) -> bool {
    c == ' ' || c == '\t' || c == '\r'
}

/// One of the ten ASCII digits.
pub open spec fn is_digit(c: char) -> bool {
    '0' <= c && c <= '9'
}

/// An ASCII letter.
pub open spec fn is_letter(c: char) -> bool {
    ('a' <= c && c <= 'z') || ('A' <= c && c <= 'Z')
}

impl Class {
    /// Whether `c` belongs to the class.
    pub open spec fn accepts(self, c: char) -> bool {
        match self {
            Class::Space => is_space(c),
            Class::Bare => is_letter(c) || is_digit(c) || c == '_' || c == '-',
            Class::Ident => is_letter(c) || is_digit(c) || c == '-',
            Class::Token => !is_space(c) && c != '#',
            Class::Digit => is_digit(c),
            Class::Plain => c != '"' && c != '\\',
            Class::Except(x) => c != x,
        }
    }

    /// Whether `c` belongs to the class.
    pub fn admits(self, c: char) -> (b: bool)
        ensures
            b == self.accepts(c),
    {
        let space = c == ' ' || c == '\t' || c == '\r';
        let digit = '0' <= c && c <= '9';
        let letter = ('a' <= c && c <= 'z') || ('A' <= c && c <= 'Z');
        match self {
            Class::Space => space,
            Class::Bare => letter || digit || c == '_' || c == '-',
            Class::Ident => letter || digit || c == '-',
            Class::Token => !space && c != '#',
            Class::Digit => digit,
            Class::Plain => c != '"' && c != '\\',
            Class::Except(x) => c != x,
        }
    }
}

/// Where the run of characters of `class` that starts at `from` ends: the
/// first position at or after `from` whose character is outside the class, or
/// the length of `s`.
pub open spec fn span(s: Seq<char>, from: int, class: Class) -> int
    decreases s.len() - from,
{
    if 0 <= from < s.len() && class.accepts(s[from]) {
        span(s, from + 1, class)
    } else {
        from
    }
}

/// Every character of `s` belongs to `class`.
pub open spec fn all_in(s: Seq<char>, class: Class) -> bool {
    forall|i: int| 0 <= i < s.len() ==> class.accepts(#[trigger] s[i])
}

/// A run ends at or after its start and inside the text, holds only
/// characters of its class, and stops at a character outside it or at the
/// end.
pub proof fn lemma_span_range(s: Seq<char>, from: int, class: Class)
    requires
        0 <= from <= s.len(),
    ensures
        from <= span(s, from, class) <= s.len(),
        forall|i: int| from <= i < span(s, from, class) ==> class.accepts(#[trigger] s[i]),
        span(s, from, class) < s.len() ==> !class.accepts(s[span(s, from, class)]),
    decreases s.len() - from,
{
    if from < s.len() && class.accepts(s[from]) {
        lemma_span_range(s, from + 1, class);
    }
}

/// A run ends at the first character outside its class, or at the end where
/// there is none.
pub proof fn lemma_span_unique(s: Seq<char>, from: int, to: int, class: Class)
    requires
        0 <= from <= to <= s.len(),
        forall|i: int| from <= i < to ==> class.accepts(#[trigger] s[i]),
        to < s.len() ==> !class.accepts(s[to]),
    ensures
        span(s, from, class) == to,
    decreases to - from,
{
    if from < to {
        lemma_span_unique(s, from + 1, to, class);
    }
}

/// A scan of `head + tail` that starts inside `head`, where the rest of `head`
/// is in the class, goes on into `tail`.
pub proof fn lemma_span_concat(head: Seq<char>, tail: Seq<char>, from: int, class: Class)
    requires
        0 <= from <= head.len(),
        forall|i: int| from <= i < head.len() ==> class.accepts(#[trigger] head[i]),
    ensures
        span(head + tail, from, class) == head.len() + span(tail, 0, class),
{
    let s = head + tail;
    let e = span(tail, 0, class);
    lemma_span_range(tail, 0, class);
    assert forall|i: int| from <= i < head.len() + e implies class.accepts(#[trigger] s[i]) by {
        if i < head.len() {
            assert(s[i] == head[i]);
        } else {
            assert(s[i] == tail[i - head.len()]);
        }
    }
    if head.len() + e < s.len() {
        assert(s[head.len() + e] == tail[e]);
    }
    lemma_span_unique(s, from, head.len() + e, class);
}

/// The end of the run of `class` in `s` that starts at `from`.
pub fn scan(s: &[char], from: usize, class: Class) -> (end: usize)
    requires
        from <= s@.len(),
    ensures
        end == span(s@, from as int, class),
        from <= end <= s@.len(),
{
    let mut i: usize = from;
    while i < s.len() && class.admits(s[i])
        invariant
            from <= i <= s@.len(),
            span(s@, from as int, class) == span(s@, i as int, class),
        decreases s@.len() - i,
    {
        i = i + 1;
    }
    i
}

/// A run covers all of `s` exactly where every character of `s` is in the
/// class.
pub proof fn lemma_span_all(s: Seq<char>, class: Class)
    ensures
        all_in(s, class) <==> span(s, 0, class) == s.len(),
{
    lemma_span_range(s, 0, class);
    if all_in(s, class) {
        lemma_span_unique(s, 0, s.len() as int, class);
    }
}

/// A text made of two parts is in a class exactly where both parts are.
pub proof fn lemma_all_in_concat(a: Seq<char>, b: Seq<char>, class: Class)
    ensures
        all_in(a + b, class) == (all_in(a, class) && all_in(b, class)),
{
    let s = a + b;
    if all_in(a, class) && all_in(b, class) {
        assert forall|i: int| 0 <= i < s.len() implies class.accepts(#[trigger] s[i]) by {
            if i < a.len() {
                assert(s[i] == a[i]);
            } else {
                assert(s[i] == b[i - a.len()]);
            }
        }
    }
    if all_in(s, class) {
        assert forall|i: int| 0 <= i < a.len() implies class.accepts(#[trigger] a[i]) by {
            assert(s[i] == a[i]);
        }
        assert forall|i: int| 0 <= i < b.len() implies class.accepts(#[trigger] b[i]) by {
            assert(s[a.len() + i] == b[i]);
        }
    }
}

/// A text in a class is in every class that accepts at least as much.
pub proof fn lemma_all_in_weaken(s: Seq<char>, strong: Class, weak: Class)
    requires
        all_in(s, strong),
        forall|c: char| strong.accepts(c) ==> weak.accepts(c),
    ensures
        all_in(s, weak),
{
    assert forall|i: int| 0 <= i < s.len() implies weak.accepts(#[trigger] s[i]) by {
        assert(strong.accepts(s[i]));
    }
}

/// `s` cut at its first `c`: what stands before it, and what stands after it
/// where there is one.
pub open spec fn cut(s: Seq<char>, c: char) -> (Seq<char>, Option<Seq<char>>) {
    let e = span(s, 0, Class::Except(c));
    if e < s.len() {
        (s.take(e), Some(s.skip(e + 1)))
    } else {
        (s, None)
    }
}

/// What stands before the cut holds no `c`, and the two parts and the `c`
/// between them make up the text.
pub proof fn lemma_cut(s: Seq<char>, c: char)
    ensures
        all_in(cut(s, c).0, Class::Except(c)),
        cut(s, c).0.len() <= s.len(),
        cut(s, c).1 matches Some(t) ==> t.len() + cut(s, c).0.len() + 1 == s.len(),
{
    lemma_span_range(s, 0, Class::Except(c));
}

/// Cutting `head`, `c`, `tail` gives `head` and `tail` back, where `head`
/// holds no `c`.
pub proof fn lemma_cut_joined(head: Seq<char>, c: char, tail: Seq<char>)
    requires
        all_in(head, Class::Except(c)),
    ensures
        cut(head + seq![c] + tail, c) == (head, Some(tail)),
{
    let s = head + seq![c] + tail;
    assert forall|i: int| 0 <= i < head.len() implies Class::Except(c).accepts(#[trigger] s[i]) by {
        assert(s[i] == head[i]);
    }
    assert(s[head.len() as int] == c);
    lemma_span_unique(s, 0, head.len() as int, Class::Except(c));
    assert(s.take(head.len() as int) =~= head);
    assert(s.skip(head.len() as int + 1) =~= tail);
}

/// Cutting a text that holds no `c` gives all of it.
pub proof fn lemma_cut_whole(s: Seq<char>, c: char)
    requires
        all_in(s, Class::Except(c)),
    ensures
        cut(s, c) == (s, None::<Seq<char>>),
{
    lemma_span_all(s, Class::Except(c));
}

/// Cuts `s` at its first `c`.
pub fn split(s: &[char], c: char) -> (r: (&[char], Option<&[char]>))
    ensures
        r.0@ == cut(s@, c).0,
        match cut(s@, c).1 {
            Some(t) => r.1 matches Some(x) && x@ == t,
            None => r.1 is None,
        },
{
    let e = scan(s, 0, Class::Except(c));
    if e < s.len() {
        let head = slice_subrange(s, 0, e);
        let tail = slice_subrange(s, e + 1, s.len());
        (head, Some(tail))
    } else {
        (s, None)
    }
}

/// The characters of `s`, in order.
pub fn chars_of(s: &str) -> (out: Vec<char>)
    ensures
        out@ == s@,
{
    let mut out: Vec<char> = Vec::new();
    let chars = s.chars();
    for c in it: chars
        invariant
            it.seq() == s@,
            out@ == it.history(),
    {
        out.push(c);
    }
    assert(out@ =~= s@);
    out
}

/// Appends the characters of `s` to `out`.
pub fn push_chars(out: &mut String, s: &[char])
    ensures
        final(out)@ == old(out)@ + s@,
{
    let mut i: usize = 0;
    while i < s.len()
        invariant
            i <= s@.len(),
            out@ == old(out)@ + s@.take(i as int),
        decreases s@.len() - i,
    {
        out.push(s[i]);
        i = i + 1;
        assert(s@.take(i as int) =~= s@.take(i - 1).push(s@[i - 1]));
        assert(out@ =~= old(out)@ + s@.take(i as int));
    }
    assert(s@.take(i as int) =~= s@);
}

/// The string made of the characters of `s`.
pub fn string_of(s: &[char]) -> (out: String)
    ensures
        out@ == s@,
{
    let mut out = String::new();
    push_chars(&mut out, s);
    assert(out@ =~= s@);
    out
}

/// Whether `s` holds exactly the characters of `word`.
pub fn spells(s: &[char], word: &str) -> (same: bool)
    ensures
        same == (s@ == word@),
{
    match after_prefix(s, word) {
        Some(n) => {
            assert(n == s@.len() ==> s@.take(n as int) =~= s@);
            n == s.len()
        },
        None => {
            assert(s@ == word@ ==> s@.take(word@.len() as int) =~= word@);
            false
        },
    }
}

/// `word` stands at the start of `s`.
pub open spec fn starts_with(s: Seq<char>, word: Seq<char>) -> bool {
    word.len() <= s.len() && s.take(word.len() as int) == word
}

/// The length of `word` when it stands at the start of `s`.
pub fn after_prefix(s: &[char], word: &str) -> (end: Option<usize>)
    ensures
        end is Some <==> starts_with(s@, word@),
        end matches Some(n) ==> n == word@.len(),
{
    let mut i: usize = 0;
    let mut ok = true;
    let chars = word.chars();
    for c in it: chars
        invariant
            it.seq() == word@,
            ok ==> i == it.index() && i <= s@.len() && s@.take(i as int) == word@.take(i as int),
            !ok ==> !starts_with(s@, word@),
    {
        if ok {
            if i < s.len() && s[i] == c {
                i = i + 1;
                assert(s@.take(i as int) =~= s@.take(i - 1).push(s@[i - 1]));
                assert(word@.take(i as int) =~= word@.take(i - 1).push(word@[i - 1]));
            } else {
                ok = false;
                assert(!starts_with(s@, word@)) by {
                    if starts_with(s@, word@) {
                        assert(s@.take(word@.len() as int)[i as int] == word@[i as int]);
                    }
                }
            }
        }
    }
    if ok {
        assert(word@.take(i as int) =~= word@);
        Some(i)
    } else {
        None
    }
}

} // verus!
