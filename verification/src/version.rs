//! Semantic versions: `major.minor.patch`, then `-` and pre-release
//! identifiers, then `+` and build identifiers, each list separated by `.`.

use vstd::prelude::*;
use vstd::string::StringExecFns;
use crate::decimal::{decimal, lemma_decimal, numeral_u64, push_decimal, read_u64};
use crate::text::{
    all_in, chars_of, cut, lemma_all_in_concat, lemma_all_in_weaken, lemma_cut, lemma_cut_joined,
    lemma_cut_whole, lemma_span_all, scan, split, string_of, Class,
};
use crate::views::{lemma_views_empty, lemma_views_push, opt_view, views};

verus! {

/// One identifier of a pre-release or build list.
#[derive(Debug, PartialEq, Eq)]
pub enum Identifier {
    /// An identifier that is a number.
    Numeric(u64),
    /// Any other identifier.
    AlphaNumeric(String),
}

/// What an `Identifier` holds.
pub enum IdentifierView {
    Numeric(u64),
    AlphaNumeric(Seq<char>),
}

impl View for Identifier {
    type V = IdentifierView;

    open spec fn view(&self) -> IdentifierView {
        match self {
            Identifier::Numeric(n) => IdentifierView::Numeric(*n),
            Identifier::AlphaNumeric(s) => IdentifierView::AlphaNumeric(s@),
        }
    }
}

impl Clone for Identifier {
    fn clone(&self) -> (r: Self)
        ensures
            r == *self,
    {
        match self {
            Identifier::Numeric(n) => Identifier::Numeric(*n),
            Identifier::AlphaNumeric(s) => Identifier::AlphaNumeric(s.clone()),
        }
    }
}

/// A semantic version.
#[derive(Debug, PartialEq, Eq)]
pub struct Version {
    pub major: u64,
    pub minor: u64,
    pub patch: u64,
    pub pre: Vec<Identifier>,
    pub build: Vec<Identifier>,
}

/// What a `Version` holds.
pub struct VersionView {
    pub major: u64,
    pub minor: u64,
    pub patch: u64,
    pub pre: Seq<IdentifierView>,
    pub build: Seq<IdentifierView>,
}

impl View for Version {
    type V = VersionView;

    open spec fn view(&self) -> VersionView {
        VersionView {
            major: self.major,
            minor: self.minor,
            patch: self.patch,
            pre: views(self.pre@),
            build: views(self.build@),
        }
    }
}

/// A copy of a list of identifiers.
fn clone_identifiers(ids: &Vec<Identifier>) -> (r: Vec<Identifier>)
    ensures
        views(r@) == views(ids@),
{
    let mut out: Vec<Identifier> = Vec::new();
    let mut i: usize = 0;
    proof {
        lemma_views_empty::<Identifier>();
    }
    while i < ids.len()
        invariant
            i <= ids@.len(),
            views(out@) == views(ids@).take(i as int),
        decreases ids@.len() - i,
    {
        let ghost before = out@;
        let id = ids[i].clone();
        proof {
            lemma_views_push(before, id);
            assert(views(ids@).take(i + 1) =~= views(ids@).take(i as int).push(id@));
        }
        out.push(id);
        i = i + 1;
    }
    assert(views(ids@).take(i as int) =~= views(ids@));
    out
}

impl Clone for Version {
    fn clone(&self) -> (r: Self)
        ensures
            r@ == self@,
    {
        Version {
            major: self.major,
            minor: self.minor,
            patch: self.patch,
            pre: clone_identifiers(&self.pre),
            build: clone_identifiers(&self.build),
        }
    }
}

/// What one identifier says.
///
/// An identifier is one or more ASCII letters, digits and `-`. One made of
/// digits alone is a number, written without a leading zero and within 64
/// bits. Where `strict` holds, as for a pre-release, digits that are no such
/// number are refused; elsewhere they are kept as they are written.
pub open spec fn identifier(s: Seq<char>, strict: bool) -> Option<IdentifierView> {
    if s.len() == 0 || !all_in(s, Class::Ident) {
        None
    } else if all_in(s, Class::Digit) {
        match numeral_u64(s) {
            Some(n) => Some(IdentifierView::Numeric(n)),
            None => if strict {
                None
            } else {
                Some(IdentifierView::AlphaNumeric(s))
            },
        }
    } else {
        Some(IdentifierView::AlphaNumeric(s))
    }
}

/// `front` before the list `rest`, where there is one.
pub open spec fn prepend(front: Seq<IdentifierView>, rest: Option<Seq<IdentifierView>>) -> Option<
    Seq<IdentifierView>,
> {
    match rest {
        Some(r) => Some(front + r),
        None => None,
    }
}

/// What a list of identifiers separated by `.` says.
pub open spec fn identifiers(s: Seq<char>, strict: bool) -> Option<Seq<IdentifierView>>
    decreases s.len(),
{
    let (head, tail) = cut(s, '.');
    match identifier(head, strict) {
        None => None,
        Some(id) => match tail {
            None => Some(seq![id]),
            Some(t) => {
                proof {
                    lemma_cut(s, '.');
                }
                prepend(seq![id], identifiers(t, strict))
            },
        },
    }
}

/// What the list behind a `-` or a `+` says: nothing where the mark is absent.
pub open spec fn optional_identifiers(s: Option<Seq<char>>, strict: bool) -> Option<
    Seq<IdentifierView>,
> {
    match s {
        None => Some(Seq::empty()),
        Some(t) => identifiers(t, strict),
    }
}

/// What a version says, where the text is one.
pub open spec fn parse_version(s: Seq<char>) -> Option<VersionView> {
    let (front, build) = cut(s, '+');
    let (core, pre) = cut(front, '-');
    let (major, after_major) = cut(core, '.');
    match after_major {
        None => None,
        Some(a) => {
            let (minor, after_minor) = cut(a, '.');
            match after_minor {
                None => None,
                Some(patch) => match (
                    numeral_u64(major),
                    numeral_u64(minor),
                    numeral_u64(patch),
                    optional_identifiers(pre, true),
                    optional_identifiers(build, false),
                ) {
                    (Some(x), Some(y), Some(z), Some(p), Some(b)) => Some(
                        VersionView { major: x, minor: y, patch: z, pre: p, build: b },
                    ),
                    _ => None,
                },
            }
        },
    }
}

/// How an identifier is written.
pub open spec fn render_identifier(id: IdentifierView) -> Seq<char> {
    match id {
        IdentifierView::Numeric(n) => decimal(n as nat),
        IdentifierView::AlphaNumeric(s) => s,
    }
}

/// How a list of identifiers is written: with a `.` between two of them.
pub open spec fn joined(ids: Seq<IdentifierView>) -> Seq<char>
    decreases ids.len(),
{
    if ids.len() == 0 {
        Seq::empty()
    } else if ids.len() == 1 {
        render_identifier(ids[0])
    } else {
        render_identifier(ids[0]) + seq!['.'] + joined(ids.drop_first())
    }
}

/// How a list is written behind its mark: not at all where it is empty.
pub open spec fn suffix(mark: char, ids: Seq<IdentifierView>) -> Seq<char> {
    if ids.len() == 0 {
        Seq::empty()
    } else {
        seq![mark] + joined(ids)
    }
}

/// How the three numbers of a version are written.
pub open spec fn render_core(v: VersionView) -> Seq<char> {
    decimal(v.major as nat) + seq!['.'] + decimal(v.minor as nat) + seq!['.'] + decimal(
        v.patch as nat,
    )
}

/// How a version is written.
pub open spec fn render_version(v: VersionView) -> Seq<char> {
    render_core(v) + suffix('-', v.pre) + suffix('+', v.build)
}

/// An identifier that is read back as itself once written.
pub open spec fn identifier_wf(id: IdentifierView, strict: bool) -> bool {
    match id {
        IdentifierView::Numeric(_) => true,
        IdentifierView::AlphaNumeric(s) => identifier(s, strict) == Some(id),
    }
}

/// Every identifier of the list is read back as itself once written.
pub open spec fn identifiers_wf(ids: Seq<IdentifierView>, strict: bool) -> bool {
    forall|i: int| 0 <= i < ids.len() ==> identifier_wf(#[trigger] ids[i], strict)
}

/// A version whose identifiers are read back as themselves once written.
pub open spec fn version_wf(v: VersionView) -> bool {
    identifiers_wf(v.pre, true) && identifiers_wf(v.build, false)
}

/// Reads one identifier.
pub fn read_identifier(s: &[char], strict: bool) -> (r: Option<Identifier>)
    ensures
        opt_view(r) == identifier(s@, strict),
{
    proof {
        lemma_span_all(s@, Class::Ident);
        lemma_span_all(s@, Class::Digit);
    }
    if s.len() == 0 || scan(s, 0, Class::Ident) < s.len() {
        None
    } else if scan(s, 0, Class::Digit) == s.len() {
        match read_u64(s) {
            Some(n) => Some(Identifier::Numeric(n)),
            None => if strict {
                None
            } else {
                Some(Identifier::AlphaNumeric(string_of(s)))
            },
        }
    } else {
        Some(Identifier::AlphaNumeric(string_of(s)))
    }
}

/// Reads a list of identifiers separated by `.`.
pub fn read_identifiers(s: &[char], strict: bool) -> (r: Option<Vec<Identifier>>)
    ensures
        match identifiers(s@, strict) {
            Some(ids) => r matches Some(v) && views(v@) == ids,
            None => r is None,
        },
{
    let mut out: Vec<Identifier> = Vec::new();
    let mut rest: &[char] = s;
    proof {
        lemma_views_empty::<Identifier>();
        match identifiers(s@, strict) {
            Some(ids) => {
                assert(Seq::<IdentifierView>::empty() + ids =~= ids);
            },
            None => {},
        }
    }
    loop
        invariant
            prepend(views(out@), identifiers(rest@, strict)) == identifiers(s@, strict),
        decreases rest@.len(),
    {
        let (head, tail) = split(rest, '.');
        proof {
            lemma_cut(rest@, '.');
        }
        match read_identifier(head, strict) {
            None => {
                return None;
            },
            Some(id) => {
                let ghost before = views(out@);
                proof {
                    lemma_views_push(out@, id);
                }
                out.push(id);
                match tail {
                    None => {
                        assert(before + seq![id@] =~= views(out@));
                        return Some(out);
                    },
                    Some(t) => {
                        proof {
                            match identifiers(t@, strict) {
                                Some(more) => {
                                    assert(before + (seq![id@] + more) =~= views(out@) + more);
                                },
                                None => {},
                            }
                        }
                        rest = t;
                    },
                }
            },
        }
    }
}

/// Reads the list behind a `-` or a `+`: nothing where the mark is absent.
fn read_optional(s: Option<&[char]>, strict: bool) -> (r: Option<Vec<Identifier>>)
    ensures
        match optional_identifiers(
            match s {
                Some(t) => Some(t@),
                None => None,
            },
            strict,
        ) {
            Some(ids) => r matches Some(v) && views(v@) == ids,
            None => r is None,
        },
{
    match s {
        None => {
            proof {
                lemma_views_empty::<Identifier>();
            }
            Some(Vec::new())
        },
        Some(t) => read_identifiers(t, strict),
    }
}

impl Version {
    /// Reads a version.
    pub fn parse(text: &str) -> (r: Option<Version>)
        ensures
            opt_view(r) == parse_version(text@),
            r matches Some(v) ==> version_wf(v@),
    {
        proof {
            lemma_parsed_version_wf(text@);
        }
        let chars = chars_of(text);
        let (front, build) = split(chars.as_slice(), '+');
        let (core, pre) = split(front, '-');
        let (major, after_major) = split(core, '.');
        match after_major {
            None => None,
            Some(a) => {
                let (minor, after_minor) = split(a, '.');
                match after_minor {
                    None => None,
                    Some(patch) => {
                        let x = read_u64(major);
                        let y = read_u64(minor);
                        let z = read_u64(patch);
                        let p = read_optional(pre, true);
                        let b = read_optional(build, false);
                        match (x, y, z, p, b) {
                            (Some(x), Some(y), Some(z), Some(p), Some(b)) => Some(
                                Version { major: x, minor: y, patch: z, pre: p, build: b },
                            ),
                            _ => None,
                        }
                    },
                }
            },
        }
    }

    /// Whether every identifier is read back as itself once written.
    pub fn is_wf(&self) -> (b: bool)
        ensures
            b == version_wf(self@),
    {
        all_wf(&self.pre, true) && all_wf(&self.build, false)
    }

    /// Appends the version as it is written to `out`.
    pub fn push_to(&self, out: &mut String)
        ensures
            final(out)@ == old(out)@ + render_version(self@),
    {
        push_decimal(out, self.major);
        out.push('.');
        push_decimal(out, self.minor);
        out.push('.');
        push_decimal(out, self.patch);
        assert(out@ =~= old(out)@ + render_core(self@));
        push_suffix(out, '-', &self.pre);
        push_suffix(out, '+', &self.build);
        assert(out@ =~= old(out)@ + render_version(self@));
    }

    /// The version as it is written.
    pub fn to_text(&self) -> (out: String)
        ensures
            out@ == render_version(self@),
    {
        let mut out = String::new();
        self.push_to(&mut out);
        assert(out@ =~= render_version(self@));
        out
    }
}

/// Whether every identifier of the list is read back as itself once written.
fn all_wf(ids: &Vec<Identifier>, strict: bool) -> (b: bool)
    ensures
        b == identifiers_wf(views(ids@), strict),
{
    let mut i: usize = 0;
    while i < ids.len()
        invariant
            i <= ids@.len(),
            forall|j: int| 0 <= j < i ==> identifier_wf(#[trigger] views(ids@)[j], strict),
        decreases ids@.len() - i,
    {
        match &ids[i] {
            Identifier::Numeric(_) => {},
            Identifier::AlphaNumeric(s) => {
                let chars = chars_of(s.as_str());
                match read_identifier(chars.as_slice(), strict) {
                    Some(Identifier::AlphaNumeric(_)) => {},
                    _ => {
                        assert(!identifier_wf(views(ids@)[i as int], strict));
                        return false;
                    },
                }
            },
        }
        i = i + 1;
    }
    true
}

/// What stands behind the first identifier of a list once that one is
/// written: a `.` and the others, or nothing.
pub open spec fn others(ids: Seq<IdentifierView>) -> Seq<char> {
    if ids.len() == 0 {
        Seq::empty()
    } else {
        seq!['.'] + joined(ids)
    }
}

/// Appends an identifier as it is written to `out`.
fn push_identifier(out: &mut String, id: &Identifier)
    ensures
        final(out)@ == old(out)@ + render_identifier(id@),
{
    match id {
        Identifier::Numeric(n) => {
            push_decimal(out, *n);
        },
        Identifier::AlphaNumeric(s) => {
            out.append(s.as_str());
        },
    }
}

/// Appends a list behind its mark to `out`: nothing where the list is empty.
fn push_suffix(out: &mut String, mark: char, ids: &Vec<Identifier>)
    ensures
        final(out)@ == old(out)@ + suffix(mark, views(ids@)),
{
    let n = ids.len();
    if n == 0 {
        assert(out@ =~= old(out)@ + suffix(mark, views(ids@)));
        return ;
    }
    let ghost all = views(ids@);
    out.push(mark);
    push_identifier(out, &ids[0]);
    let mut i: usize = 1;
    proof {
        lemma_joined_step(all);
        assert(all.skip(1) =~= all.drop_first());
        assert(out@ + others(all.skip(1)) =~= old(out)@ + suffix(mark, all));
    }
    while i < n
        invariant
            1 <= i <= n,
            n == ids@.len(),
            all == views(ids@),
            out@ + others(all.skip(i as int)) == old(out)@ + suffix(mark, all),
        decreases n - i,
    {
        let ghost before = out@;
        out.push('.');
        push_identifier(out, &ids[i]);
        proof {
            let rest = all.skip(i as int);
            lemma_joined_step(rest);
            assert(rest.drop_first() =~= all.skip(i + 1));
            assert(rest[0] == ids@[i as int]@);
            assert(out@ + others(all.skip(i + 1)) =~= before + others(rest));
        }
        i = i + 1;
    }
    assert(out@ + others(all.skip(n as int)) =~= out@);
}

/// A list, written, is its first identifier and then the others.
pub proof fn lemma_joined_step(ids: Seq<IdentifierView>)
    requires
        ids.len() > 0,
    ensures
        joined(ids) == render_identifier(ids[0]) + others(ids.drop_first()),
{
    if ids.len() == 1 {
        assert(joined(ids) =~= render_identifier(ids[0]) + others(ids.drop_first()));
    } else {
        assert(joined(ids) =~= render_identifier(ids[0]) + others(ids.drop_first()));
    }
}

/// A well-formed identifier, written, is one or more letters, digits and `-`
/// and reads back as itself.
pub proof fn lemma_identifier_text(id: IdentifierView, strict: bool)
    requires
        identifier_wf(id, strict),
    ensures
        render_identifier(id).len() > 0,
        all_in(render_identifier(id), Class::Ident),
        identifier(render_identifier(id), strict) == Some(id),
{
    match id {
        IdentifierView::Numeric(n) => {
            lemma_decimal(n as nat);
            let t = decimal(n as nat);
            assert(all_in(t, Class::Digit));
            lemma_all_in_weaken(t, Class::Digit, Class::Ident);
        },
        IdentifierView::AlphaNumeric(s) => {},
    }
}

/// A list of well-formed identifiers, written, reads back as itself, and
/// holds only letters, digits, `-` and `.`.
pub proof fn lemma_joined(ids: Seq<IdentifierView>, strict: bool, avoid: char)
    requires
        ids.len() > 0,
        identifiers_wf(ids, strict),
        !Class::Ident.accepts(avoid),
        avoid != '.',
    ensures
        identifiers(joined(ids), strict) == Some(ids),
        all_in(joined(ids), Class::Except(avoid)),
    decreases ids.len(),
{
    let first = render_identifier(ids[0]);
    lemma_identifier_text(ids[0], strict);
    lemma_all_in_weaken(first, Class::Ident, Class::Except('.'));
    lemma_all_in_weaken(first, Class::Ident, Class::Except(avoid));
    if ids.len() == 1 {
        lemma_cut_whole(first, '.');
        assert(seq![ids[0]] =~= ids);
    } else {
        let rest = ids.drop_first();
        assert forall|i: int| 0 <= i < rest.len() implies identifier_wf(
            #[trigger] rest[i],
            strict,
        ) by {
            assert(rest[i] == ids[i + 1]);
        }
        lemma_joined(rest, strict, avoid);
        lemma_cut_joined(first, '.', joined(rest));
        assert(seq![ids[0]] + rest =~= ids);
        lemma_all_in_concat(first, seq!['.'], Class::Except(avoid));
        lemma_all_in_concat(first + seq!['.'], joined(rest), Class::Except(avoid));
    }
}

/// What is read from a list of identifiers is well-formed.
pub proof fn lemma_identifiers_wf(s: Seq<char>, strict: bool)
    ensures
        identifiers(s, strict) matches Some(ids) ==> identifiers_wf(ids, strict) && ids.len() > 0,
    decreases s.len(),
{
    let (head, tail) = cut(s, '.');
    lemma_cut(s, '.');
    match (identifier(head, strict), tail) {
        (Some(id), Some(t)) => {
            lemma_identifiers_wf(t, strict);
            match identifiers(t, strict) {
                Some(more) => {
                    let ids = seq![id] + more;
                    assert forall|i: int| 0 <= i < ids.len() implies identifier_wf(
                        #[trigger] ids[i],
                        strict,
                    ) by {
                        if i > 0 {
                            assert(ids[i] == more[i - 1]);
                        }
                    }
                },
                None => {},
            }
        },
        _ => {},
    }
}

/// What is read from a version is well-formed.
pub proof fn lemma_parsed_version_wf(s: Seq<char>)
    ensures
        parse_version(s) matches Some(v) ==> version_wf(v),
{
    let (front, build) = cut(s, '+');
    let (core, pre) = cut(front, '-');
    match pre {
        Some(t) => lemma_identifiers_wf(t, true),
        None => {},
    }
    match build {
        Some(t) => lemma_identifiers_wf(t, false),
        None => {},
    }
}

/// A number, written, holds digits alone and reads back as itself.
proof fn lemma_number_text(n: u64, avoid: char)
    requires
        !Class::Digit.accepts(avoid),
    ensures
        numeral_u64(decimal(n as nat)) == Some(n),
        all_in(decimal(n as nat), Class::Except(avoid)),
{
    lemma_decimal(n as nat);
    let t = decimal(n as nat);
    assert(all_in(t, Class::Digit));
    lemma_all_in_weaken(t, Class::Digit, Class::Except(avoid));
}

/// The three numbers of a version, written, hold only digits and `.`.
proof fn lemma_core_avoids(v: VersionView, avoid: char)
    requires
        !Class::Digit.accepts(avoid),
        avoid != '.',
    ensures
        all_in(render_core(v), Class::Except(avoid)),
{
    let a = decimal(v.major as nat);
    let b = decimal(v.minor as nat);
    let c = decimal(v.patch as nat);
    let dot = seq!['.'];
    lemma_number_text(v.major, avoid);
    lemma_number_text(v.minor, avoid);
    lemma_number_text(v.patch, avoid);
    lemma_all_in_concat(a, dot, Class::Except(avoid));
    lemma_all_in_concat(a + dot, b, Class::Except(avoid));
    lemma_all_in_concat(a + dot + b, dot, Class::Except(avoid));
    lemma_all_in_concat(a + dot + b + dot, c, Class::Except(avoid));
}

/// A list behind its mark holds only the mark, letters, digits, `-` and `.`.
proof fn lemma_suffix_avoids(mark: char, ids: Seq<IdentifierView>, strict: bool, avoid: char)
    requires
        identifiers_wf(ids, strict),
        !Class::Ident.accepts(avoid),
        avoid != '.',
        avoid != mark,
    ensures
        all_in(suffix(mark, ids), Class::Except(avoid)),
{
    if ids.len() > 0 {
        lemma_joined(ids, strict, avoid);
        lemma_all_in_concat(seq![mark], joined(ids), Class::Except(avoid));
    }
}

/// A well-formed version, written, holds neither a line break nor a `'`.
pub proof fn lemma_version_text(v: VersionView, avoid: char)
    requires
        version_wf(v),
        !Class::Ident.accepts(avoid),
        avoid != '.',
        avoid != '+',
    ensures
        all_in(render_version(v), Class::Except(avoid)),
{
    lemma_core_avoids(v, avoid);
    lemma_suffix_avoids('-', v.pre, true, avoid);
    lemma_suffix_avoids('+', v.build, false, avoid);
    lemma_all_in_concat(render_core(v), suffix('-', v.pre), Class::Except(avoid));
    lemma_all_in_concat(
        render_core(v) + suffix('-', v.pre),
        suffix('+', v.build),
        Class::Except(avoid),
    );
}

/// A well-formed version, written, reads back as itself.
pub proof fn lemma_version_round_trip(v: VersionView)
    requires
        version_wf(v),
    ensures
        parse_version(render_version(v)) == Some(v),
{
    let a = decimal(v.major as nat);
    let b = decimal(v.minor as nat);
    let c = decimal(v.patch as nat);
    let dot = seq!['.'];
    let core = render_core(v);
    let front = core + suffix('-', v.pre);
    let text = render_version(v);
    // the build list
    lemma_core_avoids(v, '+');
    lemma_suffix_avoids('-', v.pre, true, '+');
    lemma_all_in_concat(core, suffix('-', v.pre), Class::Except('+'));
    if v.build.len() > 0 {
        lemma_joined(v.build, false, '\n');
        assert(text =~= front + seq!['+'] + joined(v.build));
        lemma_cut_joined(front, '+', joined(v.build));
    } else {
        assert(text =~= front);
        lemma_cut_whole(front, '+');
        assert(v.build =~= Seq::<IdentifierView>::empty());
    }
    assert(cut(text, '+').0 == front);
    assert(optional_identifiers(cut(text, '+').1, false) == Some(v.build));
    // the pre-release list
    lemma_core_avoids(v, '-');
    if v.pre.len() > 0 {
        lemma_joined(v.pre, true, '\n');
        assert(front =~= core + seq!['-'] + joined(v.pre));
        lemma_cut_joined(core, '-', joined(v.pre));
    } else {
        assert(front =~= core);
        lemma_cut_whole(core, '-');
        assert(v.pre =~= Seq::<IdentifierView>::empty());
    }
    assert(cut(front, '-').0 == core);
    assert(optional_identifiers(cut(front, '-').1, true) == Some(v.pre));
    // the three numbers
    lemma_number_text(v.major, '.');
    lemma_number_text(v.minor, '.');
    lemma_number_text(v.patch, '.');
    assert(core =~= a + dot + (b + dot + c));
    lemma_cut_joined(a, '.', b + dot + c);
    lemma_cut_joined(b, '.', c);
    assert(cut(core, '.') == (a, Some(b + dot + c)));
    assert(cut(b + dot + c, '.') == (b, Some(c)));
}

} // verus!
