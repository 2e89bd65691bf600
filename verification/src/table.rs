//! Ordered tables: keys in the order in which they were first given, each
//! with one value.

use vstd::prelude::*;
use crate::text::{chars_of, spells};
use crate::value::{SingleValue, ValueView};
use crate::views::{lemma_views_push, views};

verus! {

/// The place of the first entry at or after `from` whose key is `key`, or the
/// length of `t` where there is none.
pub open spec fn find<V>(t: Seq<(Seq<char>, V)>, key: Seq<char>, from: int) -> int
    decreases t.len() - from,
{
    if 0 <= from < t.len() && t[from].0 != key {
        find(t, key, from + 1)
    } else {
        from
    }
}

/// Whether `t` has an entry for `key`.
pub open spec fn has_key<V>(t: Seq<(Seq<char>, V)>, key: Seq<char>) -> bool {
    find(t, key, 0) < t.len()
}

/// The value that `t` gives to `key`, if it gives one.
pub open spec fn lookup<V>(t: Seq<(Seq<char>, V)>, key: Seq<char>) -> Option<V> {
    if has_key(t, key) {
        Some(t[find(t, key, 0)].1)
    } else {
        None
    }
}

/// `t` with `value` for `key`: in the place of the value that `key` had, or
/// as a new last entry.
pub open spec fn upsert<V>(t: Seq<(Seq<char>, V)>, key: Seq<char>, value: V) -> Seq<
    (Seq<char>, V),
> {
    if has_key(t, key) {
        t.update(find(t, key, 0), (key, value))
    } else {
        t.push((key, value))
    }
}

/// No key occurs twice in `t`.
pub open spec fn keyed<V>(t: Seq<(Seq<char>, V)>) -> bool {
    forall|i: int, j: int| 0 <= i < j < t.len() ==> (#[trigger] t[i]).0 != (#[trigger] t[j]).0
}

/// `base` with every entry of `layer` put over it, in the order of `layer`.
pub open spec fn overlay<V>(base: Seq<(Seq<char>, V)>, layer: Seq<(Seq<char>, V)>) -> Seq<
    (Seq<char>, V),
>
    decreases layer.len(),
{
    if layer.len() == 0 {
        base
    } else {
        overlay(upsert(base, layer[0].0, layer[0].1), layer.drop_first())
    }
}

/// The search ends at or after its start, passes only entries with other
/// keys, and stops at an entry with the key or at the end.
pub proof fn lemma_find_range<V>(t: Seq<(Seq<char>, V)>, key: Seq<char>, from: int)
    requires
        0 <= from <= t.len(),
    ensures
        from <= find(t, key, from) <= t.len(),
        forall|i: int| from <= i < find(t, key, from) ==> (#[trigger] t[i]).0 != key,
        find(t, key, from) < t.len() ==> t[find(t, key, from)].0 == key,
    decreases t.len() - from,
{
    if from < t.len() && t[from].0 != key {
        lemma_find_range(t, key, from + 1);
    }
}

/// The search ends at the first place that has the key, or at the end where
/// no place has it.
pub proof fn lemma_find_unique<V>(t: Seq<(Seq<char>, V)>, key: Seq<char>, from: int, to: int)
    requires
        0 <= from <= to <= t.len(),
        forall|i: int| from <= i < to ==> (#[trigger] t[i]).0 != key,
        to < t.len() ==> t[to].0 == key,
    ensures
        find(t, key, from) == to,
    decreases to - from,
{
    if from < to {
        lemma_find_unique(t, key, from + 1, to);
    }
}

/// A table has a key exactly where one of its entries has it.
pub proof fn lemma_has_key<V>(t: Seq<(Seq<char>, V)>, key: Seq<char>)
    ensures
        has_key(t, key) <==> exists|i: int| 0 <= i < t.len() && (#[trigger] t[i]).0 == key,
{
    lemma_find_range(t, key, 0);
    if has_key(t, key) {
        assert(t[find(t, key, 0)].0 == key);
    }
}

/// In a table without a repeated key, each entry is the one that its key
/// finds.
pub proof fn lemma_lookup_at<V>(t: Seq<(Seq<char>, V)>, i: int)
    requires
        keyed(t),
        0 <= i < t.len(),
    ensures
        find(t, t[i].0, 0) == i,
        lookup(t, t[i].0) == Some(t[i].1),
{
    assert forall|j: int| 0 <= j < i implies (#[trigger] t[j]).0 != t[i].0 by {}
    lemma_find_unique(t, t[i].0, 0, i);
}

/// What a table gives to a key, told by its first entry and the rest.
pub proof fn lemma_lookup_step<V>(t: Seq<(Seq<char>, V)>, key: Seq<char>)
    requires
        t.len() > 0,
    ensures
        lookup(t, key) == if t[0].0 == key {
            Some(t[0].1)
        } else {
            lookup(t.drop_first(), key)
        },
        has_key(t, key) == (t[0].0 == key || has_key(t.drop_first(), key)),
{
    let rest = t.drop_first();
    if t[0].0 != key {
        lemma_find_range(rest, key, 0);
        let r = find(rest, key, 0);
        assert forall|i: int| 0 <= i < r + 1 implies (#[trigger] t[i]).0 != key by {
            if i > 0 {
                assert(t[i] == rest[i - 1]);
            }
        }
        if r < rest.len() {
            assert(t[r + 1] == rest[r]);
        }
        lemma_find_unique(t, key, 0, r + 1);
    }
}

/// Putting a value for a key into a table changes what that key gives and
/// nothing else.
pub proof fn lemma_upsert_lookup<V>(t: Seq<(Seq<char>, V)>, key: Seq<char>, value: V, q: Seq<char>)
    ensures
        lookup(upsert(t, key, value), q) == if q == key {
            Some(value)
        } else {
            lookup(t, q)
        },
        has_key(upsert(t, key, value), q) == (q == key || has_key(t, q)),
{
    let u = upsert(t, key, value);
    lemma_find_range(t, key, 0);
    lemma_find_range(t, q, 0);
    let p = find(t, key, 0);
    let f = find(t, q, 0);
    if q == key {
        assert forall|i: int| 0 <= i < p implies (#[trigger] u[i]).0 != q by {
            assert(u[i] == t[i]);
        }
        lemma_find_unique(u, q, 0, p);
    } else {
        assert forall|i: int| 0 <= i < f implies (#[trigger] u[i]).0 != q by {
            if i < t.len() && i != p {
                assert(u[i] == t[i]);
            }
        }
        if f < t.len() {
            assert(f != p);
            assert(u[f] == t[f]);
            lemma_find_unique(u, q, 0, f);
        } else {
            assert forall|i: int| 0 <= i < u.len() implies (#[trigger] u[i]).0 != q by {
                if i < t.len() && i != p {
                    assert(u[i] == t[i]);
                }
            }
            lemma_find_unique(u, q, 0, u.len() as int);
        }
    }
}

/// Putting a value for a key into a table repeats no key.
pub proof fn lemma_upsert_keyed<V>(t: Seq<(Seq<char>, V)>, key: Seq<char>, value: V)
    requires
        keyed(t),
    ensures
        keyed(upsert(t, key, value)),
{
    let u = upsert(t, key, value);
    lemma_find_range(t, key, 0);
    let p = find(t, key, 0);
    assert forall|i: int, j: int| 0 <= i < j < u.len() implies (#[trigger] u[i]).0 != (
    #[trigger] u[j]).0 by {
        if p < t.len() {
            assert(u[i].0 == t[i].0);
            assert(u[j].0 == t[j].0);
        } else {
            assert(u[i] == t[i]);
            if j < t.len() {
                assert(u[j] == t[j]);
            }
        }
    }
}

/// A layer put over a base repeats no key.
pub proof fn lemma_overlay_keyed<V>(base: Seq<(Seq<char>, V)>, layer: Seq<(Seq<char>, V)>)
    requires
        keyed(base),
    ensures
        keyed(overlay(base, layer)),
    decreases layer.len(),
{
    if layer.len() > 0 {
        lemma_upsert_keyed(base, layer[0].0, layer[0].1);
        lemma_overlay_keyed(upsert(base, layer[0].0, layer[0].1), layer.drop_first());
    }
}

/// With a layer put over a base, a key has the value that the layer gives
/// it, and where the layer gives none, the value that the base gives it.
pub proof fn lemma_overlay_lookup<V>(
    base: Seq<(Seq<char>, V)>,
    layer: Seq<(Seq<char>, V)>,
    key: Seq<char>,
)
    requires
        keyed(layer),
    ensures
        lookup(overlay(base, layer), key) == if has_key(layer, key) {
            lookup(layer, key)
        } else {
            lookup(base, key)
        },
        has_key(overlay(base, layer), key) == (has_key(layer, key) || has_key(base, key)),
    decreases layer.len(),
{
    if layer.len() > 0 {
        let rest = layer.drop_first();
        let next = upsert(base, layer[0].0, layer[0].1);
        assert forall|i: int, j: int| 0 <= i < j < rest.len() implies (#[trigger] rest[i]).0 != (
        #[trigger] rest[j]).0 by {
            assert(rest[i] == layer[i + 1]);
            assert(rest[j] == layer[j + 1]);
        }
        lemma_overlay_lookup(next, rest, key);
        lemma_upsert_lookup(base, layer[0].0, layer[0].1, key);
        lemma_lookup_step(layer, key);
        if layer[0].0 == key {
            lemma_has_key(rest, key);
            if has_key(rest, key) {
                let i = choose|i: int| 0 <= i < rest.len() && (#[trigger] rest[i]).0 == key;
                assert(rest[i] == layer[i + 1]);
                assert(layer[0].0 != layer[i + 1].0);
            }
        }
    } else {
        lemma_find_range(layer, key, 0);
    }
}

/// An ordered table: keys in the order in which they were first given, each
/// with one value.
#[derive(Debug, PartialEq, Eq)]
pub struct Table<V: View> {
    entries: Vec<(String, V)>,
}

/// The values of one bucket of configuration keys.
pub type ConfigTable = Table<SingleValue>;

/// The tables of overrides, each under the name of its context.
pub type ContextTable = Table<ConfigTable>;

/// What a `ConfigTable` holds.
pub type TableView = Seq<(Seq<char>, ValueView)>;

/// What a `ContextTable` holds.
pub type ContextsView = Seq<(Seq<char>, TableView)>;

impl<V: View> View for Table<V> {
    type V = Seq<(Seq<char>, V::V)>;

    closed spec fn view(&self) -> Seq<(Seq<char>, V::V)> {
        views(self.entries@)
    }
}

impl<V: View> Table<V> {
    /// No key occurs twice.
    #[verifier::type_invariant]
    pub open spec fn wf(self) -> bool {
        keyed(self@)
    }

    /// A table without entries.
    pub fn new() -> (t: Self)
        ensures
            t@ == Seq::<(Seq<char>, V::V)>::empty(),
    {
        let t = Table { entries: Vec::new() };
        assert(t@ =~= Seq::<(Seq<char>, V::V)>::empty());
        t
    }

    /// The number of entries.
    pub fn len(&self) -> (n: usize)
        ensures
            n == self@.len(),
    {
        self.entries.len()
    }

    /// Whether the table has no entry.
    pub fn is_empty(&self) -> (b: bool)
        ensures
            b == (self@.len() == 0),
    {
        self.entries.len() == 0
    }

    /// The place of the entry for `key`, or the number of entries where there
    /// is none.
    fn position(&self, key: &[char]) -> (i: usize)
        ensures
            i == find(self@, key@, 0),
            i <= self@.len(),
            i < self@.len() ==> self@[i as int].0 == key@,
    {
        let mut i: usize = 0;
        while i < self.entries.len()
            invariant
                i <= self.entries@.len(),
                find(self@, key@, 0) == find(self@, key@, i as int),
            decreases self.entries@.len() - i,
        {
            if spells(key, self.entries[i].0.as_str()) {
                return i;
            }
            i = i + 1;
        }
        i
    }

    /// Whether the table has an entry for `key`.
    pub fn contains_key(&self, key: &str) -> (b: bool)
        ensures
            b == has_key(self@, key@),
    {
        let chars = chars_of(key);
        self.position(chars.as_slice()) < self.entries.len()
    }

    /// The value that the table gives to `key`, if it gives one.
    pub fn get(&self, key: &str) -> (r: Option<&V>)
        ensures
            match lookup(self@, key@) {
                Some(v) => r matches Some(x) && x@ == v,
                None => r is None,
            },
    {
        let chars = chars_of(key);
        let i = self.position(chars.as_slice());
        if i < self.entries.len() {
            Some(&self.entries[i].1)
        } else {
            None
        }
    }

    /// The key and the value of the entry at place `i`, counted from 0, if
    /// there is one.
    pub fn entry(&self, i: usize) -> (r: Option<(&String, &V)>)
        ensures
            match r {
                Some(e) => i < self@.len() && e.0@ == self@[i as int].0 && e.1@
                    == self@[i as int].1,
                None => i >= self@.len(),
            },
    {
        if i < self.entries.len() {
            Some((&self.entries[i].0, &self.entries[i].1))
        } else {
            None
        }
    }

    /// Gives `key` the value `value`: in the place of the value that it had,
    /// or as a new last entry.
    pub fn insert(&mut self, key: String, value: V)
        ensures
            final(self)@ == upsert(old(self)@, key@, value@),
    {
        proof {
            use_type_invariant(&*self);
            lemma_upsert_keyed(self@, key@, value@);
        }
        let chars = chars_of(key.as_str());
        let i = self.position(chars.as_slice());
        let ghost before = self.entries@;
        let mut entries: Vec<(String, V)> = Vec::new();
        proof {
            crate::views::lemma_views_empty::<(String, V)>();
        }
        std::mem::swap(&mut self.entries, &mut entries);
        if i < entries.len() {
            entries.set(i, (key, value));
            assert(views(entries@) =~= views(before).update(i as int, (key@, value@)));
        } else {
            proof {
                lemma_views_push(before, (key, value));
            }
            entries.push((key, value));
        }
        std::mem::swap(&mut self.entries, &mut entries);
    }
}

impl Clone for Table<SingleValue> {
    fn clone(&self) -> (r: Self)
        ensures
            r@ == self@,
    {
        proof {
            use_type_invariant(self);
            crate::views::lemma_views_empty::<(String, SingleValue)>();
        }
        let mut entries: Vec<(String, SingleValue)> = Vec::new();
        let mut i: usize = 0;
        while i < self.entries.len()
            invariant
                i <= self.entries@.len(),
                views(entries@) == views(self.entries@).take(i as int),
            decreases self.entries@.len() - i,
        {
            let ghost before = entries@;
            let item = (self.entries[i].0.clone(), self.entries[i].1.clone());
            proof {
                lemma_views_push(before, item);
                assert(views(self.entries@).take(i + 1) =~= views(self.entries@).take(
                    i as int,
                ).push(item@));
            }
            entries.push(item);
            i = i + 1;
        }
        assert(views(self.entries@).take(i as int) =~= views(self.entries@));
        Table { entries }
    }
}

impl Clone for Table<Table<SingleValue>> {
    fn clone(&self) -> (r: Self)
        ensures
            r@ == self@,
    {
        proof {
            use_type_invariant(self);
            crate::views::lemma_views_empty::<(String, Table<SingleValue>)>();
        }
        let mut entries: Vec<(String, Table<SingleValue>)> = Vec::new();
        let mut i: usize = 0;
        while i < self.entries.len()
            invariant
                i <= self.entries@.len(),
                views(entries@) == views(self.entries@).take(i as int),
            decreases self.entries@.len() - i,
        {
            let ghost before = entries@;
            let item = (self.entries[i].0.clone(), self.entries[i].1.clone());
            proof {
                lemma_views_push(before, item);
                assert(views(self.entries@).take(i + 1) =~= views(self.entries@).take(
                    i as int,
                ).push(item@));
            }
            entries.push(item);
            i = i + 1;
        }
        assert(views(self.entries@).take(i as int) =~= views(self.entries@));
        Table { entries }
    }
}

} // verus!
