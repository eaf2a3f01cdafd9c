//! The document model: sections of flat dotted keys, each holding a scalar
//! or an array of strings, and the mathematical view of it.
use vstd::prelude::*;

verus! {

/// What a key holds, as the contracts see it.
pub enum Val {
    Scalar(Seq<char>),
    Array(Seq<Seq<char>>),
}

/// An ordered sequence of named items (keys of a section, or sections of a document).
pub type Keyed<V> = Seq<(Seq<char>, V)>;

/// The entries of one section.
pub type Entries = Keyed<Val>;

/// A whole document: its sections in order.
pub type Doc = Keyed<Entries>;

/// The character sequences of a sequence of strings.
pub open spec fn strs_view(v: Seq<String>) -> Seq<Seq<char>> {
    v.map_values(|s: String| s@)
}

/// A stored value: a single scalar in its literal string form, or an array.
#[derive(Debug)]
pub enum Value {
    Scalar(String),
    Array(Vec<String>),
}

impl View for Value {
    type V = Val;

    open spec fn view(&self) -> Val {
        match self {
            Value::Scalar(s) => Val::Scalar(s@),
            Value::Array(a) => Val::Array(strs_view(a@)),
        }
    }
}

/// One key of a section with its value.
#[derive(Debug)]
pub struct Entry {
    pub key: String,
    pub value: Value,
}

impl View for Entry {
    type V = (Seq<char>, Val);

    open spec fn view(&self) -> (Seq<char>, Val) {
        (self.key@, self.value@)
    }
}

/// The view of each entry, in order.
pub open spec fn entries_view(v: Seq<Entry>) -> Entries {
    v.map_values(|e: Entry| e@)
}

/// A named section and its entries in order.
#[derive(Debug)]
pub struct Section {
    pub name: String,
    pub entries: Vec<Entry>,
}

impl View for Section {
    type V = (Seq<char>, Entries);

    open spec fn view(&self) -> (Seq<char>, Entries) {
        (self.name@, entries_view(self.entries@))
    }
}

/// The view of each section, in order.
pub open spec fn sections_view(v: Seq<Section>) -> Doc {
    v.map_values(|s: Section| s@)
}

/// `k` names an item of `s`.
pub open spec fn has_key<V>(s: Keyed<V>, k: Seq<char>) -> bool {
    exists|i: int| 0 <= i < s.len() && (#[trigger] s[i]).0 == k
}

/// No name occurs twice in `s`.
pub open spec fn unique<V>(s: Keyed<V>) -> bool {
    forall|i: int, j: int|
        0 <= i < s.len() && 0 <= j < s.len() && (#[trigger] s[i]).0 == (#[trigger] s[j]).0 ==> i == j
}

/// The position of the item named `k`, or -1.
pub open spec fn index_of<V>(s: Keyed<V>, k: Seq<char>) -> int {
    if has_key(s, k) {
        choose|i: int| 0 <= i < s.len() && (#[trigger] s[i]).0 == k
    } else {
        -1
    }
}

/// The item named `k`, if any.
pub open spec fn lookup<V>(s: Keyed<V>, k: Seq<char>) -> Option<V> {
    if has_key(s, k) {
        Some(s[index_of(s, k)].1)
    } else {
        None
    }
}

/// `s` with `k` bound to `v`: replaced in place where `k` is present,
/// appended at the end where it is not.
pub open spec fn put<V>(s: Keyed<V>, k: Seq<char>, v: V) -> Keyed<V> {
    if has_key(s, k) {
        s.update(index_of(s, k), (k, v))
    } else {
        s.push((k, v))
    }
}

/// `s` without the item named `k`.
pub open spec fn drop_key<V>(s: Keyed<V>, k: Seq<char>) -> Keyed<V> {
    if has_key(s, k) {
        s.remove(index_of(s, k))
    } else {
        s
    }
}

/// In a sequence with unique names, an item's name finds that item.
pub proof fn lemma_index_of<V>(s: Keyed<V>, i: int)
    requires
        unique(s),
        0 <= i < s.len(),
    ensures
        has_key(s, s[i].0),
        index_of(s, s[i].0) == i,
        lookup(s, s[i].0) == Some(s[i].1),
{
    assert(has_key(s, s[i].0));
    let j = index_of(s, s[i].0);
    assert(s[j].0 == s[i].0);
}

/// `put` keeps names unique, binds its key and leaves every other key as it was.
pub proof fn lemma_put<V>(s: Keyed<V>, k: Seq<char>, v: V)
    requires
        unique(s),
    ensures
        unique(put(s, k, v)),
        lookup(put(s, k, v), k) == Some(v),
        forall|k2: Seq<char>| k2 != k ==> lookup(#[trigger] put(s, k, v), k2) == lookup(s, k2),
        forall|k2: Seq<char>| has_key(#[trigger] put(s, k, v), k2) == (has_key(s, k2) || k2 == k),
{
    let t = put(s, k, v);
    if has_key(s, k) {
        let i = index_of(s, k);
        assert(s[i].0 == k);
        assert(unique(t)) by {
            assert forall|a: int, b: int|
                0 <= a < t.len() && 0 <= b < t.len() && (#[trigger] t[a]).0 == (#[trigger] t[b]).0 implies a == b by {
                assert(t[a].0 == s[a].0);
                assert(t[b].0 == s[b].0);
            }
        }
        lemma_index_of(t, i);
        assert forall|k2: Seq<char>| k2 != k implies lookup(#[trigger] put(s, k, v), k2) == lookup(s, k2) by {
            if has_key(s, k2) {
                let j = index_of(s, k2);
                lemma_index_of(s, j);
                assert(t[j] == s[j]);
                lemma_index_of(t, j);
            } else {
                assert forall|j: int| 0 <= j < t.len() implies (#[trigger] t[j]).0 != k2 by {
                    assert(t[j].0 == s[j].0);
                }
            }
        }
        assert forall|k2: Seq<char>| has_key(#[trigger] put(s, k, v), k2) == (has_key(s, k2) || k2 == k) by {
            if has_key(s, k2) {
                let j = index_of(s, k2);
                assert(t[j].0 == k2);
            }
            if has_key(t, k2) {
                let j = choose|j: int| 0 <= j < t.len() && (#[trigger] t[j]).0 == k2;
                assert(s[j].0 == k2);
            }
        }
    } else {
        assert(unique(t)) by {
            assert forall|a: int, b: int|
                0 <= a < t.len() && 0 <= b < t.len() && (#[trigger] t[a]).0 == (#[trigger] t[b]).0 implies a == b by {
                if a < s.len() {
                    assert(t[a] == s[a]);
                }
                if b < s.len() {
                    assert(t[b] == s[b]);
                }
            }
        }
        lemma_index_of(t, s.len() as int);
        assert forall|k2: Seq<char>| k2 != k implies lookup(#[trigger] put(s, k, v), k2) == lookup(s, k2) by {
            if has_key(s, k2) {
                let j = index_of(s, k2);
                lemma_index_of(s, j);
                assert(t[j] == s[j]);
                lemma_index_of(t, j);
            } else {
                assert forall|j: int| 0 <= j < t.len() implies (#[trigger] t[j]).0 != k2 by {
                    if j < s.len() {
                        assert(t[j] == s[j]);
                    }
                }
            }
        }
        assert forall|k2: Seq<char>| has_key(#[trigger] put(s, k, v), k2) == (has_key(s, k2) || k2 == k) by {
            if has_key(s, k2) {
                let j = index_of(s, k2);
                assert(t[j].0 == k2);
            }
            if has_key(t, k2) {
                let j = choose|j: int| 0 <= j < t.len() && (#[trigger] t[j]).0 == k2;
                if j < s.len() {
                    assert(s[j].0 == k2);
                }
            }
        }
    }
}

} // verus!

verus! {

/// Every section name occurs once, and every key once within its section.
pub open spec fn wf_doc(d: Doc) -> bool {
    &&& unique(d)
    &&& forall|i: int| 0 <= i < d.len() ==> unique(#[trigger] d[i].1)
}

/// The entries of section `sec`; none where it does not exist.
pub open spec fn section_entries(d: Doc, sec: Seq<char>) -> Entries {
    match lookup(d, sec) {
        Some(e) => e,
        None => Seq::empty(),
    }
}

/// The value that a set of `values` stores: a scalar for exactly one value,
/// an array of all of them otherwise.
pub open spec fn value_of(values: Seq<Seq<char>>) -> Val {
    if values.len() == 1 {
        Val::Scalar(values[0])
    } else {
        Val::Array(values)
    }
}

/// A value as the sequence of strings that a query returns.
pub open spec fn rendered(v: Val) -> Seq<Seq<char>> {
    match v {
        Val::Scalar(s) => seq![s],
        Val::Array(a) => a,
    }
}

/// What a query of `key` in `sec` returns, if both exist.
pub open spec fn get_doc(d: Doc, sec: Seq<char>, key: Seq<char>) -> Option<Seq<Seq<char>>> {
    match lookup(d, sec) {
        Some(e) => match lookup(e, key) {
            Some(v) => Some(rendered(v)),
            None => None,
        },
        None => None,
    }
}

/// `d` after binding `key` of `sec` to `v`; the section is appended if new.
pub open spec fn put_doc(d: Doc, sec: Seq<char>, key: Seq<char>, v: Val) -> Doc {
    put(d, sec, put(section_entries(d, sec), key, v))
}

/// The document after a set.
pub open spec fn set_doc(d: Doc, sec: Seq<char>, key: Seq<char>, values: Seq<Seq<char>>) -> Doc {
    put_doc(d, sec, key, value_of(values))
}

/// The document after an unset: unchanged where the key is absent.
pub open spec fn unset_doc(d: Doc, sec: Seq<char>, key: Seq<char>) -> Doc {
    if has_key(section_entries(d, sec), key) {
        put(d, sec, drop_key(section_entries(d, sec), key))
    } else {
        d
    }
}

/// The array that an add leaves: a scalar is first promoted to a one-element
/// array, and a missing key starts empty.
pub open spec fn appended(old: Option<Val>, values: Seq<Seq<char>>) -> Seq<Seq<char>> {
    match old {
        None => values,
        Some(Val::Scalar(s)) => seq![s] + values,
        Some(Val::Array(a)) => a + values,
    }
}

/// The document after an add.
pub open spec fn add_doc(d: Doc, sec: Seq<char>, key: Seq<char>, values: Seq<Seq<char>>) -> Doc {
    put_doc(d, sec, key, Val::Array(appended(lookup(section_entries(d, sec), key), values)))
}

/// `a` without every element that occurs in `vals`, the rest in order.
pub open spec fn without(a: Seq<Seq<char>>, vals: Seq<Seq<char>>) -> Seq<Seq<char>>
    decreases a.len(),
{
    if a.len() == 0 {
        a
    } else {
        let r = without(a.drop_last(), vals);
        if vals.contains(a.last()) {
            r
        } else {
            r.push(a.last())
        }
    }
}

/// A del is refused where the key holds a scalar.
pub open spec fn del_refused(d: Doc, sec: Seq<char>, key: Seq<char>) -> bool {
    lookup(section_entries(d, sec), key) matches Some(Val::Scalar(_))
}

/// The document after a del: unchanged unless the key holds an array.
pub open spec fn del_doc(d: Doc, sec: Seq<char>, key: Seq<char>, vals: Seq<Seq<char>>) -> Doc {
    match lookup(section_entries(d, sec), key) {
        Some(Val::Array(a)) => put_doc(d, sec, key, Val::Array(without(a, vals))),
        _ => d,
    }
}

/// The key/values pairs that listing a section yields: every key in order,
/// but those whose value renders to no string.
pub open spec fn listing(e: Entries) -> Seq<(Seq<char>, Seq<Seq<char>>)>
    decreases e.len(),
{
    if e.len() == 0 {
        Seq::empty()
    } else {
        let r = listing(e.drop_last());
        if rendered(e.last().1).len() > 0 {
            r.push((e.last().0, rendered(e.last().1)))
        } else {
            r
        }
    }
}

/// `drop_key` keeps names unique and removes its key.
pub proof fn lemma_drop_key<V>(s: Keyed<V>, k: Seq<char>)
    requires
        unique(s),
    ensures
        unique(drop_key(s, k)),
        !has_key(drop_key(s, k), k),
{
    let t = drop_key(s, k);
    if has_key(s, k) {
        let i = index_of(s, k);
        assert(s[i].0 == k);
        assert forall|a: int, b: int|
            0 <= a < t.len() && 0 <= b < t.len() && (#[trigger] t[a]).0 == (#[trigger] t[b]).0 implies a == b by {
            let sa = if a < i { a } else { a + 1 };
            let sb = if b < i { b } else { b + 1 };
            assert(t[a] == s[sa]);
            assert(t[b] == s[sb]);
        }
        if has_key(t, k) {
            let j = choose|j: int| 0 <= j < t.len() && (#[trigger] t[j]).0 == k;
            let sj = if j < i { j } else { j + 1 };
            assert(t[j] == s[sj]);
        }
    }
}

/// The entries of any section of a well-formed document have unique keys.
pub proof fn lemma_section_entries(d: Doc, sec: Seq<char>)
    requires
        wf_doc(d),
    ensures
        unique(section_entries(d, sec)),
{
    if has_key(d, sec) {
        let i = index_of(d, sec);
        assert(unique(d[i].1));
    }
}

/// Binding a section to entries with unique keys keeps the document well formed.
pub proof fn lemma_put_section(d: Doc, sec: Seq<char>, e: Entries)
    requires
        wf_doc(d),
        unique(e),
    ensures
        wf_doc(put(d, sec, e)),
        lookup(put(d, sec, e), sec) == Some(e),
        forall|s2: Seq<char>| s2 != sec ==> lookup(#[trigger] put(d, sec, e), s2) == lookup(d, s2),
{
    lemma_put(d, sec, e);
    let t = put(d, sec, e);
    assert forall|i: int| 0 <= i < t.len() implies unique(#[trigger] t[i].1) by {
        if has_key(d, sec) {
            if i != index_of(d, sec) {
                assert(t[i] == d[i]);
            }
        } else {
            if i < d.len() {
                assert(t[i] == d[i]);
            }
        }
    }
}

} // verus!
