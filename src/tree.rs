//! The document as a parser hands it over, with nested tables, and its
//! normalization into flat dotted keys.
use vstd::prelude::*;
use crate::config::{copy_strs, put_entry, Config};
use crate::model::{
    entries_view, has_key, lemma_put, put, section_entries, sections_view, strs_view, unique,
    wf_doc, Doc, Entries,
    Entry, Val, Value,
};
use crate::text::starts_with;
use crate::laws::lemma_flatten_flat;
use crate::validate::is_feature;

verus! {

/// An item of a parsed document: a scalar in its literal string form, an
/// array of such, or a table of named items in order.
#[derive(Debug)]
pub enum Node {
    Scalar(String),
    Array(Vec<String>),
    Table(Vec<(String, Node)>),
}

/// The value that a leaf holds; `None` for a table.
pub open spec fn leaf_val(n: Node) -> Option<Val> {
    match n {
        Node::Scalar(s) => Some(Val::Scalar(s@)),
        Node::Array(a) => Some(Val::Array(strs_view(a@))),
        Node::Table(_) => None,
    }
}

/// `acc` with every leaf under `fields` bound at its dotted path, `prefix`
/// before it, in document order; a later binding of a path replaces an
/// earlier one. Empty tables bind nothing.
pub open spec fn flatten_into(acc: Entries, prefix: Seq<char>, fields: Seq<(String, Node)>) -> Entries
    decreases fields,
{
    if fields.len() == 0 {
        acc
    } else {
        let a = flatten_into(acc, prefix, fields.drop_last());
        let k = fields.last().0;
        match fields.last().1 {
            Node::Table(sub) => flatten_into(a, prefix + k@ + "."@, sub@),
            Node::Scalar(s) => put(a, prefix + k@, Val::Scalar(s@)),
            Node::Array(v) => put(a, prefix + k@, Val::Array(strs_view(v@))),
        }
    }
}

} // verus!

verus! {

/// Binds every leaf under `fields` into `acc` (see [`flatten_into`]).
pub(crate) fn flatten_fields(acc: &mut Vec<Entry>, prefix: &String, fields: &Vec<(String, Node)>)
    requires
        unique(entries_view(old(acc)@)),
    ensures
        entries_view(final(acc)@) == flatten_into(entries_view(old(acc)@), prefix@, fields@),
        unique(entries_view(final(acc)@)),
    decreases fields,
{
    let ghost a0 = entries_view(acc@);
    let mut i: usize = 0;
    while i < fields.len()
        invariant
            i <= fields@.len(),
            entries_view(acc@) == flatten_into(a0, prefix@, fields@.subrange(0, i as int)),
            unique(entries_view(acc@)),
        decreases fields@.len() - i,
    {
        let ghost p = fields@.subrange(0, i + 1);
        assert(p.drop_last() =~= fields@.subrange(0, i as int));
        assert(p.last() == fields@[i as int]);
        let ghost before = entries_view(acc@);
        let k = &fields[i].0;
        let mut path = prefix.clone();
        path.append(k.as_str());
        match &fields[i].1 {
            Node::Table(sub) => {
                path.append(".");
                flatten_fields(acc, &path, sub);
            },
            Node::Scalar(s) => {
                proof {
                    lemma_put(before, path@, Val::Scalar(s@));
                }
                put_entry(acc, path, Value::Scalar(s.clone()));
            },
            Node::Array(v) => {
                let copy = copy_strs(v);
                proof {
                    lemma_put(before, path@, Val::Array(strs_view(v@)));
                }
                put_entry(acc, path, Value::Array(copy));
            },
        }
        i = i + 1;
    }
    assert(fields@.subrange(0, fields@.len() as int) =~= fields@);
}

} // verus!

verus! {

/// `d` with the leaves of `fields` flattened into section `name`.
pub open spec fn merged(d: Doc, name: Seq<char>, fields: Seq<(String, Node)>) -> Doc {
    put(d, name, flatten_into(section_entries(d, name), Seq::empty(), fields))
}

/// `d` with each table among `fs` loaded as section `feature.<name>`.
pub open spec fn load_features(d: Doc, fs: Seq<(String, Node)>) -> Doc
    decreases fs.len(),
{
    if fs.len() == 0 {
        d
    } else {
        let d1 = load_features(d, fs.drop_last());
        match fs.last().1 {
            Node::Table(sub) => merged(d1, "feature."@ + fs.last().0@, sub@),
            _ => d1,
        }
    }
}

/// `d` with the top-level items `root` of a parsed document loaded: the
/// tables under `feature` as feature sections, every other table as the
/// section of its name, all of them flattened. Items that are no table have
/// no section to go to and are left out.
pub open spec fn load_doc(d: Doc, root: Seq<(String, Node)>) -> Doc
    decreases root.len(),
{
    if root.len() == 0 {
        d
    } else {
        let d1 = load_doc(d, root.drop_last());
        let name = root.last().0@;
        match root.last().1 {
            Node::Table(sub) => if name == "feature"@ {
                load_features(d1, sub@)
            } else {
                merged(d1, name, sub@)
            },
            _ => d1,
        }
    }
}

impl Config {
    /// The configuration stored at `config_path` whose parsed document has
    /// the top-level items `root` (see [`load_doc`]).
    pub fn from_tree(config_path: String, root: &Vec<(String, Node)>) -> (r: Config)
        ensures
            r@ == load_doc(Seq::empty(), root@),
            r.wf(),
            r.path() == config_path@,
    {
        let mut c = Config::new(config_path);
        let mut i: usize = 0;
        while i < root.len()
            invariant
                i <= root@.len(),
                c.wf(),
                c.path() == config_path@,
                c@ == load_doc(Seq::empty(), root@.subrange(0, i as int)),
            decreases root@.len() - i,
        {
            let ghost p = root@.subrange(0, i + 1);
            assert(p.drop_last() =~= root@.subrange(0, i as int));
            assert(p.last() == root@[i as int]);
            let feature = String::from_str("feature");
            match &root[i].1 {
                Node::Table(sub) => {
                    if root[i].0 == feature {
                        let ghost d1 = c@;
                        let mut j: usize = 0;
                        while j < sub.len()
                            invariant
                                j <= sub@.len(),
                                c.wf(),
                                c.path() == config_path@,
                                c@ == load_features(d1, sub@.subrange(0, j as int)),
                            decreases sub@.len() - j,
                        {
                            let ghost q = sub@.subrange(0, j + 1);
                            assert(q.drop_last() =~= sub@.subrange(0, j as int));
                            assert(q.last() == sub@[j as int]);
                            match &sub[j].1 {
                                Node::Table(fields) => {
                                    let mut name = String::from_str("feature.");
                                    name.append(sub[j].0.as_str());
                                    c.merge_section(name, fields);
                                },
                                _ => {},
                            }
                            j = j + 1;
                        }
                        assert(sub@.subrange(0, sub@.len() as int) =~= sub@);
                    } else {
                        c.merge_section(root[i].0.clone(), sub);
                    }
                },
                _ => {},
            }
            i = i + 1;
        }
        assert(root@.subrange(0, root@.len() as int) =~= root@);
        c
    }
}

} // verus!

verus! {

/// The items of `fields` are all leaves.
pub open spec fn all_leaves(fields: Seq<(String, Node)>) -> bool {
    forall|i: int| 0 <= i < fields.len() ==> (#[trigger] leaf_val(fields[i].1)) is Some
}

/// The entries that the leaves of `fields` stand for, in order.
pub open spec fn leaf_entries(fields: Seq<(String, Node)>) -> Seq<(Seq<char>, Val)> {
    Seq::new(fields.len(), |i: int| (fields[i].0@, leaf_val(fields[i].1).unwrap()))
}

/// The sections of `d` that are no feature section, in order.
pub open spec fn plain_sections(d: Doc) -> Doc
    decreases d.len(),
{
    if d.len() == 0 {
        d
    } else if is_feature(d.last().0) {
        plain_sections(d.drop_last())
    } else {
        plain_sections(d.drop_last()).push(d.last())
    }
}

/// The feature sections of `d`, in order, each named without its `feature.` prefix.
pub open spec fn feature_sections(d: Doc) -> Doc
    decreases d.len(),
{
    if d.len() == 0 {
        d
    } else if is_feature(d.last().0) {
        feature_sections(d.drop_last()).push(
            (d.last().0.subrange("feature."@.len() as int, d.last().0.len() as int), d.last().1),
        )
    } else {
        feature_sections(d.drop_last())
    }
}

/// `n` is a table of leaves that stand for exactly `e`.
pub open spec fn table_of(n: Node, e: Entries) -> bool {
    n matches Node::Table(f) && all_leaves(f@) && leaf_entries(f@) == e
}

/// `items` are the sections `d`, one table of leaves each, in order.
pub open spec fn tables_of(items: Seq<(String, Node)>, d: Doc) -> bool {
    &&& items.len() == d.len()
    &&& forall|i: int| 0 <= i < d.len() ==> (#[trigger] items[i]).0@ == d[i].0 && table_of(items[i].1, d[i].1)
}

/// `items` are the top-level items that document `d` is written as: each
/// section that is no feature section as a table of its name, then, if there
/// are feature sections, a table `feature` that holds one table for each.
pub open spec fn tree_of(d: Doc, items: Seq<(String, Node)>) -> bool {
    let plain = plain_sections(d);
    let feats = feature_sections(d);
    if feats.len() == 0 {
        tables_of(items, plain)
    } else {
        &&& tables_of(items.drop_last(), plain)
        &&& items.len() > 0
        &&& items.last().0@ == "feature"@
        &&& items.last().1 matches Node::Table(f) && tables_of(f@, feats)
    }
}

/// The leaves that stand for `entries`.
fn leaves(entries: &Vec<Entry>) -> (r: Vec<(String, Node)>)
    ensures
        all_leaves(r@),
        leaf_entries(r@) == entries_view(entries@),
{
    let mut r: Vec<(String, Node)> = Vec::new();
    let mut i: usize = 0;
    while i < entries.len()
        invariant
            i <= entries@.len(),
            all_leaves(r@),
            leaf_entries(r@) == entries_view(entries@.subrange(0, i as int)),
        decreases entries@.len() - i,
    {
        let n = match &entries[i].value {
            Value::Scalar(s) => Node::Scalar(s.clone()),
            Value::Array(a) => Node::Array(copy_strs(a)),
        };
        let item = (entries[i].key.clone(), n);
        assert(leaf_val(item.1) == Some(entries@[i as int].value@));
        assert(item.0@ == entries@[i as int].key@);
        let ghost before = r@;
        r.push(item);
        proof {
            assert(entries@.subrange(0, i + 1) =~= entries@.subrange(0, i as int).push(entries@[i as int]));
            assert(r@ == before.push(item));
            let le = leaf_entries(r@);
            let ev = entries_view(entries@.subrange(0, i + 1));
            let lb = leaf_entries(before);
            assert(lb.len() == before.len());
            assert(entries_view(entries@.subrange(0, i as int)).len() == i);
            assert(before.len() == i);
            assert(le.len() == i + 1);
            assert(ev.len() == i + 1);
            assert forall|j: int| 0 <= j < le.len() implies le[j] == ev[j] by {
                if j < i {
                    assert(r@[j] == before[j]);
                    assert(le[j] == lb[j]);
                    assert(entries_view(entries@.subrange(0, i as int))[j] == entries@[j]@);
                } else {
                    assert(r@[j] == item);
                }
            }
            assert(le =~= ev);
        }
        i = i + 1;
    }
    assert(entries@.subrange(0, entries@.len() as int) =~= entries@);
    r
}

impl Config {
    /// The document as top-level items for a serializer (see [`tree_of`]).
    pub fn to_tree(&self) -> (r: Vec<(String, Node)>)
        requires
            self.wf(),
        ensures
            tree_of(self@, r@),
    {
        let sections = self.sections();
        let ghost d = self@;
        let mut plain: Vec<(String, Node)> = Vec::new();
        let mut feats: Vec<(String, Node)> = Vec::new();
        let mut i: usize = 0;
        while i < sections.len()
            invariant
                i <= sections@.len(),
                d == self@,
                d == sections_view(sections@),
                tables_of(plain@, plain_sections(d.subrange(0, i as int))),
                tables_of(feats@, feature_sections(d.subrange(0, i as int))),
            decreases sections@.len() - i,
        {
            let ghost p = d.subrange(0, i + 1);
            assert(p.drop_last() =~= d.subrange(0, i as int));
            assert(p.last() == sections@[i as int]@);
            let s = &sections[i];
            let t = Node::Table(leaves(&s.entries));
            let ghost fb = feats@;
            let ghost pb = plain@;
            if starts_with(s.name.as_str(), "feature.") {
                proof {
                    reveal_strlit("feature.");
                }
                let n = s.name.unicode_len();
                let short = String::from_str(s.name.as_str().substring_char(8, n));
                feats.push((short, t));
                assert(feats@ == fb.push(feats@.last()));
            } else {
                plain.push((s.name.clone(), t));
                assert(plain@ == pb.push(plain@.last()));
            }
            i = i + 1;
        }
        assert(d.subrange(0, d.len() as int) =~= d);
        if feats.len() > 0 {
            plain.push((String::from_str("feature"), Node::Table(feats)));
        }
        plain
    }

}

} // verus!

verus! {

/// Feature sections named again with their `feature.` prefix.
pub open spec fn prefixed(f: Doc) -> Doc {
    Seq::new(f.len(), |i: int| ("feature."@ + f[i].0, f[i].1))
}

proof fn lemma_unique_concat(x: Doc, y: Doc)
    requires
        wf_doc(x),
        wf_doc(y),
        forall|i: int, j: int| 0 <= i < x.len() && 0 <= j < y.len() ==> (#[trigger] x[i]).0 != (#[trigger] y[j]).0,
    ensures
        wf_doc(x + y),
{
    let z = x + y;
    assert forall|a: int, b: int|
        0 <= a < z.len() && 0 <= b < z.len() && (#[trigger] z[a]).0 == (#[trigger] z[b]).0 implies a == b by {
        if a < x.len() && b < x.len() {
            assert(z[a] == x[a] && z[b] == x[b]);
        } else if a >= x.len() && b >= x.len() {
            assert(z[a] == y[a - x.len()] && z[b] == y[b - x.len()]);
        } else if a < x.len() {
            assert(z[a] == x[a] && z[b] == y[b - x.len()]);
        } else {
            assert(z[b] == x[b] && z[a] == y[a - x.len()]);
        }
    }
    assert forall|i: int| 0 <= i < z.len() implies unique(#[trigger] z[i].1) by {
        if i < x.len() {
            assert(z[i] == x[i]);
        } else {
            assert(z[i] == y[i - x.len()]);
        }
    }
}

/// The plain and the feature sections of a well-formed document are each
/// well formed, and each section of either is a section of the document.
proof fn lemma_split(d: Doc)
    requires
        wf_doc(d),
    ensures
        wf_doc(plain_sections(d)),
        wf_doc(prefixed(feature_sections(d))),
        forall|j: int|
            0 <= j < plain_sections(d).len() ==> !is_feature((#[trigger] plain_sections(d)[j]).0) && has_key(
                d,
                plain_sections(d)[j].0,
            ),
        forall|j: int|
            0 <= j < prefixed(feature_sections(d)).len() ==> is_feature(
                (#[trigger] prefixed(feature_sections(d))[j]).0,
            ) && has_key(d, prefixed(feature_sections(d))[j].0),
    decreases d.len(),
{
    if d.len() > 0 {
        let t = d.drop_last();
        let n = d.len() - 1;
        let last = d[n];
        assert(wf_doc(t)) by {
            assert forall|a: int, b: int|
                0 <= a < t.len() && 0 <= b < t.len() && (#[trigger] t[a]).0 == (#[trigger] t[b]).0 implies a == b by {
                assert(t[a] == d[a] && t[b] == d[b]);
            }
            assert forall|i: int| 0 <= i < t.len() implies unique(#[trigger] t[i].1) by {
                assert(t[i] == d[i]);
            }
        }
        lemma_split(t);
        assert(unique(last.1));
        assert forall|s: Seq<char>| has_key(t, s) implies has_key(d, s) && s != last.0 by {
            let j = choose|j: int| 0 <= j < t.len() && (#[trigger] t[j]).0 == s;
            assert(d[j] == t[j]);
        }
        let p0 = plain_sections(t);
        let f0 = prefixed(feature_sections(t));
        let p = plain_sections(d);
        let f = prefixed(feature_sections(d));
        if is_feature(last.0) {
            assert(p == p0);
            let short = last.0.subrange("feature."@.len() as int, last.0.len() as int);
            assert("feature."@ + short =~= last.0);
            assert(f =~= f0.push(last));
            assert forall|a: int, b: int|
                0 <= a < f.len() && 0 <= b < f.len() && (#[trigger] f[a]).0 == (#[trigger] f[b]).0 implies a == b by {
                if a < f0.len() {
                    assert(f[a] == f0[a]);
                    assert(has_key(t, f0[a].0));
                }
                if b < f0.len() {
                    assert(f[b] == f0[b]);
                    assert(has_key(t, f0[b].0));
                }
            }
            assert forall|i: int| 0 <= i < f.len() implies unique(#[trigger] f[i].1) by {
                if i < f0.len() {
                    assert(f[i] == f0[i]);
                }
            }
            assert forall|j: int| 0 <= j < f.len() implies is_feature((#[trigger] f[j]).0) && has_key(d, f[j].0) by {
                if j < f0.len() {
                    assert(f[j] == f0[j]);
                    assert(has_key(t, f0[j].0));
                } else {
                    assert(d[n].0 == f[j].0);
                }
            }
        } else {
            assert(p == p0.push(last));
            assert(feature_sections(d) == feature_sections(t));
            assert forall|a: int, b: int|
                0 <= a < p.len() && 0 <= b < p.len() && (#[trigger] p[a]).0 == (#[trigger] p[b]).0 implies a == b by {
                if a < p0.len() {
                    assert(p[a] == p0[a]);
                    assert(has_key(t, p0[a].0));
                }
                if b < p0.len() {
                    assert(p[b] == p0[b]);
                    assert(has_key(t, p0[b].0));
                }
            }
            assert forall|i: int| 0 <= i < p.len() implies unique(#[trigger] p[i].1) by {
                if i < p0.len() {
                    assert(p[i] == p0[i]);
                }
            }
            assert forall|j: int| 0 <= j < p.len() implies !is_feature((#[trigger] p[j]).0) && has_key(d, p[j].0) by {
                if j < p0.len() {
                    assert(p[j] == p0[j]);
                    assert(has_key(t, p0[j].0));
                } else {
                    assert(d[n].0 == p[j].0);
                }
            }
        }
    }
}

/// Loading tables of leaves gives back the sections they stand for.
proof fn lemma_load_plain(items: Seq<(String, Node)>, p: Doc)
    requires
        tables_of(items, p),
        wf_doc(p),
        !has_key(p, "feature"@),
    ensures
        load_doc(Seq::empty(), items) == p,
    decreases items.len(),
{
    if items.len() > 0 {
        let n = items.len() - 1;
        let p0 = p.drop_last();
        assert(tables_of(items.drop_last(), p0)) by {
            assert forall|i: int| 0 <= i < p0.len() implies (#[trigger] items.drop_last()[i]).0@ == p0[i].0
                && table_of(items.drop_last()[i].1, p0[i].1) by {
                assert(items.drop_last()[i] == items[i]);
                assert(p0[i] == p[i]);
            }
        }
        assert(wf_doc(p0)) by {
            assert forall|a: int, b: int|
                0 <= a < p0.len() && 0 <= b < p0.len() && (#[trigger] p0[a]).0 == (#[trigger] p0[b]).0 implies a == b by {
                assert(p0[a] == p[a] && p0[b] == p[b]);
            }
            assert forall|i: int| 0 <= i < p0.len() implies unique(#[trigger] p0[i].1) by {
                assert(p0[i] == p[i]);
            }
        }
        assert(!has_key(p0, "feature"@)) by {
            if has_key(p0, "feature"@) {
                let j = choose|j: int| 0 <= j < p0.len() && (#[trigger] p0[j]).0 == "feature"@;
                assert(p[j] == p0[j]);
            }
        }
        lemma_load_plain(items.drop_last(), p0);
        assert(items[n].0@ == p[n].0);
        assert(p[n].0 != "feature"@);
        assert(!has_key(p0, p[n].0)) by {
            if has_key(p0, p[n].0) {
                let j = choose|j: int| 0 <= j < p0.len() && (#[trigger] p0[j]).0 == p[n].0;
                assert(p[j] == p0[j]);
            }
        }
        let sub = items[n].1->Table_0;
        assert(table_of(items[n].1, p[n].1));
        assert(unique(p[n].1));
        lemma_flatten_flat(sub@);
        assert(p =~= p0.push(p[n]));
    }
}

/// Loading feature tables of leaves after `d1` appends the feature
/// sections they stand for.
proof fn lemma_load_features(d1: Doc, fs: Seq<(String, Node)>, f: Doc)
    requires
        tables_of(fs, f),
        wf_doc(d1 + prefixed(f)),
    ensures
        load_features(d1, fs) == d1 + prefixed(f),
    decreases fs.len(),
{
    let all = d1 + prefixed(f);
    if fs.len() == 0 {
        assert(all =~= d1);
    } else {
        let n = fs.len() - 1;
        let f0 = f.drop_last();
        let all0 = d1 + prefixed(f0);
        assert(all0 =~= all.drop_last());
        assert(tables_of(fs.drop_last(), f0)) by {
            assert forall|i: int| 0 <= i < f0.len() implies (#[trigger] fs.drop_last()[i]).0@ == f0[i].0
                && table_of(fs.drop_last()[i].1, f0[i].1) by {
                assert(fs.drop_last()[i] == fs[i]);
                assert(f0[i] == f[i]);
            }
        }
        assert(wf_doc(all0)) by {
            assert forall|a: int, b: int|
                0 <= a < all0.len() && 0 <= b < all0.len() && (#[trigger] all0[a]).0 == (#[trigger] all0[b]).0 implies a == b by {
                assert(all0[a] == all[a] && all0[b] == all[b]);
            }
            assert forall|i: int| 0 <= i < all0.len() implies unique(#[trigger] all0[i].1) by {
                assert(all0[i] == all[i]);
            }
        }
        lemma_load_features(d1, fs.drop_last(), f0);
        let m = all.len() - 1;
        let name = "feature."@ + fs[n].0@;
        assert(all[m] == (name, f[n].1));
        assert(!has_key(all0, name)) by {
            if has_key(all0, name) {
                let j = choose|j: int| 0 <= j < all0.len() && (#[trigger] all0[j]).0 == name;
                assert(all[j] == all0[j]);
            }
        }
        let sub = fs[n].1->Table_0;
        assert(table_of(fs[n].1, f[n].1));
        assert(unique(all[m].1));
        lemma_flatten_flat(sub@);
        assert(all =~= all0.push(all[m]));
    }
}

/// Loading the tree that a document is written as gives the document back:
/// the same sections with the same entries in the same order, those that
/// are no feature section first. A section named `feature` itself has no
/// place of its own in the tree and is left out of this.
pub proof fn lemma_tree_round_trip(d: Doc, items: Seq<(String, Node)>)
    requires
        wf_doc(d),
        tree_of(d, items),
        !has_key(d, "feature"@),
    ensures
        load_doc(Seq::empty(), items) == plain_sections(d) + prefixed(feature_sections(d)),
{
    let p = plain_sections(d);
    let f = feature_sections(d);
    lemma_split(d);
    assert(!has_key(p, "feature"@)) by {
        if has_key(p, "feature"@) {
            let j = choose|j: int| 0 <= j < p.len() && (#[trigger] p[j]).0 == "feature"@;
            assert(has_key(d, p[j].0));
        }
    }
    assert forall|i: int, j: int| 0 <= i < p.len() && 0 <= j < prefixed(f).len() implies (#[trigger] p[i]).0
        != (#[trigger] prefixed(f)[j]).0 by {
        assert(!is_feature(p[i].0));
        assert(is_feature(prefixed(f)[j].0));
    }
    lemma_unique_concat(p, prefixed(f));
    if f.len() == 0 {
        lemma_load_plain(items, p);
        assert(p + prefixed(f) =~= p);
    } else {
        let n = items.len() - 1;
        lemma_load_plain(items.drop_last(), p);
        assert(items.drop_last().len() == n);
        lemma_load_features(p, items[n].1->Table_0@, f);
    }
}

} // verus!
