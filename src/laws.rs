//! Laws that relate the operations on a document to each other.
use vstd::prelude::*;
use crate::model::{
    add_doc, appended, del_doc, del_refused, get_doc, has_key, lemma_put, lemma_put_section,
    lemma_section_entries, index_of, lookup, put, put_doc, rendered, section_entries, set_doc, unique,
    unset_doc, value_of, without, wf_doc, Doc, Entries, Val,
};
use crate::operations::{after, Operation};
use crate::request::{lower_of, request_of, ConfigArgs};
use crate::text::{digit_char, digit_value, digits_value, has_prefix, index_number};
use crate::tree::{all_leaves, flatten_into, leaf_entries, leaf_val, Node};
use crate::validate::{
    feature_warnings, files_index, group_incomplete, is_feature, max_files_index, missing_of,
    missing_required, missing_text, options_exceeded, required_keys,
};

verus! {

/// Binding a key of a section keeps the document well formed, and the key
/// of that section then holds the value bound.
pub proof fn lemma_put_doc(d: Doc, sec: Seq<char>, key: Seq<char>, v: Val)
    requires
        wf_doc(d),
    ensures
        wf_doc(put_doc(d, sec, key, v)),
        section_entries(put_doc(d, sec, key, v), sec) == put(section_entries(d, sec), key, v),
        lookup(section_entries(put_doc(d, sec, key, v), sec), key) == Some(v),
        get_doc(put_doc(d, sec, key, v), sec, key) == Some(rendered(v)),
{
    let e = section_entries(d, sec);
    lemma_section_entries(d, sec);
    lemma_put(e, key, v);
    lemma_put_section(d, sec, put(e, key, v));
}

/// After a set, a query of the same key returns exactly the values set, in
/// their order: one value comes back alone, several come back as they were given.
pub proof fn lemma_set_then_get(d: Doc, sec: Seq<char>, key: Seq<char>, values: Seq<Seq<char>>)
    requires
        wf_doc(d),
    ensures
        wf_doc(set_doc(d, sec, key, values)),
        get_doc(set_doc(d, sec, key, values), sec, key) == Some(values),
{
    lemma_put_doc(d, sec, key, value_of(values));
    if values.len() == 1 {
        assert(seq![values[0]] =~= values);
    }
}

/// An add appends its values to what the key held, a scalar counting as a
/// one-element array and a missing key as an empty one.
pub proof fn lemma_add_then_get(d: Doc, sec: Seq<char>, key: Seq<char>, values: Seq<Seq<char>>)
    requires
        wf_doc(d),
    ensures
        wf_doc(add_doc(d, sec, key, values)),
        get_doc(add_doc(d, sec, key, values), sec, key) == Some(
            match get_doc(d, sec, key) {
                Some(old) => old + values,
                None => values,
            },
        ),
{
    let e = section_entries(d, sec);
    lemma_put_doc(d, sec, key, Val::Array(appended(lookup(e, key), values)));
    lemma_section_entries(d, sec);
    if has_key(d, sec) {
        assert(lookup(d, sec) == Some(e));
    }
}

/// Setting one value and then adding another gives both, in that order.
pub proof fn lemma_set_then_add(d: Doc, sec: Seq<char>, key: Seq<char>, x: Seq<char>, y: Seq<char>)
    requires
        wf_doc(d),
    ensures
        get_doc(add_doc(set_doc(d, sec, key, seq![x]), sec, key, seq![y]), sec, key) == Some(seq![x, y]),
{
    lemma_set_then_get(d, sec, key, seq![x]);
    lemma_add_then_get(set_doc(d, sec, key, seq![x]), sec, key, seq![y]);
    assert(seq![x] + seq![y] =~= seq![x, y]);
}

/// A del after a set of other than one value is not refused and leaves the
/// values set without every occurrence of the values deleted.
pub proof fn lemma_set_then_del(
    d: Doc,
    sec: Seq<char>,
    key: Seq<char>,
    values: Seq<Seq<char>>,
    gone: Seq<Seq<char>>,
)
    requires
        wf_doc(d),
        values.len() != 1,
    ensures
        !del_refused(set_doc(d, sec, key, values), sec, key),
        get_doc(del_doc(set_doc(d, sec, key, values), sec, key, gone), sec, key) == Some(
            without(values, gone),
        ),
{
    lemma_put_doc(d, sec, key, value_of(values));
    let d1 = set_doc(d, sec, key, values);
    lemma_put_doc(d1, sec, key, Val::Array(without(values, gone)));
}

/// Deleting `a` from `[a, b, a, c]` removes both of its occurrences.
pub proof fn lemma_without_all_occurrences(a: Seq<char>, b: Seq<char>, c: Seq<char>)
    requires
        a != b,
        a != c,
    ensures
        without(seq![a, b, a, c], seq![a]) == seq![b, c],
{
    let s = seq![a, b, a, c];
    let g = seq![a];
    assert(g.contains(a)) by {
        assert(g[0] == a);
    }
    assert(!g.contains(b));
    assert(!g.contains(c));
    assert(s.drop_last() =~= seq![a, b, a]);
    assert(s.drop_last().drop_last() =~= seq![a, b]);
    assert(s.drop_last().drop_last().drop_last() =~= seq![a]);
    assert(s.drop_last().drop_last().drop_last().drop_last() =~= Seq::<Seq<char>>::empty());
    assert(seq![a].drop_last() =~= Seq::<Seq<char>>::empty());
    assert(seq![a, b].drop_last() =~= seq![a]);
    assert(seq![a, b, a].drop_last() =~= seq![a, b]);
    assert(without(Seq::<Seq<char>>::empty(), g) =~= Seq::<Seq<char>>::empty());
    assert(without(seq![a], g) =~= Seq::<Seq<char>>::empty());
    assert(without(seq![a, b], g) =~= seq![b]);
    assert(without(seq![a, b, a], g) =~= seq![b]);
    assert(without(s, g) =~= seq![b, c]);
}

/// Unset and del of a key that its section lacks, or of a section that does
/// not exist, succeed and change nothing.
pub proof fn lemma_absent_is_noop(d: Doc, sec: Seq<char>, key: Seq<char>, gone: Seq<Seq<char>>)
    requires
        !has_key(section_entries(d, sec), key),
    ensures
        unset_doc(d, sec, key) == d,
        !del_refused(d, sec, key),
        del_doc(d, sec, key, gone) == d,
{
}

/// Normalizing a section that is already flat leaves it unchanged: the
/// same keys, in the same order, with the same values.
pub proof fn lemma_flatten_flat(fields: Seq<(String, Node)>)
    requires
        all_leaves(fields),
        unique(leaf_entries(fields)),
    ensures
        flatten_into(Seq::empty(), Seq::empty(), fields) == leaf_entries(fields),
    decreases fields.len(),
{
    if fields.len() > 0 {
        let t = fields.drop_last();
        let lt = leaf_entries(t);
        let lf = leaf_entries(fields);
        assert(lt =~= lf.drop_last());
        assert(all_leaves(t)) by {
            assert forall|i: int| 0 <= i < t.len() implies (#[trigger] leaf_val(t[i].1)) is Some by {
                assert(t[i] == fields[i]);
                assert(leaf_val(fields[i].1) is Some);
            }
        }
        assert(unique(lt)) by {
            assert forall|a: int, b: int|
                0 <= a < lt.len() && 0 <= b < lt.len() && (#[trigger] lt[a]).0 == (#[trigger] lt[b]).0 implies a == b by {
                assert(lt[a] == lf[a]);
                assert(lt[b] == lf[b]);
            }
        }
        lemma_flatten_flat(t);
        let n = fields.len() - 1;
        let k = fields[n].0@;
        assert(Seq::<char>::empty() + k =~= k);
        assert(leaf_val(fields[n].1) is Some);
        assert(!has_key(lt, k)) by {
            if has_key(lt, k) {
                let j = choose|j: int| 0 <= j < lt.len() && (#[trigger] lt[j]).0 == k;
                assert(lf[j].0 == lf[n].0);
            }
        }
        assert(lf =~= lt.push(lf[n]));
    }
}

/// A feature named in any letter case addresses the section of its
/// case-folded name: what is set through one spelling is seen through
/// another that folds the same, and the document keeps one section of that name.
pub proof fn lemma_feature_case_fold(d: Doc, set_args: ConfigArgs, get_args: ConfigArgs)
    requires
        wf_doc(d),
        request_of(set_args) matches Ok(q) && q.op == Operation::SetKey,
        request_of(get_args) matches Ok(q) && q.op == Operation::List,
        set_args.feature matches Some(f1) && get_args.feature matches Some(f2) && lower_of(f1@)
            == lower_of(f2@),
        set_args.key matches Some(k1) && get_args.key matches Some(k2) && k1@ == k2@,
    ensures
        ({
            let q1 = request_of(set_args)->Ok_0;
            let q2 = request_of(get_args)->Ok_0;
            &&& q1.section == q2.section
            &&& wf_doc(after(q1.op, d, q1.section, q1.key, q1.values))
            &&& get_doc(after(q1.op, d, q1.section, q1.key, q1.values), q2.section, q2.key) == Some(
                q1.values,
            )
        }),
{
    let q1 = request_of(set_args)->Ok_0;
    lemma_set_then_get(d, q1.section, q1.key, q1.values);
}

/// `missing_of` lists nothing when every key is present.
pub proof fn lemma_missing_none(keys: Seq<Seq<char>>, e: Entries)
    requires
        forall|i: int| 0 <= i < keys.len() ==> has_key(e, #[trigger] keys[i]),
    ensures
        missing_of(keys, e) == Seq::<Seq<char>>::empty(),
    decreases keys.len(),
{
    if keys.len() > 0 {
        let t = keys.drop_last();
        assert forall|i: int| 0 <= i < t.len() implies has_key(e, #[trigger] t[i]) by {
            assert(t[i] == keys[i]);
        }
        lemma_missing_none(t, e);
        assert(has_key(e, keys[keys.len() - 1]));
    }
}

/// A feature section that holds all of the required keys, and no
/// `build.files.<i>` index beyond `build.options`, gets no warning.
pub proof fn lemma_required_group_complete(d: Doc, sec: Seq<char>)
    requires
        wf_doc(d),
        forall|i: int| 0 <= i < 6 ==> has_key(section_entries(d, sec), #[trigger] required_keys()[i]),
        options_exceeded(section_entries(d, sec)) is None,
    ensures
        feature_warnings(d, sec) == Seq::<Seq<char>>::empty(),
{
    let e = section_entries(d, sec);
    lemma_missing_none(required_keys(), e);
    assert(!group_incomplete(e));
    assert(Seq::<Seq<char>>::empty() + Seq::<Seq<char>>::empty() =~= Seq::<Seq<char>>::empty());
}

/// The required keys other than `build.dir`, in the order they are checked.
pub open spec fn required_but_build_dir() -> Seq<Seq<char>> {
    seq!["clean.dir"@, "clean"@, "test.dir"@, "test"@, "build"@]
}

/// Setting `build.dir` in a feature section that holds none of the other
/// required keys, and no `build.files.<i>` index beyond `build.options`,
/// brings exactly one warning, and it names the five keys missing.
pub proof fn lemma_required_group_partial(d: Doc, sec: Seq<char>, v: Seq<Seq<char>>)
    requires
        wf_doc(d),
        is_feature(sec),
        forall|i: int|
            0 <= i < 5 ==> !has_key(section_entries(d, sec), #[trigger] required_but_build_dir()[i]),
        options_exceeded(section_entries(d, sec)) is None,
    ensures
        feature_warnings(set_doc(d, sec, "build.dir"@, v), sec) == seq![
            missing_text(sec, required_but_build_dir()),
        ],
{
    let e = section_entries(d, sec);
    let bd = "build.dir"@;
    lemma_put_doc(d, sec, bd, value_of(v));
    lemma_section_entries(d, sec);
    lemma_put(e, bd, value_of(v));
    let d1 = set_doc(d, sec, bd, v);
    let e1 = section_entries(d1, sec);
    assert(has_key(d1, sec));
    reveal_strlit("clean.dir");
    reveal_strlit("clean");
    reveal_strlit("test.dir");
    reveal_strlit("test");
    reveal_strlit("build.dir");
    reveal_strlit("build");
    reveal_strlit("build.options");
    let r = required_keys();
    let o = required_but_build_dir();
    assert(r[0][0] != bd[0] && r[2][0] != bd[0] && r[1].len() != bd.len());
    assert(r[3].len() != bd.len() && r[5].len() != bd.len());
    assert(r[0] != bd && r[1] != bd && r[2] != bd && r[3] != bd && r[5] != bd);
    assert("build.options"@ != bd);
    assert(!has_key(e1, r[0]) && !has_key(e1, r[1]) && !has_key(e1, r[2]));
    assert(!has_key(e1, r[3]) && has_key(e1, r[4]) && !has_key(e1, r[5]));
    assert(r.drop_last() =~= seq![r[0], r[1], r[2], r[3], r[4]]);
    assert(r.drop_last().drop_last() =~= seq![r[0], r[1], r[2], r[3]]);
    assert(r.drop_last().drop_last().drop_last() =~= seq![r[0], r[1], r[2]]);
    assert(r.drop_last().drop_last().drop_last().drop_last() =~= seq![r[0], r[1]]);
    assert(r.drop_last().drop_last().drop_last().drop_last().drop_last() =~= seq![r[0]]);
    assert(seq![r[0]].drop_last() =~= Seq::<Seq<char>>::empty());
    assert(missing_of(Seq::<Seq<char>>::empty(), e1) =~= Seq::<Seq<char>>::empty());
    assert(seq![r[0]].last() == r[0]);
    assert(missing_of(seq![r[0]], e1) =~= seq![r[0]]);
    assert(missing_of(seq![r[0], r[1]], e1) =~= seq![r[0], r[1]]);
    assert(missing_of(seq![r[0], r[1], r[2]], e1) =~= seq![r[0], r[1], r[2]]);
    assert(missing_of(seq![r[0], r[1], r[2], r[3]], e1) =~= seq![r[0], r[1], r[2], r[3]]);
    assert(missing_of(seq![r[0], r[1], r[2], r[3], r[4]], e1) =~= seq![r[0], r[1], r[2], r[3]]);
    assert(missing_required(e1) =~= o);
    assert(group_incomplete(e1));
    assert(lookup(e1, "build.options"@) == lookup(e, "build.options"@));
    assert(!has_prefix(bd, "build.files."@)) by {
        reveal_strlit("build.files.");
    }
    lemma_max_files_put(e, bd, value_of(v));
    assert(options_exceeded(e1) is None);
    assert(feature_warnings(d1, sec) =~= seq![missing_text(sec, o)]);
}

/// The key `build.files.<i>` for a one-digit index.
pub open spec fn files_key(i: int) -> Seq<char> {
    "build.files."@ + seq![digit_char(i)]
}

/// No `build.files.<i>` key of `e` has an index above `max_files_index(e)`.
pub proof fn lemma_max_files_index(e: Entries, j: int)
    requires
        0 <= j < e.len(),
        files_index(e[j].0) is Some,
    ensures
        files_index(e[j].0)->Some_0 <= max_files_index(e),
    decreases e.len(),
{
    if j < e.len() - 1 {
        lemma_max_files_index(e.drop_last(), j);
        assert(e.drop_last()[j] == e[j]);
    }
}

/// A one-digit key `build.files.<i>` names index `i`.
pub proof fn lemma_files_key(i: int)
    requires
        0 <= i < 10,
    ensures
        files_index(files_key(i)) == Some(i),
        files_key(i) != "build.options"@,
{
    reveal_strlit("build.files.");
    reveal_strlit("build.options");
    let k = files_key(i);
    let p = "build.files."@;
    assert(k.subrange(0, p.len() as int) =~= p);
    assert(has_prefix(k, p));
    let t = k.subrange(p.len() as int, k.len() as int);
    assert(t =~= seq![digit_char(i)]);
    assert(t[0] != '+');
    assert(t.drop_last() =~= Seq::<char>::empty());
    assert(digit_value(digit_char(i)) == i);
    assert(t.last() == digit_char(i));
    assert(digits_value(Seq::<char>::empty()) == 0);
    assert(digits_value(t) == i);
    assert(index_number(t) == Some(i));
    assert(k[6] != "build.options"@[6]);
}

/// `max_files_index` depends on the keys alone.
pub proof fn lemma_max_files_same_keys(s: Entries, t: Entries)
    requires
        s.len() == t.len(),
        forall|j: int| 0 <= j < s.len() ==> (#[trigger] s[j]).0 == t[j].0,
    ensures
        max_files_index(s) == max_files_index(t),
    decreases s.len(),
{
    if s.len() > 0 {
        lemma_max_files_same_keys(s.drop_last(), t.drop_last());
        assert(s[s.len() - 1].0 == t[t.len() - 1].0);
    }
}

/// Binding a key keeps the largest `build.files.<i>` index, or raises it to
/// the key's own index where that is larger.
pub proof fn lemma_max_files_put(e: Entries, k: Seq<char>, v: Val)
    ensures
        max_files_index(put(e, k, v)) == match files_index(k) {
            Some(x) => if has_key(e, k) || x <= max_files_index(e) {
                max_files_index(e)
            } else {
                x
            },
            None => max_files_index(e),
        },
{
    let t = put(e, k, v);
    if has_key(e, k) {
        let j = index_of(e, k);
        assert(e[j].0 == k);
        lemma_max_files_same_keys(e, t);
        if files_index(k) is Some {
            lemma_max_files_index(e, j);
        }
    } else {
        assert(t.drop_last() =~= e);
    }
}

/// With `build.options` an array of `n` strings and every `build.files.<i>`
/// index below `n`, adding to `build.files.<i>` (a one-digit index) brings
/// the index warning exactly when `i >= n`.
pub proof fn lemma_index_bound(d: Doc, sec: Seq<char>, i: int, vals: Seq<Seq<char>>)
    requires
        wf_doc(d),
        0 <= i < 10,
        lookup(section_entries(d, sec), "build.options"@) matches Some(Val::Array(o)) && max_files_index(
            section_entries(d, sec),
        ) < o.len(),
    ensures
        ({
            let n = lookup(section_entries(d, sec), "build.options"@)->Some_0->Array_0.len();
            options_exceeded(section_entries(add_doc(d, sec, files_key(i), vals), sec)) == if i >= n {
                Some(n)
            } else {
                None
            }
        }),
{
    let e = section_entries(d, sec);
    let k = files_key(i);
    let v = Val::Array(appended(lookup(e, k), vals));
    lemma_files_key(i);
    lemma_section_entries(d, sec);
    lemma_put_doc(d, sec, k, v);
    lemma_put(e, k, v);
    lemma_max_files_put(e, k, v);
    if has_key(e, k) {
        let j = index_of(e, k);
        assert(e[j].0 == k);
        lemma_max_files_index(e, j);
    }
}

} // verus!
