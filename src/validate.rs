//! Advisory checks of a feature section: the required key group and the
//! bound of `build.files.<i>` indices by the length of `build.options`.
use vstd::prelude::*;
use crate::config::{find_entry, Config};
use crate::model::{
    entries_view, has_key, lemma_index_of, lookup, section_entries, strs_view, Doc, Entries,
    Entry, Val, Value,
};
use crate::text::{
    decimal, decimal_string, has_prefix, index_number, join, join_strings, parse_index, starts_with,
};

verus! {

/// The keys that a feature configures all together or not at all, in the
/// order they are checked.
pub open spec fn required_keys() -> Seq<Seq<char>> {
    seq!["clean.dir"@, "clean"@, "test.dir"@, "test"@, "build.dir"@, "build"@]
}

/// The members of `keys` that `e` lacks, in order.
pub open spec fn missing_of(keys: Seq<Seq<char>>, e: Entries) -> Seq<Seq<char>>
    decreases keys.len(),
{
    if keys.len() == 0 {
        Seq::empty()
    } else {
        let r = missing_of(keys.drop_last(), e);
        if has_key(e, keys.last()) {
            r
        } else {
            r.push(keys.last())
        }
    }
}

/// The required keys that `e` lacks, in the order they are checked.
pub open spec fn missing_required(e: Entries) -> Seq<Seq<char>> {
    missing_of(required_keys(), e)
}

/// Some but not all of the required keys are present.
pub open spec fn group_incomplete(e: Entries) -> bool {
    0 < missing_required(e).len() < required_keys().len()
}

/// The index `i` of a key `build.files.<i>`.
pub open spec fn files_index(k: Seq<char>) -> Option<int> {
    if has_prefix(k, "build.files."@) {
        index_number(k.subrange("build.files."@.len() as int, k.len() as int))
    } else {
        None
    }
}

/// The largest index of a `build.files.<i>` key of `e`, or -1.
pub open spec fn max_files_index(e: Entries) -> int
    decreases e.len(),
{
    if e.len() == 0 {
        -1
    } else {
        let m = max_files_index(e.drop_last());
        match files_index(e.last().0) {
            Some(x) => if x > m {
                x
            } else {
                m
            },
            None => m,
        }
    }
}

/// `build.options` holds an array that is not longer than the largest
/// `build.files.<i>` index; that array's length, if so.
pub open spec fn options_exceeded(e: Entries) -> Option<nat> {
    match lookup(e, "build.options"@) {
        Some(Val::Array(o)) => if max_files_index(e) >= o.len() {
            Some(o.len())
        } else {
            None
        },
        _ => None,
    }
}

/// The warning about an incomplete required group.
pub open spec fn missing_text(sec: Seq<char>, missing: Seq<Seq<char>>) -> Seq<char> {
    "Warning: Feature '"@ + sec + "' is missing required keys: "@ + join(missing, ", "@)
        + ". All of [clean.dir, clean, test.dir, test, build.dir, build] should be configured together."@
}

/// The warning about a `build.files.<i>` index beyond `build.options`.
pub open spec fn index_text(sec: Seq<char>, index: nat, count: nat) -> Seq<char> {
    "Warning: Feature '"@ + sec + "' has build.files."@ + decimal(index) + " but only "@
        + decimal(count)
        + " build.options entries. build.files.X indices should not exceed build.options array length."@
}

/// Whether `sec` names a feature section.
pub open spec fn is_feature(sec: Seq<char>) -> bool {
    has_prefix(sec, "feature."@)
}

/// The warnings about section `sec` of `d`: none unless it is an existing
/// feature section; then one for an incomplete required group, followed by
/// one for a `build.files` index beyond `build.options`.
pub open spec fn feature_warnings(d: Doc, sec: Seq<char>) -> Seq<Seq<char>> {
    if is_feature(sec) && has_key(d, sec) {
        let e = section_entries(d, sec);
        let w1 = if group_incomplete(e) {
            seq![missing_text(sec, missing_required(e))]
        } else {
            Seq::empty()
        };
        let w2 = match options_exceeded(e) {
            Some(n) => seq![index_text(sec, max_files_index(e) as nat, n)],
            None => Seq::empty(),
        };
        w1 + w2
    } else {
        Seq::empty()
    }
}

fn required_key(i: usize) -> (r: String)
    requires
        i < 6,
    ensures
        r@ == required_keys()[i as int],
{
    let k = if i == 0 {
        "clean.dir"
    } else if i == 1 {
        "clean"
    } else if i == 2 {
        "test.dir"
    } else if i == 3 {
        "test"
    } else if i == 4 {
        "build.dir"
    } else {
        "build"
    };
    String::from_str(k)
}

/// The required keys that `entries` lacks.
fn missing_keys(entries: &Vec<Entry>) -> (r: Vec<String>)
    ensures
        strs_view(r@) == missing_required(entries_view(entries@)),
{
    let ghost e = entries_view(entries@);
    let mut missing: Vec<String> = Vec::new();
    let mut i: usize = 0;
    while i < 6
        invariant
            i <= 6,
            e == entries_view(entries@),
            strs_view(missing@) == missing_of(required_keys().subrange(0, i as int), e),
        decreases 6 - i,
    {
        let k = required_key(i);
        let ghost ks = required_keys().subrange(0, i + 1);
        assert(ks.drop_last() =~= required_keys().subrange(0, i as int));
        assert(ks.last() == k@);
        let ghost before = missing@;
        match find_entry(entries, &k) {
            None => {
                missing.push(k);
                assert(strs_view(missing@) =~= strs_view(before).push(ks.last()));
            },
            Some(j) => {
                assert(e[j as int] == entries@[j as int]@);
            },
        }
        i = i + 1;
    }
    assert(required_keys().subrange(0, 6) =~= required_keys());
    missing
}

/// The index of `build.files.<i>` that `key` names, if it names one.
fn key_files_index(key: &String) -> (r: Option<u64>)
    ensures
        r matches Some(v) ==> files_index(key@) == Some(v as int),
        r is None ==> files_index(key@) is None,
{
    let prefix = "build.files.";
    proof {
        reveal_strlit("build.files.");
    }
    if starts_with(key.as_str(), prefix) {
        parse_index(key.as_str(), 12)
    } else {
        None
    }
}

/// The largest `build.files.<i>` index among `entries`, or -1.
fn max_index(entries: &Vec<Entry>) -> (r: i64)
    ensures
        r as int == max_files_index(entries_view(entries@)),
{
    let ghost e = entries_view(entries@);
    let mut m: i64 = -1;
    let mut n: usize = 0;
    while n < entries.len()
        invariant
            n <= entries@.len(),
            e == entries_view(entries@),
            m as int == max_files_index(e.subrange(0, n as int)),
            -1 <= m <= 2147483647,
        decreases entries@.len() - n,
    {
        let ghost p = e.subrange(0, n + 1);
        assert(p.drop_last() =~= e.subrange(0, n as int));
        assert(p.last() == entries@[n as int]@);
        match key_files_index(&entries[n].key) {
            Some(x) => {
                proof {
                    let s = entries@[n as int].key@;
                    let t = s.subrange("build.files."@.len() as int, s.len() as int);
                    assert(index_number(t) == Some(x as int));
                }
                if x as i64 > m {
                    m = x as i64;
                }
            },
            None => {},
        }
        n = n + 1;
    }
    assert(e.subrange(0, e.len() as int) =~= e);
    m
}

fn missing_warning(section: &str, missing: &Vec<String>) -> (r: String)
    ensures
        r@ == missing_text(section@, strs_view(missing@)),
{
    let mut r = String::from_str("Warning: Feature '");
    r.append(section);
    r.append("' is missing required keys: ");
    let list = join_strings(missing, ", ");
    r.append(list.as_str());
    r.append(". All of [clean.dir, clean, test.dir, test, build.dir, build] should be configured together.");
    assert(r@ =~= missing_text(section@, strs_view(missing@)));
    r
}

fn index_warning(section: &str, index: u64, count: u64) -> (r: String)
    ensures
        r@ == index_text(section@, index as nat, count as nat),
{
    let mut r = String::from_str("Warning: Feature '");
    r.append(section);
    r.append("' has build.files.");
    let i = decimal_string(index);
    r.append(i.as_str());
    r.append(" but only ");
    let c = decimal_string(count);
    r.append(c.as_str());
    r.append(" build.options entries. build.files.X indices should not exceed build.options array length.");
    assert(r@ =~= index_text(section@, index as nat, count as nat));
    r
}

impl Config {
    /// The advisory warnings about `section` (see [`feature_warnings`]).
    pub fn validate_feature(&self, section: &str) -> (r: Vec<String>)
        requires
            self.wf(),
        ensures
            strs_view(r@) == feature_warnings(self@, section@),
    {
        let mut warnings: Vec<String> = Vec::new();
        let feature = "feature.";
        if !starts_with(section, feature) {
            assert(strs_view(warnings@) =~= Seq::<Seq<char>>::empty());
            return warnings;
        }
        let entries = match self.section(section) {
            Some(e) => e,
            None => {
                assert(strs_view(warnings@) =~= Seq::<Seq<char>>::empty());
                return warnings;
            },
        };
        let ghost e = entries_view(entries@);
        let missing = missing_keys(entries);
        if missing.len() > 0 && missing.len() < 6 {
            warnings.push(missing_warning(section, &missing));
        }
        let ghost w1 = strs_view(warnings@);
        let options = String::from_str("build.options");
        match find_entry(entries, &options) {
            Some(j) => {
                proof {
                    assert(e[j as int] == entries@[j as int]@);
                    lemma_index_of(e, j as int);
                }
                match &entries[j].value {
                    Value::Array(o) => {
                        let m = max_index(entries);
                        if m >= 0 && m as u64 >= o.len() as u64 {
                            warnings.push(index_warning(section, m as u64, o.len() as u64));
                        }
                    },
                    Value::Scalar(_) => {},
                }
            },
            None => {},
        }
        proof {
            assert(section_entries(self@, section@) == e);
            if missing@.len() > 0 && missing@.len() < 6 {
                assert(w1 =~= seq![missing_text(section@, missing_required(e))]);
            } else {
                assert(w1 =~= Seq::<Seq<char>>::empty());
            }
        }
        assert(strs_view(warnings@) =~= feature_warnings(self@, section@));
        warnings
    }
}

} // verus!
