//! The configuration handle: a document of sections, with the queries and
//! mutations that address a key of a section.
use vstd::prelude::*;
use crate::error::{ConfigError, Fault};
use crate::model::{
    add_doc, appended, del_doc, del_refused, drop_key, entries_view, get_doc, has_key,
    lemma_drop_key, lemma_index_of, lemma_put, lemma_put_section, lemma_section_entries, listing,
    lookup, put, put_doc, rendered, section_entries, sections_view, set_doc, strs_view, unique,
    unset_doc, value_of, without, wf_doc, Doc, Entries, Entry, Section, Value,
};
use crate::tree::{flatten_fields, flatten_into, Node};

verus! {

/// The loaded configuration: where it is stored and the document itself.
pub struct Config {
    config_path: String,
    sections: Vec<Section>,
}

impl View for Config {
    type V = Doc;

    closed spec fn view(&self) -> Doc {
        sections_view(self.sections@)
    }
}

/// The view of a listing: each key with its strings.
pub open spec fn pairs_view(v: Seq<(String, Vec<String>)>) -> Seq<(Seq<char>, Seq<Seq<char>>)> {
    v.map_values(|p: (String, Vec<String>)| (p.0@, strs_view(p.1@)))
}

/// The position of `key` in `entries`.
pub(crate) fn find_entry(entries: &Vec<Entry>, key: &String) -> (r: Option<usize>)
    ensures
        match r {
            Some(i) => i < entries@.len() && entries@[i as int].key@ == key@,
            None => !has_key(entries_view(entries@), key@),
        },
{
    let mut i: usize = 0;
    while i < entries.len()
        invariant
            i <= entries@.len(),
            forall|j: int| 0 <= j < i ==> (#[trigger] entries@[j]).key@ != key@,
        decreases entries@.len() - i,
    {
        if entries[i].key == *key {
            return Some(i);
        }
        i = i + 1;
    }
    proof {
        let ev = entries_view(entries@);
        assert forall|j: int| 0 <= j < ev.len() implies (#[trigger] ev[j]).0 != key@ by {
            assert(ev[j] == entries@[j]@);
        }
    }
    None
}

/// Binds `key` to `value` in `entries`, in place where present.
pub(crate) fn put_entry(entries: &mut Vec<Entry>, key: String, value: Value)
    requires
        unique(entries_view(old(entries)@)),
    ensures
        entries_view(final(entries)@) == put(entries_view(old(entries)@), key@, value@),
        unique(entries_view(final(entries)@)),
{
    let ghost before = entries_view(entries@);
    let ghost k = key@;
    let ghost v = value@;
    proof {
        lemma_put(before, k, v);
    }
    match find_entry(entries, &key) {
        Some(i) => {
            proof {
                assert(before[i as int] == entries@[i as int]@);
                lemma_index_of(before, i as int);
            }
            entries.remove(i);
            entries.insert(i, Entry { key, value });
            assert(entries_view(entries@) =~= before.update(i as int, (k, v)));
        },
        None => {
            entries.push(Entry { key, value });
            assert(entries_view(entries@) =~= before.push((k, v)));
        },
    }
}

/// Copies a vector of strings.
pub(crate) fn copy_strs(v: &Vec<String>) -> (r: Vec<String>)
    ensures
        strs_view(r@) == strs_view(v@),
{
    let mut r: Vec<String> = Vec::new();
    let mut i: usize = 0;
    while i < v.len()
        invariant
            i <= v@.len(),
            strs_view(r@) == strs_view(v@.subrange(0, i as int)),
        decreases v@.len() - i,
    {
        let ghost before = r@;
        r.push(v[i].clone());
        proof {
            assert(strs_view(r@) =~= strs_view(before).push(v@[i as int]@));
            assert(v@.subrange(0, i + 1) =~= v@.subrange(0, i as int).push(v@[i as int]));
            assert(strs_view(v@.subrange(0, i + 1)) =~= strs_view(v@.subrange(0, i as int)).push(v@[i as int]@));
        }
        i = i + 1;
    }
    assert(v@.subrange(0, v@.len() as int) =~= v@);
    r
}

/// Whether `vals` holds a string equal to `s`.
fn contains_str(vals: &Vec<String>, s: &String) -> (r: bool)
    ensures
        r == strs_view(vals@).contains(s@),
{
    let mut i: usize = 0;
    while i < vals.len()
        invariant
            i <= vals@.len(),
            forall|j: int| 0 <= j < i ==> (#[trigger] vals@[j])@ != s@,
        decreases vals@.len() - i,
    {
        if vals[i] == *s {
            assert(strs_view(vals@)[i as int] == s@);
            return true;
        }
        i = i + 1;
    }
    proof {
        if strs_view(vals@).contains(s@) {
            let j = choose|j: int| 0 <= j < strs_view(vals@).len() && strs_view(vals@)[j] == s@;
            assert(vals@[j]@ == s@);
        }
    }
    false
}

/// The strings that a value renders to.
fn render(v: &Value) -> (r: Vec<String>)
    ensures
        strs_view(r@) == rendered(v@),
{
    match v {
        Value::Scalar(s) => {
            let mut r: Vec<String> = Vec::new();
            r.push(s.clone());
            assert(strs_view(r@) =~= seq![s@]);
            r
        },
        Value::Array(a) => copy_strs(a),
    }
}

impl Config {
    /// The document is well formed: names unique at both levels.
    pub open spec fn wf(&self) -> bool {
        wf_doc(self@)
    }

    /// The path of the backing store.
    pub closed spec fn path(&self) -> Seq<char> {
        self.config_path@
    }

    /// An empty configuration to be stored at `config_path`.
    pub fn new(config_path: String) -> (r: Config)
        ensures
            r@ == Seq::<(Seq<char>, Entries)>::empty(),
            r.path() == config_path@,
            r.wf(),
    {
        let r = Config { config_path, sections: Vec::new() };
        assert(r@ =~= Seq::<(Seq<char>, Entries)>::empty());
        r
    }

    /// The path of the backing store.
    pub fn config_path(&self) -> (r: &String)
        ensures
            r@ == self.path(),
    {
        &self.config_path
    }

    /// The sections in order.
    pub fn sections(&self) -> (r: &Vec<Section>)
        ensures
            sections_view(r@) == self@,
    {
        &self.sections
    }

    /// The entries of section `name`, if it exists.
    pub fn section(&self, name: &str) -> (r: Option<&Vec<Entry>>)
        requires
            self.wf(),
        ensures
            r is Some <==> has_key(self@, name@),
            r matches Some(v) ==> entries_view(v@) == section_entries(self@, name@),
            r matches Some(v) ==> unique(entries_view(v@)),
    {
        let sec = name.to_owned();
        match self.find_section(&sec) {
            Some(i) => {
                proof {
                    lemma_index_of(self@, i as int);
                    assert(self.sections@[i as int]@ == self@[i as int]);
                    lemma_section_entries(self@, sec@);
                }
                Some(&self.sections[i].entries)
            },
            None => None,
        }
    }

    /// The position of section `name`.
    fn find_section(&self, name: &String) -> (r: Option<usize>)
        ensures
            match r {
                Some(i) => i < self@.len() && self@[i as int].0 == name@,
                None => !has_key(self@, name@),
            },
    {
        let mut i: usize = 0;
        while i < self.sections.len()
            invariant
                i <= self.sections@.len(),
                forall|j: int| 0 <= j < i ==> (#[trigger] self.sections@[j]).name@ != name@,
            decreases self.sections@.len() - i,
        {
            if self.sections[i].name == *name {
                assert(self@[i as int] == self.sections@[i as int]@);
                return Some(i);
            }
            i = i + 1;
        }
        proof {
            let d = self@;
            assert forall|j: int| 0 <= j < d.len() implies (#[trigger] d[j]).0 != name@ by {
                assert(d[j] == self.sections@[j]@);
            }
        }
        None
    }

    /// Binds `key` of section `sec` to `value`, creating the section if absent.
    fn put_value(&mut self, sec: String, key: String, value: Value)
        requires
            old(self).wf(),
        ensures
            final(self)@ == put_doc(old(self)@, sec@, key@, value@),
            final(self).wf(),
            final(self).path() == old(self).path(),
    {
        let ghost d = self@;
        let ghost e = section_entries(d, sec@);
        proof {
            lemma_section_entries(d, sec@);
            lemma_put(e, key@, value@);
            lemma_put_section(d, sec@, put(e, key@, value@));
        }
        match self.find_section(&sec) {
            Some(i) => {
                proof {
                    lemma_index_of(d, i as int);
                    assert(self.sections@[i as int]@ == d[i as int]);
                }
                let mut s = self.sections.remove(i);
                put_entry(&mut s.entries, key, value);
                self.sections.insert(i, s);
                assert(self@ =~= d.update(i as int, (sec@, put(e, key@, value@))));
            },
            None => {
                let mut entries: Vec<Entry> = Vec::new();
                entries.push(Entry { key, value });
                assert(entries_view(entries@) =~= put(e, key@, value@));
                self.sections.push(Section { name: sec, entries });
                assert(self@ =~= d.push((sec@, put(e, key@, value@))));
            },
        }
    }

    /// Flattens the items of `fields` into section `name`, which is created
    /// if absent.
    pub(crate) fn merge_section(&mut self, name: String, fields: &Vec<(String, Node)>)
        requires
            old(self).wf(),
        ensures
            final(self)@ == put(
                old(self)@,
                name@,
                flatten_into(section_entries(old(self)@, name@), Seq::empty(), fields@),
            ),
            final(self).wf(),
            final(self).path() == old(self).path(),
    {
        let ghost d = self@;
        let ghost e = section_entries(d, name@);
        let ghost f = flatten_into(e, Seq::empty(), fields@);
        let root = String::new();
        proof {
            lemma_section_entries(d, name@);
        }
        match self.find_section(&name) {
            Some(i) => {
                proof {
                    lemma_index_of(d, i as int);
                    assert(self.sections@[i as int]@ == d[i as int]);
                }
                let mut s = self.sections.remove(i);
                flatten_fields(&mut s.entries, &root, fields);
                proof {
                    lemma_put_section(d, name@, f);
                }
                self.sections.insert(i, s);
                assert(self@ =~= d.update(i as int, (name@, f)));
            },
            None => {
                let mut entries: Vec<Entry> = Vec::new();
                assert(entries_view(entries@) =~= e);
                flatten_fields(&mut entries, &root, fields);
                proof {
                    lemma_put_section(d, name@, f);
                }
                self.sections.push(Section { name, entries });
                assert(self@ =~= d.push((name@, f)));
            },
        }
    }

    /// Sets `key` of `section` to `values`: a scalar for one value, an array
    /// of all of them, in order, otherwise. The section is created if absent.
    pub fn set(&mut self, section: &str, key: &str, values: Vec<String>) -> (r: Result<(), ConfigError>)
        requires
            old(self).wf(),
        ensures
            r is Ok,
            final(self)@ == set_doc(old(self)@, section@, key@, strs_view(values@)),
            final(self).wf(),
            final(self).path() == old(self).path(),
    {
        let value = if values.len() == 1 {
            Value::Scalar(values[0].clone())
        } else {
            Value::Array(values)
        };
        assert(value@ == value_of(strs_view(values@)));
        self.put_value(section.to_owned(), key.to_owned(), value);
        Ok(())
    }

    /// Removes `key` from `section`. Absence of either is no error and
    /// leaves the document as it was.
    pub fn unset(&mut self, section: &str, key: &str) -> (r: Result<(), ConfigError>)
        requires
            old(self).wf(),
        ensures
            r is Ok,
            final(self)@ == unset_doc(old(self)@, section@, key@),
            !has_key(section_entries(old(self)@, section@), key@) ==> final(self)@ == old(self)@,
            final(self).wf(),
            final(self).path() == old(self).path(),
    {
        let ghost d = self@;
        let sec = section.to_owned();
        let k = key.to_owned();
        if let Some(i) = self.find_section(&sec) {
            proof {
                lemma_index_of(d, i as int);
                assert(self.sections@[i as int]@ == d[i as int]);
            }
            if let Some(j) = find_entry(&self.sections[i].entries, &k) {
                let ghost e = section_entries(d, sec@);
                proof {
                    assert(unique(e));
                    assert(e[j as int] == self.sections@[i as int].entries@[j as int]@);
                    lemma_index_of(e, j as int);
                    lemma_drop_key(e, k@);
                    lemma_put_section(d, sec@, drop_key(e, k@));
                    lemma_index_of(d, i as int);
                }
                let mut s = self.sections.remove(i);
                s.entries.remove(j);
                assert(entries_view(s.entries@) =~= e.remove(j as int));
                self.sections.insert(i, s);
                assert(self@ =~= d.update(i as int, (sec@, drop_key(e, k@))));
            }
        }
        Ok(())
    }

    /// Appends `values` to the array at `key` of `section`. A missing key
    /// starts as an empty array, a scalar is promoted to a one-element array
    /// first, and a missing section is created.
    pub fn add(&mut self, section: &str, key: &str, values: Vec<String>) -> (r: Result<(), ConfigError>)
        requires
            old(self).wf(),
        ensures
            r is Ok,
            final(self)@ == add_doc(old(self)@, section@, key@, strs_view(values@)),
            final(self).wf(),
            final(self).path() == old(self).path(),
    {
        let ghost d = self@;
        let sec = section.to_owned();
        let k = key.to_owned();
        let mut arr: Vec<String> = Vec::new();
        if let Some(i) = self.find_section(&sec) {
            proof {
                lemma_index_of(d, i as int);
                assert(self.sections@[i as int]@ == d[i as int]);
            }
            if let Some(j) = find_entry(&self.sections[i].entries, &k) {
                let ghost e = section_entries(d, sec@);
                proof {
                    assert(unique(e));
                    assert(e[j as int] == self.sections@[i as int].entries@[j as int]@);
                    lemma_index_of(e, j as int);
                }
                arr = render(&self.sections[i].entries[j].value);
            }
        }
        assert(strs_view(arr@) + strs_view(values@) == appended(
            lookup(section_entries(d, sec@), k@),
            strs_view(values@),
        ));
        let mut i: usize = 0;
        let ghost start = arr@;
        while i < values.len()
            invariant
                i <= values@.len(),
                strs_view(arr@) == strs_view(start) + strs_view(values@.subrange(0, i as int)),
            decreases values@.len() - i,
        {
            let ghost before = arr@;
            arr.push(values[i].clone());
            proof {
                assert(strs_view(arr@) =~= strs_view(before).push(values@[i as int]@));
                assert(values@.subrange(0, i + 1) =~= values@.subrange(0, i as int).push(values@[i as int]));
                assert(strs_view(values@.subrange(0, i + 1)) =~= strs_view(values@.subrange(0, i as int)).push(values@[i as int]@));
            }
            i = i + 1;
        }
        assert(values@.subrange(0, values@.len() as int) =~= values@);
        self.put_value(sec, k, Value::Array(arr));
        Ok(())
    }

    /// Removes from the array at `key` of `section` every element equal to
    /// one of `values`. Absence of the section or the key is no error and
    /// leaves the document as it was; a scalar there is refused.
    pub fn del(&mut self, section: &str, key: &str, values: Vec<String>) -> (r: Result<(), ConfigError>)
        requires
            old(self).wf(),
        ensures
            r is Ok <==> !del_refused(old(self)@, section@, key@),
            r matches Err(e) ==> e@ == Fault::NotAnArray(key@),
            r is Ok ==> final(self)@ == del_doc(old(self)@, section@, key@, strs_view(values@)),
            r is Err ==> final(self)@ == old(self)@,
            !has_key(section_entries(old(self)@, section@), key@) ==> r is Ok && final(self)@ == old(self)@,
            final(self).wf(),
            final(self).path() == old(self).path(),
    {
        let ghost d = self@;
        let sec = section.to_owned();
        let k = key.to_owned();
        let i = match self.find_section(&sec) {
            Some(i) => i,
            None => return Ok(()),
        };
        proof {
            lemma_index_of(d, i as int);
            assert(self.sections@[i as int]@ == d[i as int]);
        }
        let j = match find_entry(&self.sections[i].entries, &k) {
            Some(j) => j,
            None => return Ok(()),
        };
        let ghost e = section_entries(d, sec@);
        proof {
            assert(unique(e));
            assert(e[j as int] == self.sections@[i as int].entries@[j as int]@);
            lemma_index_of(e, j as int);
        }
        let kept = match &self.sections[i].entries[j].value {
            Value::Scalar(_) => return Err(ConfigError::NotAnArray(k)),
            Value::Array(a) => {
                let mut kept: Vec<String> = Vec::new();
                let mut n: usize = 0;
                while n < a.len()
                    invariant
                        n <= a@.len(),
                        strs_view(kept@) == without(strs_view(a@.subrange(0, n as int)), strs_view(values@)),
                    decreases a@.len() - n,
                {
                    let ghost before = kept@;
                    let ghost pre = strs_view(a@.subrange(0, n + 1));
                    proof {
                        assert(a@.subrange(0, n + 1) =~= a@.subrange(0, n as int).push(a@[n as int]));
                        assert(pre =~= strs_view(a@.subrange(0, n as int)).push(a@[n as int]@));
                        assert(pre.drop_last() =~= strs_view(a@.subrange(0, n as int)));
                    }
                    if !contains_str(&values, &a[n]) {
                        kept.push(a[n].clone());
                        assert(strs_view(kept@) =~= strs_view(before).push(a@[n as int]@));
                    }
                    n = n + 1;
                }
                assert(a@.subrange(0, a@.len() as int) =~= a@);
                kept
            },
        };
        self.put_value(sec, k, Value::Array(kept));
        Ok(())
    }

    /// The strings that `key` of `section` holds: its scalar alone, or the
    /// elements of its array in order.
    pub fn list(&self, section: &str, key: &str) -> (r: Result<Vec<String>, ConfigError>)
        requires
            self.wf(),
        ensures
            r is Ok <==> get_doc(self@, section@, key@) is Some,
            r matches Ok(v) ==> get_doc(self@, section@, key@) == Some(strs_view(v@)),
            r matches Err(e) ==> if has_key(self@, section@) {
                e@ == Fault::KeyNotFound(key@)
            } else {
                e@ == Fault::FeatureNotFound(section@)
            },
    {
        let sec = section.to_owned();
        let k = key.to_owned();
        let i = match self.find_section(&sec) {
            Some(i) => i,
            None => return Err(ConfigError::FeatureNotFound(sec)),
        };
        proof {
            lemma_index_of(self@, i as int);
            assert(self.sections@[i as int]@ == self@[i as int]);
        }
        let j = match find_entry(&self.sections[i].entries, &k) {
            Some(j) => j,
            None => return Err(ConfigError::KeyNotFound(k)),
        };
        proof {
            let e = section_entries(self@, sec@);
            assert(unique(e));
            assert(e[j as int] == self.sections@[i as int].entries@[j as int]@);
            lemma_index_of(e, j as int);
        }
        Ok(render(&self.sections[i].entries[j].value))
    }

    /// Every key of `section` in order with the strings it holds, leaving out
    /// keys that hold no string (an empty array).
    pub fn list_all(&self, section: &str) -> (r: Result<Vec<(String, Vec<String>)>, ConfigError>)
        requires
            self.wf(),
        ensures
            r is Ok <==> has_key(self@, section@),
            r matches Ok(v) ==> pairs_view(v@) == listing(section_entries(self@, section@)),
            r matches Err(e) ==> e@ == Fault::FeatureNotFound(section@),
            section_entries(self@, section@).len() == 0 ==> (r matches Ok(v) ==> v@.len() == 0),
    {
        let sec = section.to_owned();
        let i = match self.find_section(&sec) {
            Some(i) => i,
            None => return Err(ConfigError::FeatureNotFound(sec)),
        };
        proof {
            lemma_index_of(self@, i as int);
            assert(self.sections@[i as int]@ == self@[i as int]);
        }
        let entries = &self.sections[i].entries;
        let ghost e = entries_view(entries@);
        let mut out: Vec<(String, Vec<String>)> = Vec::new();
        let mut n: usize = 0;
        while n < entries.len()
            invariant
                n <= entries@.len(),
                e == entries_view(entries@),
                pairs_view(out@) == listing(e.subrange(0, n as int)),
            decreases entries@.len() - n,
        {
            let ghost before = out@;
            proof {
                assert(e.subrange(0, n + 1).drop_last() =~= e.subrange(0, n as int));
                assert(e.subrange(0, n + 1).last() == entries@[n as int]@);
            }
            let vals = render(&entries[n].value);
            if vals.len() > 0 {
                out.push((entries[n].key.clone(), vals));
                assert(pairs_view(out@) =~= pairs_view(before).push((entries@[n as int].key@, strs_view(vals@))));
            }
            n = n + 1;
        }
        assert(e.subrange(0, e.len() as int) =~= e);
        Ok(out)
    }
}

} // verus!
