//! One request against the configuration: what the command line asks for,
//! checked, turned into an operation on a section, and carried out.
use vstd::prelude::*;
use crate::config::{pairs_view, Config};
use crate::error::{ConfigError, Fault};
use crate::model::{
    add_doc, del_doc, del_refused, get_doc, has_key, listing, section_entries, set_doc, strs_view,
    unset_doc, Doc,
};
use crate::validate::feature_warnings;

verus! {

/// The operations that a request can ask for.
#[derive(Clone, Copy, Debug, PartialEq, Eq, Structural)]
pub enum Operation {
    SetKey,
    Unset,
    Add,
    Del,
    List,
}

/// What carrying out an operation leaves for the caller to do: whether the
/// document changed and is to be saved, the lines for normal output, and
/// the warnings for the separate warning channel.
pub struct Outcome {
    pub save: bool,
    pub output: Vec<String>,
    pub warnings: Vec<String>,
}

/// The operation changes the document.
pub open spec fn is_mutation(op: Operation) -> bool {
    op != Operation::List
}

/// The document after `op`, where it does not fail.
pub open spec fn after(op: Operation, d: Doc, sec: Seq<char>, key: Seq<char>, vals: Seq<Seq<char>>) -> Doc {
    match op {
        Operation::SetKey => set_doc(d, sec, key, vals),
        Operation::Unset => unset_doc(d, sec, key),
        Operation::Add => add_doc(d, sec, key, vals),
        Operation::Del => del_doc(d, sec, key, vals),
        Operation::List => d,
    }
}

/// How `op` fails, if it does. A listing with an empty key lists the whole section.
pub open spec fn failure(op: Operation, d: Doc, sec: Seq<char>, key: Seq<char>) -> Option<Fault> {
    match op {
        Operation::Del => if del_refused(d, sec, key) {
            Some(Fault::NotAnArray(key))
        } else {
            None
        },
        Operation::List => if !has_key(d, sec) {
            Some(Fault::FeatureNotFound(sec))
        } else if key.len() > 0 && get_doc(d, sec, key) is None {
            Some(Fault::KeyNotFound(key))
        } else {
            None
        },
        _ => None,
    }
}

/// The output lines for one listed key: `key = value` for a single string,
/// else a bracketed block with one indented value per line.
pub open spec fn pair_lines(k: Seq<char>, vs: Seq<Seq<char>>) -> Seq<Seq<char>> {
    if vs.len() == 1 {
        seq![k + " = "@ + vs[0]]
    } else {
        seq![k + " = ["@] + indented(vs) + seq!["]"@]
    }
}

/// Each of `vs` indented by two spaces.
pub open spec fn indented(vs: Seq<Seq<char>>) -> Seq<Seq<char>> {
    Seq::new(vs.len(), |i: int| "  "@ + vs[i])
}

/// The output lines for a whole listing.
pub open spec fn listing_lines(l: Seq<(Seq<char>, Seq<Seq<char>>)>) -> Seq<Seq<char>>
    decreases l.len(),
{
    if l.len() == 0 {
        Seq::empty()
    } else {
        listing_lines(l.drop_last()) + pair_lines(l.last().0, l.last().1)
    }
}

/// The normal output of `op`, where it does not fail.
pub open spec fn output_of(op: Operation, d: Doc, sec: Seq<char>, key: Seq<char>) -> Seq<Seq<char>> {
    if op == Operation::List {
        if key.len() == 0 {
            listing_lines(listing(section_entries(d, sec)))
        } else {
            get_doc(d, sec, key).unwrap()
        }
    } else {
        Seq::empty()
    }
}

/// `r`, with `d0` before and `d1` after, is what carrying out `op` gives.
pub open spec fn carried_out(
    op: Operation,
    d0: Doc,
    d1: Doc,
    sec: Seq<char>,
    key: Seq<char>,
    vals: Seq<Seq<char>>,
    r: Result<Outcome, ConfigError>,
) -> bool {
    match failure(op, d0, sec, key) {
        Some(f) => r matches Err(e) && e@ == f && d1 == d0,
        None => r matches Ok(o) && d1 == after(op, d0, sec, key, vals) && o.save == is_mutation(op)
            && strs_view(o.output@) == output_of(op, d0, sec, key) && strs_view(o.warnings@) == (
        if is_mutation(op) {
            feature_warnings(d1, sec)
        } else {
            Seq::empty()
        }),
    }
}

fn pair_lines_exec(k: &String, vs: &Vec<String>, out: &mut Vec<String>)
    ensures
        strs_view(final(out)@) == strs_view(old(out)@) + pair_lines(k@, strs_view(vs@)),
{
    if vs.len() == 1 {
        let mut line = k.clone();
        line.append(" = ");
        line.append(vs[0].as_str());
        let ghost before = out@;
        out.push(line);
        assert(strs_view(out@) =~= strs_view(before) + pair_lines(k@, strs_view(vs@)));
    } else {
        let ghost before = strs_view(out@);
        let ghost vv = strs_view(vs@);
        let mut head = k.clone();
        head.append(" = [");
        out.push(head);
        let mut i: usize = 0;
        while i < vs.len()
            invariant
                i <= vs@.len(),
                vv == strs_view(vs@),
                strs_view(out@) == before + seq![k@ + " = ["@] + indented(vv.subrange(0, i as int)),
            decreases vs@.len() - i,
        {
            let ghost prev = out@;
            let mut line = String::from_str("  ");
            line.append(vs[i].as_str());
            out.push(line);
            proof {
                assert(indented(vv.subrange(0, i + 1)) =~= indented(vv.subrange(0, i as int)).push("  "@ + vv[i as int]));
                assert(strs_view(out@) =~= strs_view(prev).push("  "@ + vv[i as int]));
            }
            i = i + 1;
        }
        let ghost mid = out@;
        out.push(String::from_str("]"));
        assert(vv.subrange(0, vv.len() as int) =~= vv);
        assert(strs_view(out@) =~= strs_view(mid).push("]"@));
        assert(strs_view(out@) =~= before + pair_lines(k@, vv));
    }
}

/// The output lines of a listing (see [`listing_lines`]).
pub fn format_listing(l: &Vec<(String, Vec<String>)>) -> (r: Vec<String>)
    ensures
        strs_view(r@) == listing_lines(pairs_view(l@)),
{
    let ghost lv = pairs_view(l@);
    let mut out: Vec<String> = Vec::new();
    let mut i: usize = 0;
    while i < l.len()
        invariant
            i <= l@.len(),
            lv == pairs_view(l@),
            strs_view(out@) == listing_lines(lv.subrange(0, i as int)),
        decreases l@.len() - i,
    {
        let ghost p = lv.subrange(0, i + 1);
        assert(p.drop_last() =~= lv.subrange(0, i as int));
        assert(p.last() == lv[i as int]);
        pair_lines_exec(&l[i].0, &l[i].1, &mut out);
        i = i + 1;
    }
    assert(lv.subrange(0, lv.len() as int) =~= lv);
    out
}

/// Carries out `operation` on `key` of `section` with `values`. A mutation
/// is followed by the warnings about the section; a listing with an empty
/// key lists the whole section.
pub fn execute(config: &mut Config, operation: Operation, section: &str, key: &str, values: Vec<String>) -> (r: Result<Outcome, ConfigError>)
    requires
        old(config).wf(),
    ensures
        carried_out(operation, old(config)@, final(config)@, section@, key@, strs_view(values@), r),
        final(config).wf(),
        final(config).path() == old(config).path(),
{
    let ghost vals = strs_view(values@);
    match operation {
        Operation::List => {
            let output = if key.unicode_len() == 0 {
                match config.list_all(section) {
                    Ok(pairs) => format_listing(&pairs),
                    Err(e) => return Err(e),
                }
            } else {
                if config.section(section).is_none() {
                    return Err(ConfigError::FeatureNotFound(section.to_owned()));
                }
                match config.list(section, key) {
                    Ok(v) => v,
                    Err(e) => return Err(e),
                }
            };
            let warnings: Vec<String> = Vec::new();
            assert(strs_view(warnings@) =~= Seq::<Seq<char>>::empty());
            Ok(Outcome { save: false, output, warnings })
        },
        _ => {
            let done = if operation == Operation::SetKey {
                config.set(section, key, values)
            } else if operation == Operation::Unset {
                config.unset(section, key)
            } else if operation == Operation::Add {
                config.add(section, key, values)
            } else {
                config.del(section, key, values)
            };
            if let Err(e) = done {
                return Err(e);
            }
            let warnings = config.validate_feature(section);
            let output: Vec<String> = Vec::new();
            assert(strs_view(output@) =~= Seq::<Seq<char>>::empty());
            Ok(Outcome { save: true, output, warnings })
        },
    }
}

} // verus!
