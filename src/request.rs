//! A request as the command line states it: which section, which operation,
//! which key and values. It is checked, resolved and carried out here.
use vstd::prelude::*;
use crate::config::Config;
use crate::error::{ConfigError, Fault};
use crate::operations::{carried_out, execute, Operation, Outcome};
use crate::model::strs_view;

verus! {

/// The arguments of a request: one mode flag, an optional feature name for
/// the `make` mode, one operation flag, the key and the values.
pub struct ConfigArgs {
    pub global: bool,
    pub model: bool,
    pub make: bool,
    pub feature: Option<String>,
    pub set: bool,
    pub unset: bool,
    pub add: bool,
    pub del: bool,
    pub list: bool,
    pub key: Option<String>,
    pub values: Vec<String>,
}

/// A checked request: the operation, the section it addresses, its key
/// (empty for a listing of the whole section) and its values.
pub struct Request {
    pub op: Operation,
    pub section: Seq<char>,
    pub key: Seq<char>,
    pub values: Seq<Seq<char>>,
}

/// What `str::to_lowercase` makes of a string.
pub uninterp spec fn lower_of(s: Seq<char>) -> Seq<char>;

/// Relies on `str::to_lowercase`: the lowercase form of `s`, which depends on
/// its characters alone.
#[verifier::external_body]
fn lowercase(s: &str) -> (r: String)
    ensures
        r@ == lower_of(s@),
{
    s.to_lowercase()
}

/// 1 for a flag that is given, 0 otherwise.
pub open spec fn flag(b: bool) -> int {
    if b {
        1
    } else {
        0
    }
}

/// The section of a feature whose name has already been case-folded.
pub open spec fn feature_name(folded: Seq<char>) -> Seq<char> {
    "feature."@ + folded
}

/// The section that the mode flags select. A feature name is case-folded;
/// without one the feature is `default`.
pub open spec fn section_for(args: ConfigArgs) -> Seq<char> {
    if args.global {
        "global"@
    } else if args.model {
        "model"@
    } else {
        match args.feature {
            Some(f) => feature_name(lower_of(f@)),
            None => feature_name("default"@),
        }
    }
}

/// The operation that the operation flags select.
pub open spec fn op_for(args: ConfigArgs) -> Operation {
    if args.set {
        Operation::SetKey
    } else if args.unset {
        Operation::Unset
    } else if args.add {
        Operation::Add
    } else if args.del {
        Operation::Del
    } else {
        Operation::List
    }
}

/// The refusal of an operation that needs a key and was given none.
pub open spec fn requires_key_text(op: Operation) -> Seq<char> {
    match op {
        Operation::SetKey => "--set requires a key"@,
        Operation::Unset => "--unset requires a key"@,
        Operation::Add => "--add requires a key"@,
        _ => "--del requires a key"@,
    }
}

/// The refusal of an operation that needs values and was given none.
pub open spec fn no_values_text(op: Operation) -> Seq<char> {
    match op {
        Operation::SetKey => "No values provided for set operation"@,
        Operation::Add => "No values provided for add operation"@,
        _ => "No values provided for del operation"@,
    }
}

/// The request that `args` state, or why they state none.
pub open spec fn request_of(args: ConfigArgs) -> Result<Request, Fault> {
    let op = op_for(args);
    if flag(args.global) + flag(args.model) + flag(args.make) != 1 {
        Err(Fault::InvalidOperation("Exactly one of --global, --model, or --make must be specified"@))
    } else if flag(args.set) + flag(args.unset) + flag(args.add) + flag(args.del) + flag(args.list) != 1 {
        Err(Fault::InvalidOperation("Exactly one of --set, --unset, --add, --del, or --list must be specified"@))
    } else if args.feature is Some && !args.make {
        Err(Fault::InvalidOperation("--feature can only be used with --make"@))
    } else if op == Operation::List {
        Ok(Request {
            op,
            section: section_for(args),
            key: match args.key {
                Some(k) => k@,
                None => Seq::empty(),
            },
            values: Seq::empty(),
        })
    } else if args.key is None {
        Err(Fault::InvalidOperation(requires_key_text(op)))
    } else if op != Operation::Unset && args.values@.len() == 0 {
        Err(Fault::InvalidOperation(no_values_text(op)))
    } else {
        Ok(Request {
            op,
            section: section_for(args),
            key: args.key->Some_0@,
            values: if op == Operation::Unset { Seq::empty() } else { strs_view(args.values@) },
        })
    }
}

/// The section of the feature whose case-folded name is `folded`.
pub fn feature_section(folded: &str) -> (r: String)
    ensures
        r@ == feature_name(folded@),
{
    let mut r = String::from_str("feature.");
    r.append(folded);
    r
}

fn invalid(text: &str) -> (r: Result<Outcome, ConfigError>)
    ensures
        r matches Err(e) && e@ == Fault::InvalidOperation(text@),
{
    Err(ConfigError::InvalidOperation(text.to_owned()))
}

/// Checks `args`, resolves the section they address and carries out their
/// operation on `config`.
pub fn run(args: ConfigArgs, config: &mut Config) -> (r: Result<Outcome, ConfigError>)
    requires
        old(config).wf(),
    ensures
        match request_of(args) {
            Err(f) => (r matches Err(e) && e@ == f) && final(config)@ == old(config)@,
            Ok(q) => carried_out(q.op, old(config)@, final(config)@, q.section, q.key, q.values, r),
        },
        final(config).wf(),
        final(config).path() == old(config).path(),
{
    let ghost a = args;
    let modes: u8 = (if args.global { 1u8 } else { 0u8 }) + (if args.model { 1u8 } else { 0u8 }) + (
    if args.make {
        1u8
    } else {
        0u8
    });
    if modes != 1 {
        return invalid("Exactly one of --global, --model, or --make must be specified");
    }
    let ops: u8 = (if args.set { 1u8 } else { 0u8 }) + (if args.unset { 1u8 } else { 0u8 }) + (
    if args.add {
        1u8
    } else {
        0u8
    }) + (if args.del { 1u8 } else { 0u8 }) + (if args.list { 1u8 } else { 0u8 });
    if ops != 1 {
        return invalid("Exactly one of --set, --unset, --add, --del, or --list must be specified");
    }
    if args.feature.is_some() && !args.make {
        return invalid("--feature can only be used with --make");
    }
    let section = if args.global {
        String::from_str("global")
    } else if args.model {
        String::from_str("model")
    } else {
        match &args.feature {
            Some(f) => {
                let folded = lowercase(f.as_str());
                feature_section(folded.as_str())
            },
            None => feature_section("default"),
        }
    };
    assert(section@ == section_for(a));
    let op = if args.set {
        Operation::SetKey
    } else if args.unset {
        Operation::Unset
    } else if args.add {
        Operation::Add
    } else if args.del {
        Operation::Del
    } else {
        Operation::List
    };
    let ConfigArgs { key, values, .. } = args;
    if op == Operation::List {
        let k = match key {
            Some(k) => k,
            None => String::new(),
        };
        return execute(config, op, section.as_str(), k.as_str(), Vec::new());
    }
    let k = match key {
        Some(k) => k,
        None => {
            if op == Operation::SetKey {
                return invalid("--set requires a key");
            } else if op == Operation::Unset {
                return invalid("--unset requires a key");
            } else if op == Operation::Add {
                return invalid("--add requires a key");
            } else {
                return invalid("--del requires a key");
            }
        },
    };
    if op == Operation::Unset {
        return execute(config, op, section.as_str(), k.as_str(), Vec::new());
    }
    if values.len() == 0 {
        if op == Operation::SetKey {
            return invalid("No values provided for set operation");
        } else if op == Operation::Add {
            return invalid("No values provided for add operation");
        } else {
            return invalid("No values provided for del operation");
        }
    }
    execute(config, op, section.as_str(), k.as_str(), values)
}

} // verus!
