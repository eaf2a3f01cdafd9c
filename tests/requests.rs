use c2rust_config::config::Config;
use c2rust_config::error::ConfigError;
use c2rust_config::operations::Outcome;
use c2rust_config::request::{run, ConfigArgs};
use c2rust_config::tree::Node;

fn args(mode: &str, feature: Option<&str>, op: &str, key: Option<&str>, values: &[&str]) -> ConfigArgs {
    ConfigArgs {
        global: mode == "global",
        model: mode == "model",
        make: mode == "make",
        feature: feature.map(|f| f.to_string()),
        set: op == "set",
        unset: op == "unset",
        add: op == "add",
        del: op == "del",
        list: op == "list",
        key: key.map(|k| k.to_string()),
        values: values.iter().map(|v| v.to_string()).collect(),
    }
}

/// A configuration whose document holds empty `[global]` and `[model]` tables.
fn fresh() -> Config {
    let root = vec![
        ("global".to_string(), Node::Table(vec![])),
        ("model".to_string(), Node::Table(vec![])),
    ];
    Config::from_tree("config.toml".to_string(), &root)
}

fn ok(c: &mut Config, a: ConfigArgs) -> Outcome {
    match run(a, c) {
        Ok(o) => o,
        Err(e) => panic!("unexpected error: {}", e.message()),
    }
}

fn err(c: &mut Config, a: ConfigArgs) -> String {
    match run(a, c) {
        Ok(_) => panic!("expected an error"),
        Err(e) => e.message(),
    }
}

fn listed(c: &mut Config, mode: &str, feature: Option<&str>, key: Option<&str>) -> String {
    let o = ok(c, args(mode, feature, "list", key, &[]));
    assert!(!o.save);
    let mut s = String::new();
    for line in o.output {
        s.push_str(&line);
        s.push('\n');
    }
    s
}

fn section_names(c: &Config) -> Vec<String> {
    c.sections().iter().map(|s| s.name.clone()).collect()
}

#[test]
fn test_make_set_single_value() {
    let mut c = fresh();
    let o = ok(&mut c, args("make", None, "set", Some("build.dir"), &["build"]));
    assert!(o.save);
    assert!(section_names(&c).contains(&"feature.default".to_string()));
    assert_eq!(c.list("feature.default", "build.dir").unwrap(), vec!["build".to_string()]);
}

#[test]
fn test_make_set_multiple_values() {
    let mut c = fresh();
    ok(&mut c, args("make", None, "set", Some("compiler"), &["gcc", "clang"]));
    assert_eq!(c.list("feature.default", "compiler").unwrap(), vec!["gcc", "clang"]);
}

#[test]
fn test_make_add_to_array() {
    let mut c = fresh();
    ok(&mut c, args("make", None, "add", Some("build.files.0"), &["main.c", "debug.c"]));
    ok(&mut c, args("make", None, "add", Some("build.files.0"), &["common.c"]));
    assert_eq!(c.list("feature.default", "build.files.0").unwrap(), vec!["main.c", "debug.c", "common.c"]);
}

#[test]
fn test_make_del_from_array() {
    let mut c = fresh();
    ok(&mut c, args("make", None, "add", Some("build.files.0"), &["main.c", "debug.c", "test.c"]));
    ok(&mut c, args("make", None, "del", Some("build.files.0"), &["debug.c"]));
    assert_eq!(c.list("feature.default", "build.files.0").unwrap(), vec!["main.c", "test.c"]);
}

#[test]
fn test_make_list_single_value() {
    let mut c = fresh();
    ok(&mut c, args("make", None, "set", Some("build.dir"), &["build"]));
    assert!(listed(&mut c, "make", None, None).contains("build.dir = build"));
}

#[test]
fn test_make_list_array_values() {
    let mut c = fresh();
    ok(&mut c, args("make", None, "add", Some("compiler"), &["gcc", "clang", "msvc"]));
    let out = listed(&mut c, "make", None, None);
    assert!(out.contains("compiler = ["));
    assert!(out.contains("gcc"));
    assert!(out.contains("clang"));
    assert!(out.contains("msvc"));
    assert_eq!(out, "compiler = [\n  gcc\n  clang\n  msvc\n]\n");
}

#[test]
fn test_make_unset_key() {
    let mut c = fresh();
    ok(&mut c, args("make", None, "set", Some("build.dir"), &["build"]));
    ok(&mut c, args("make", None, "unset", Some("build.dir"), &[]));
    assert!(c.list("feature.default", "build.dir").is_err());
}

#[test]
fn test_make_list_nonexistent_feature() {
    let mut c = fresh();
    let e = err(&mut c, args("make", Some("nonexistent"), "list", None, &[]));
    assert!(e.contains("feature 'feature.nonexistent' not found"));
}

#[test]
fn test_make_with_custom_feature() {
    let mut c = fresh();
    ok(&mut c, args("make", Some("debug"), "set", Some("build.dir"), &["debug_build"]));
    assert!(section_names(&c).contains(&"feature.debug".to_string()));
    assert_eq!(c.list("feature.debug", "build.dir").unwrap(), vec!["debug_build"]);
}

#[test]
fn test_feature_name_lowercase() {
    let mut c = fresh();
    ok(&mut c, args("make", Some("DEBUG"), "set", Some("build.dir"), &["build"]));
    assert!(section_names(&c).contains(&"feature.debug".to_string()));
}

#[test]
fn test_model_set() {
    let mut c = fresh();
    ok(&mut c, args("model", None, "set", Some("api_key"), &["test-key-123"]));
    assert!(section_names(&c).contains(&"model".to_string()));
    assert_eq!(c.list("model", "api_key").unwrap(), vec!["test-key-123"]);
}

#[test]
fn test_model_list() {
    let mut c = fresh();
    ok(&mut c, args("model", None, "set", Some("api_key"), &["test-key-123"]));
    assert!(listed(&mut c, "model", None, None).contains("api_key = test-key-123"));
}

#[test]
fn test_global_set() {
    let mut c = fresh();
    ok(&mut c, args("global", None, "set", Some("compiler"), &["gcc", "clang"]));
    assert!(section_names(&c).contains(&"global".to_string()));
    assert_eq!(c.list("global", "compiler").unwrap(), vec!["gcc", "clang"]);
}

#[test]
fn test_global_list() {
    let mut c = fresh();
    ok(&mut c, args("global", None, "set", Some("compiler"), &["gcc"]));
    assert!(listed(&mut c, "global", None, None).contains("compiler = gcc"));
}

#[test]
fn test_nested_keys() {
    let mut c = fresh();
    ok(&mut c, args("make", None, "set", Some("build.options.debug"), &["-g", "-O0"]));
    assert_eq!(c.list("feature.default", "build.options.debug").unwrap(), vec!["-g", "-O0"]);
}

#[test]
fn test_complex_workflow() {
    let mut c = fresh();
    let steps: [(&str, &str); 7] = [
        ("compiler", "gcc"),
        ("build.dir", "build"),
        ("build.cmd", "make"),
        ("clean.dir", "build"),
        ("clean.cmd", "make clean"),
        ("test.dir", "build"),
        ("test.cmd", "make test"),
    ];
    for (k, v) in steps.iter() {
        ok(&mut c, args("make", None, "set", Some(k), &[v]));
    }
    for (k, v) in steps.iter() {
        assert_eq!(c.list("feature.default", k).unwrap(), vec![v.to_string()]);
    }
}

#[test]
fn test_feature_incomplete_warning() {
    let mut c = fresh();
    let o = ok(&mut c, args("make", None, "set", Some("build.dir"), &["build"]));
    let all = o.warnings.join("\n");
    assert!(all.contains("Warning"));
    assert!(all.contains("missing required keys"));
}

#[test]
fn test_feature_complete_no_warning() {
    let mut c = fresh();
    let steps: [(&str, &str); 6] = [
        ("build.dir", "build"),
        ("build", "make"),
        ("clean.dir", "build"),
        ("clean", "make clean"),
        ("test.dir", "build"),
        ("test", "make test"),
    ];
    let mut last = Vec::new();
    for (k, v) in steps.iter() {
        last = ok(&mut c, args("make", None, "set", Some(k), &[v])).warnings;
    }
    assert!(!last.join("\n").contains("missing required keys"));
}

#[test]
fn test_list_empty_section() {
    let mut c = fresh();
    assert_eq!(listed(&mut c, "global", None, None), "");
}

#[test]
fn test_list_global() {
    let mut c = fresh();
    ok(&mut c, args("global", None, "set", Some("compiler"), &["gcc"]));
    assert!(listed(&mut c, "global", None, None).contains("compiler = gcc"));
}

#[test]
fn test_list_with_arrays() {
    let mut c = fresh();
    ok(&mut c, args("make", None, "set", Some("build.dir"), &["build"]));
    ok(&mut c, args("make", None, "add", Some("build.files.0"), &["main.c", "test.c"]));
    let out = listed(&mut c, "make", None, None);
    assert!(out.contains("build.dir = build"));
    assert!(out.contains("build.files.0 = ["));
    assert!(out.contains("main.c"));
    assert!(out.contains("test.c"));
}

#[test]
fn test_validation_no_mode_specified() {
    let mut c = fresh();
    let e = err(&mut c, args("", None, "set", Some("test"), &["value"]));
    assert!(e.contains("Exactly one of --global, --model, or --make must be specified"));
}

#[test]
fn test_validation_no_operation_specified() {
    let mut c = fresh();
    let e = err(&mut c, args("global", None, "", Some("test"), &["value"]));
    assert!(e.contains("Exactly one of --set, --unset, --add, --del, or --list must be specified"));
}

#[test]
fn test_validation_feature_without_make() {
    let mut c = fresh();
    let e = err(&mut c, args("global", Some("debug"), "set", Some("test"), &["value"]));
    assert!(e.contains("--feature can only be used with --make"));
    let e = err(&mut c, args("model", Some("debug"), "set", Some("test"), &["value"]));
    assert!(e.contains("--feature can only be used with --make"));
}

#[test]
fn test_validation_feature_with_make_works() {
    let mut c = fresh();
    ok(&mut c, args("make", Some("debug"), "set", Some("compiler"), &["gcc"]));
}

#[test]
fn test_list_specific_key_single_value() {
    let mut c = fresh();
    ok(&mut c, args("make", None, "set", Some("build.dir"), &["build"]));
    ok(&mut c, args("make", None, "set", Some("clean.cmd"), &["make clean"]));
    assert_eq!(listed(&mut c, "make", None, Some("build.dir")), "build\n");
    assert_eq!(listed(&mut c, "make", None, Some("clean.cmd")), "make clean\n");
}

#[test]
fn test_list_specific_key_array_values() {
    let mut c = fresh();
    ok(&mut c, args("make", None, "add", Some("build.files.0"), &["main.c", "test.c", "common.c"]));
    assert_eq!(listed(&mut c, "make", None, Some("build.files.0")), "main.c\ntest.c\ncommon.c\n");
}

#[test]
fn test_list_nonexistent_key() {
    let mut c = fresh();
    ok(&mut c, args("make", None, "set", Some("build.dir"), &["build"]));
    let e = err(&mut c, args("make", None, "list", Some("nonexistent.key"), &[]));
    assert!(e.contains("key 'nonexistent.key' not found"));
}

#[test]
fn test_list_all_vs_specific_key() {
    let mut c = fresh();
    ok(&mut c, args("make", None, "set", Some("build.dir"), &["build"]));
    ok(&mut c, args("make", None, "set", Some("clean.dir"), &["build"]));
    ok(&mut c, args("make", None, "set", Some("test.dir"), &["test"]));
    let all = listed(&mut c, "make", None, None);
    assert!(all.contains("build.dir = build"));
    assert!(all.contains("clean.dir = build"));
    assert!(all.contains("test.dir = test"));
    assert_eq!(listed(&mut c, "make", None, Some("build.dir")), "build\n");
}

#[test]
fn test_set_override_existing_value() {
    let mut c = fresh();
    ok(&mut c, args("make", None, "set", Some("build.dir"), &["build"]));
    assert_eq!(c.list("feature.default", "build.dir").unwrap(), vec!["build"]);
    ok(&mut c, args("make", None, "set", Some("build.dir"), &["new_build"]));
    assert_eq!(c.list("feature.default", "build.dir").unwrap(), vec!["new_build"]);
}

#[test]
fn test_set_single_key_no_duplicates() {
    let mut c = fresh();
    for v in ["build", "debug", "release"] {
        ok(&mut c, args("make", None, "set", Some("build.dir"), &[v]));
    }
    let entries = c.section("feature.default").unwrap();
    let occurrences = entries.iter().filter(|e| e.key == "build.dir").count();
    assert_eq!(occurrences, 1, "build.dir should only appear once in config, but found {} occurrences", occurrences);
    assert_eq!(c.list("feature.default", "build.dir").unwrap(), vec!["release"]);
}

#[test]
fn test_model_set_scalar() {
    let mut c = fresh();
    ok(&mut c, args("model", None, "set", Some("compiler"), &["gcc"]));
    assert_eq!(listed(&mut c, "model", None, Some("compiler")), "gcc\n");
}

#[test]
fn test_model_set_array() {
    let mut c = fresh();
    ok(&mut c, args("model", None, "set", Some("options"), &["opt1", "opt2", "opt3"]));
    assert_eq!(listed(&mut c, "model", None, Some("options")), "opt1\nopt2\nopt3\n");
}

#[test]
fn test_model_add_to_array() {
    let mut c = fresh();
    ok(&mut c, args("model", None, "set", Some("flags"), &["flag1"]));
    ok(&mut c, args("model", None, "add", Some("flags"), &["flag2", "flag3"]));
    assert_eq!(listed(&mut c, "model", None, Some("flags")), "flag1\nflag2\nflag3\n");
}

#[test]
fn test_model_del_from_array() {
    let mut c = fresh();
    ok(&mut c, args("model", None, "set", Some("items"), &["a", "b", "c"]));
    ok(&mut c, args("model", None, "del", Some("items"), &["b"]));
    assert_eq!(listed(&mut c, "model", None, Some("items")), "a\nc\n");
}

#[test]
fn test_model_unset() {
    let mut c = fresh();
    ok(&mut c, args("model", None, "set", Some("temp_key"), &["temp_value"]));
    ok(&mut c, args("model", None, "unset", Some("temp_key"), &[]));
    let e = err(&mut c, args("model", None, "list", Some("temp_key"), &[]));
    assert!(e.contains("not found"));
}

#[test]
fn test_feature_default() {
    let mut c = fresh();
    ok(&mut c, args("make", None, "set", Some("build.dir"), &["/tmp/build"]));
    assert!(section_names(&c).contains(&"feature.default".to_string()));
    assert_eq!(listed(&mut c, "make", None, Some("build.dir")), "/tmp/build\n");
}

#[test]
fn test_feature_case_insensitive() {
    let mut c = fresh();
    ok(&mut c, args("make", Some("DEFAULT"), "set", Some("test"), &["value1"]));
    ok(&mut c, args("make", Some("default"), "set", Some("test2"), &["value2"]));
    let n = section_names(&c).iter().filter(|s| s.as_str() == "feature.default").count();
    assert_eq!(n, 1, "Should have exactly one [feature.default] section");
    assert_eq!(c.list("feature.default", "test").unwrap(), vec!["value1"]);
    assert_eq!(c.list("feature.default", "test2").unwrap(), vec!["value2"]);
}

#[test]
fn test_feature_named() {
    let mut c = fresh();
    ok(&mut c, args("make", Some("debug"), "set", Some("compiler"), &["clang"]));
    assert!(section_names(&c).contains(&"feature.debug".to_string()));
    assert_eq!(c.list("feature.debug", "compiler").unwrap(), vec!["clang"]);
}

#[test]
fn test_feature_missing_on_list() {
    let mut c = fresh();
    let e = err(&mut c, args("make", Some("nonexistent"), "list", Some("key"), &[]));
    assert!(e.to_lowercase().contains("feature"));
}

#[test]
fn test_key_not_found_on_list() {
    let mut c = fresh();
    ok(&mut c, args("make", None, "set", Some("existing"), &["value"]));
    let e = err(&mut c, args("make", None, "list", Some("nonexistent"), &[]));
    assert!(e.contains("not found"));
}

#[test]
fn test_dot_notation_nested_keys() {
    let mut c = fresh();
    ok(&mut c, args("model", None, "set", Some("build.compiler.name"), &["gcc"]));
    assert_eq!(listed(&mut c, "model", None, Some("build.compiler.name")), "gcc\n");
}

#[test]
fn test_persistence() {
    let mut c = fresh();
    ok(&mut c, args("model", None, "set", Some("key1"), &["value1"]));
    ok(&mut c, args("make", None, "set", Some("key2"), &["value2"]));
    assert_eq!(listed(&mut c, "model", None, Some("key1")), "value1\n");
    assert_eq!(listed(&mut c, "make", None, Some("key2")), "value2\n");
}

#[test]
fn test_del_on_nonexistent_key_is_noop() {
    let mut c = fresh();
    let o = ok(&mut c, args("model", None, "del", Some("nonexistent"), &["value"]));
    assert!(o.save);
}

#[test]
fn requests_without_key_are_refused() {
    let mut c = fresh();
    assert!(err(&mut c, args("make", None, "set", None, &["v"])).contains("--set requires a key"));
    assert!(err(&mut c, args("make", None, "unset", None, &[])).contains("--unset requires a key"));
    assert!(err(&mut c, args("make", None, "add", None, &["v"])).contains("--add requires a key"));
    assert!(err(&mut c, args("make", None, "del", None, &["v"])).contains("--del requires a key"));
}

#[test]
fn requests_without_values_are_refused() {
    let mut c = fresh();
    assert!(err(&mut c, args("make", None, "set", Some("k"), &[])).contains("No values provided for set operation"));
    assert!(err(&mut c, args("make", None, "add", Some("k"), &[])).contains("No values provided for add operation"));
    assert!(err(&mut c, args("make", None, "del", Some("k"), &[])).contains("No values provided for del operation"));
}

#[test]
fn multiple_modes_or_operations_are_refused() {
    let mut c = fresh();
    let mut a = args("global", None, "set", Some("k"), &["v"]);
    a.model = true;
    let e = err(&mut c, a);
    assert!(e.contains("Exactly one of --global, --model, or --make must be specified"));
    let mut a = args("global", None, "set", Some("k"), &["v"]);
    a.unset = true;
    let e = err(&mut c, a);
    assert!(e.contains("Exactly one of --set, --unset, --add, --del, or --list must be specified"));
}

#[test]
fn del_on_scalar_is_refused() {
    let mut c = fresh();
    ok(&mut c, args("model", None, "set", Some("k"), &["one"]));
    match run(args("model", None, "del", Some("k"), &["one"]), &mut c) {
        Err(ConfigError::NotAnArray(k)) => assert_eq!(k, "k"),
        _ => panic!("expected NotAnArray"),
    }
    assert_eq!(c.list("model", "k").unwrap(), vec!["one"]);
}
