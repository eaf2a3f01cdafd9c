use c2rust_config::config::Config;
use c2rust_config::error::ConfigError;
use c2rust_config::model::Value;
use c2rust_config::operations::{execute, format_listing, Operation};
use c2rust_config::request::feature_section;
use c2rust_config::text::{decimal_string, join_strings, parse_index, starts_with};
use c2rust_config::tree::Node;

fn strs(v: &[&str]) -> Vec<String> {
    v.iter().map(|s| s.to_string()).collect()
}

fn scalar(s: &str) -> Node {
    Node::Scalar(s.to_string())
}

fn table(items: Vec<(&str, Node)>) -> Node {
    Node::Table(items.into_iter().map(|(k, n)| (k.to_string(), n)).collect())
}

fn empty() -> Config {
    Config::new("config.toml".to_string())
}

#[test]
fn test_nested_structure_flattening() {
    let root = vec![
        ("global".to_string(), table(vec![("compiler", Node::Array(strs(&["gcc"])))])),
        ("model".to_string(), table(vec![("api_key", scalar("your-api-key"))])),
        (
            "feature".to_string(),
            table(vec![(
                "default",
                table(vec![
                    ("clean", table(vec![("cmd", scalar("make clean")), ("dir", scalar("build"))])),
                    ("test", table(vec![("cmd", scalar("make test")), ("dir", scalar("build"))])),
                    ("build", table(vec![("cmd", scalar("make")), ("dir", scalar("build"))])),
                ]),
            )]),
        ),
    ];
    let mut c = Config::from_tree("config.toml".to_string(), &root);
    let lines = format_listing(&c.list_all("feature.default").unwrap()).join("\n");
    assert!(lines.contains("clean.cmd = make clean"));
    assert!(lines.contains("clean.dir = build"));
    assert!(lines.contains("test.cmd = make test"));
    assert!(lines.contains("build.cmd = make"));
    c.set("feature.default", "build.cmd", strs(&["make VERBOSE=1"])).unwrap();
    let keys: Vec<String> = c.section("feature.default").unwrap().iter().map(|e| e.key.clone()).collect();
    assert_eq!(keys, strs(&["clean.cmd", "clean.dir", "test.cmd", "test.dir", "build.cmd", "build.dir"]));
    assert_eq!(c.list("feature.default", "build.cmd").unwrap(), strs(&["make VERBOSE=1"]));
    assert_eq!(c.list("feature.default", "clean.cmd").unwrap(), strs(&["make clean"]));
    // written back, the feature is one table of dotted keys
    let tree = c.to_tree();
    assert_eq!(tree.len(), 3);
    assert_eq!(tree[2].0, "feature");
    match &tree[2].1 {
        Node::Table(fs) => {
            assert_eq!(fs.len(), 1);
            assert_eq!(fs[0].0, "default");
            match &fs[0].1 {
                Node::Table(items) => {
                    assert_eq!(items.len(), 6);
                    assert!(items.iter().all(|(_, n)| !matches!(n, Node::Table(_))));
                }
                _ => panic!("expected a table"),
            }
        }
        _ => panic!("expected a table"),
    }
}

#[test]
fn test_list_non_string_values() {
    let root = vec![
        ("global".to_string(), table(vec![])),
        ("model".to_string(), table(vec![])),
        (
            "feature".to_string(),
            table(vec![(
                "default",
                table(vec![("port", scalar("8080")), ("debug", scalar("true")), ("ratio", scalar("3.14"))]),
            )]),
        ),
    ];
    let c = Config::from_tree("config.toml".to_string(), &root);
    assert_eq!(c.list("feature.default", "port").unwrap(), strs(&["8080"]));
    assert_eq!(c.list("feature.default", "debug").unwrap(), strs(&["true"]));
    assert_eq!(c.list("feature.default", "ratio").unwrap(), strs(&["3.14"]));
}

#[test]
fn set_then_get_returns_the_single_value() {
    let mut c = empty();
    c.set("global", "compiler", strs(&["gcc"])).unwrap();
    assert_eq!(c.list("global", "compiler").unwrap(), strs(&["gcc"]));
    assert!(matches!(&c.section("global").unwrap()[0].value, Value::Scalar(s) if s == "gcc"));
}

#[test]
fn set_then_get_keeps_array_order() {
    let mut c = empty();
    c.set("model", "k", strs(&["c", "a", "b", "a"])).unwrap();
    assert_eq!(c.list("model", "k").unwrap(), strs(&["c", "a", "b", "a"]));
}

#[test]
fn set_replaces_an_array_with_a_scalar() {
    let mut c = empty();
    c.set("model", "k", strs(&["a", "b"])).unwrap();
    c.set("model", "k", strs(&["z"])).unwrap();
    assert_eq!(c.list("model", "k").unwrap(), strs(&["z"]));
}

#[test]
fn set_of_no_values_stores_an_empty_array() {
    let mut c = empty();
    c.set("model", "k", vec![]).unwrap();
    assert_eq!(c.list("model", "k").unwrap(), Vec::<String>::new());
    assert_eq!(c.list_all("model").unwrap().len(), 0);
}

#[test]
fn flattening_a_flat_section_changes_nothing() {
    let root = vec![(
        "model".to_string(),
        table(vec![("a.b", scalar("1")), ("c", Node::Array(strs(&["x", "y"]))), ("d.e.f", scalar("2"))]),
    )];
    let c = Config::from_tree("p".to_string(), &root);
    let again = Config::from_tree("p".to_string(), &c.to_tree());
    for cfg in [&c, &again] {
        let entries = cfg.section("model").unwrap();
        let keys: Vec<&str> = entries.iter().map(|e| e.key.as_str()).collect();
        assert_eq!(keys, vec!["a.b", "c", "d.e.f"]);
        assert_eq!(cfg.list("model", "c").unwrap(), strs(&["x", "y"]));
        assert_eq!(cfg.list("model", "d.e.f").unwrap(), strs(&["2"]));
    }
}

#[test]
fn flattening_drops_empty_tables_and_later_paths_win() {
    let root = vec![(
        "model".to_string(),
        table(vec![("a.b", scalar("flat")), ("a", table(vec![("b", scalar("nested")), ("e", table(vec![]))]))]),
    )];
    let c = Config::from_tree("p".to_string(), &root);
    assert_eq!(c.section("model").unwrap().len(), 1);
    assert_eq!(c.list("model", "a.b").unwrap(), strs(&["nested"]));
}

#[test]
fn add_promotes_a_scalar() {
    let mut c = empty();
    c.set("feature.x", "k", strs(&["x"])).unwrap();
    c.add("feature.x", "k", strs(&["y"])).unwrap();
    assert_eq!(c.list("feature.x", "k").unwrap(), strs(&["x", "y"]));
}

#[test]
fn add_keeps_duplicates() {
    let mut c = empty();
    c.add("model", "k", strs(&["a"])).unwrap();
    c.add("model", "k", strs(&["a", "b"])).unwrap();
    assert_eq!(c.list("model", "k").unwrap(), strs(&["a", "a", "b"]));
}

#[test]
fn del_removes_every_occurrence() {
    let mut c = empty();
    c.set("model", "k", strs(&["a", "b", "a", "c"])).unwrap();
    c.del("model", "k", strs(&["a"])).unwrap();
    assert_eq!(c.list("model", "k").unwrap(), strs(&["b", "c"]));
}

#[test]
fn unset_and_del_on_absence_change_nothing() {
    let mut c = empty();
    c.unset("model", "k").unwrap();
    c.del("model", "k", strs(&["a"])).unwrap();
    assert_eq!(c.sections().len(), 0);
    c.set("model", "other", strs(&["1"])).unwrap();
    c.unset("model", "k").unwrap();
    c.del("model", "k", strs(&["a"])).unwrap();
    assert_eq!(c.section("model").unwrap().len(), 1);
    assert_eq!(c.list("model", "other").unwrap(), strs(&["1"]));
}

#[test]
fn list_errors_name_section_or_key() {
    let mut c = empty();
    assert!(matches!(c.list("model", "k"), Err(ConfigError::FeatureNotFound(s)) if s == "model"));
    assert!(matches!(c.list_all("model"), Err(ConfigError::FeatureNotFound(s)) if s == "model"));
    c.set("model", "a", strs(&["1"])).unwrap();
    assert!(matches!(c.list("model", "k"), Err(ConfigError::KeyNotFound(s)) if s == "k"));
}

#[test]
fn list_all_of_an_empty_section_is_empty() {
    let root = vec![("global".to_string(), table(vec![]))];
    let c = Config::from_tree("p".to_string(), &root);
    assert_eq!(c.list_all("global").unwrap().len(), 0);
}

#[test]
fn list_all_skips_empty_arrays() {
    let mut c = empty();
    c.set("model", "a", strs(&["1"])).unwrap();
    c.set("model", "b", vec![]).unwrap();
    c.set("model", "c", strs(&["x", "y"])).unwrap();
    let l = c.list_all("model").unwrap();
    assert_eq!(l, vec![("a".to_string(), strs(&["1"])), ("c".to_string(), strs(&["x", "y"]))]);
    assert_eq!(format_listing(&l), strs(&["a = 1", "c = [", "  x", "  y", "]"]));
}

#[test]
fn required_group_warning_names_the_five_missing_keys() {
    let mut c = empty();
    c.set("feature.f", "build.dir", strs(&["build"])).unwrap();
    let w = c.validate_feature("feature.f");
    assert_eq!(
        w,
        strs(&["Warning: Feature 'feature.f' is missing required keys: clean.dir, clean, test.dir, test, build. All of [clean.dir, clean, test.dir, test, build.dir, build] should be configured together."])
    );
    for k in ["clean.dir", "clean", "test.dir", "test", "build"] {
        c.set("feature.f", k, strs(&["v"])).unwrap();
    }
    assert!(c.validate_feature("feature.f").is_empty());
}

#[test]
fn global_and_model_are_not_validated() {
    let mut c = empty();
    c.set("model", "build.dir", strs(&["b"])).unwrap();
    c.set("global", "build.dir", strs(&["b"])).unwrap();
    assert!(c.validate_feature("model").is_empty());
    assert!(c.validate_feature("global").is_empty());
    assert!(c.validate_feature("feature.absent").is_empty());
}

#[test]
fn index_beyond_options_is_warned() {
    let mut c = empty();
    c.set("feature.f", "build.options", strs(&["-O0", "-O2"])).unwrap();
    c.add("feature.f", "build.files.0", strs(&["a.c"])).unwrap();
    c.add("feature.f", "build.files.1", strs(&["b.c"])).unwrap();
    assert!(c.validate_feature("feature.f").is_empty());
    c.add("feature.f", "build.files.2", strs(&["c.c"])).unwrap();
    assert_eq!(
        c.validate_feature("feature.f"),
        strs(&["Warning: Feature 'feature.f' has build.files.2 but only 2 build.options entries. build.files.X indices should not exceed build.options array length."])
    );
}

#[test]
fn index_check_ignores_malformed_indices_and_scalar_options() {
    let mut c = empty();
    c.add("feature.f", "build.options", strs(&["-O0"])).unwrap();
    c.add("feature.f", "build.files.x", strs(&["a.c"])).unwrap();
    c.add("feature.f", "build.files.99999999999", strs(&["a.c"])).unwrap();
    assert!(c.validate_feature("feature.f").is_empty());
    c.add("feature.f", "build.files.+12", strs(&["a.c"])).unwrap();
    assert_eq!(c.validate_feature("feature.f").len(), 1);
    assert!(c.validate_feature("feature.f")[0].contains("build.files.12 but only 1 build.options"));
    c.set("feature.g", "build.options", strs(&["one"])).unwrap();
    c.add("feature.g", "build.files.5", strs(&["a.c"])).unwrap();
    assert!(c.validate_feature("feature.g").is_empty());
}

#[test]
fn both_warnings_come_in_order() {
    let mut c = empty();
    c.set("feature.f", "build.dir", strs(&["b"])).unwrap();
    c.set("feature.f", "build.options", strs(&["-O0", "-O2"])).unwrap();
    c.add("feature.f", "build.files.7", strs(&["a.c"])).unwrap();
    let w = c.validate_feature("feature.f");
    assert_eq!(w.len(), 2);
    assert!(w[0].contains("missing required keys"));
    assert!(w[1].contains("build.files.7 but only 2"));
}

#[test]
fn feature_case_fold_targets_one_section() {
    assert_eq!(feature_section("debug"), "feature.debug");
    let mut c = empty();
    let r = c_run(&mut c, "DEBUG", "set", "k", &["v"]);
    assert!(r);
    let r = c_run(&mut c, "debug", "list", "k", &[]);
    assert!(r);
    assert_eq!(c.sections().len(), 1);
    assert_eq!(c.sections()[0].name, "feature.debug");
}

fn c_run(c: &mut Config, feature: &str, op: &str, key: &str, values: &[&str]) -> bool {
    let a = c2rust_config::request::ConfigArgs {
        global: false,
        model: false,
        make: true,
        feature: Some(feature.to_string()),
        set: op == "set",
        unset: false,
        add: false,
        del: false,
        list: op == "list",
        key: Some(key.to_string()),
        values: strs(values),
    };
    match c2rust_config::request::run(a, c) {
        Ok(o) => op != "list" || o.output == strs(&["v"]),
        Err(_) => false,
    }
}

#[test]
fn execute_lists_a_whole_section_for_an_empty_key() {
    let mut c = empty();
    c.set("model", "a", strs(&["1"])).unwrap();
    let o = execute(&mut c, Operation::List, "model", "", vec![]).unwrap();
    assert!(!o.save);
    assert_eq!(o.output, strs(&["a = 1"]));
    let o = execute(&mut c, Operation::SetKey, "model", "b", strs(&["2", "3"])).unwrap();
    assert!(o.save);
    assert!(o.output.is_empty());
    assert!(matches!(execute(&mut c, Operation::List, "nope", "", vec![]), Err(ConfigError::FeatureNotFound(_))));
}

#[test]
fn error_messages() {
    assert_eq!(ConfigError::KeyNotFound("a.b".to_string()).message(), "Error: key 'a.b' not found");
    assert_eq!(
        ConfigError::FeatureNotFound("feature.x".to_string()).message(),
        "Error: feature 'feature.x' not found in configuration"
    );
    assert_eq!(ConfigError::NotAnArray("k".to_string()).message(), "Invalid operation: 'k' is not an array");
    assert_eq!(ConfigError::InvalidOperation("bad".to_string()).message(), "Invalid operation: bad");
    assert!(ConfigError::ConfigDirNotFound("/tmp/x".to_string()).message().contains("/tmp/x"));
    assert!(ConfigError::ConfigFileNotFound.message().contains("config.toml file not found"));
}

#[test]
fn text_utilities() {
    assert_eq!(decimal_string(0), "0");
    assert_eq!(decimal_string(7), "7");
    assert_eq!(decimal_string(2147483647), "2147483647");
    assert_eq!(decimal_string(10), "10");
    assert_eq!(parse_index("build.files.12", 12), Some(12));
    assert_eq!(parse_index("build.files.+3", 12), Some(3));
    assert_eq!(parse_index("build.files.007", 12), Some(7));
    assert_eq!(parse_index("build.files.2147483647", 12), Some(2147483647));
    assert_eq!(parse_index("build.files.2147483648", 12), None);
    assert_eq!(parse_index("build.files.", 12), None);
    assert_eq!(parse_index("build.files.+", 12), None);
    assert_eq!(parse_index("build.files.-1", 12), None);
    assert_eq!(parse_index("build.files.1a", 12), None);
    assert!(starts_with("feature.x", "feature."));
    assert!(!starts_with("feature", "feature."));
    assert!(!starts_with("model", "feature."));
    assert_eq!(join_strings(&strs(&["a", "b", "c"]), ", "), "a, b, c");
    assert_eq!(join_strings(&strs(&[]), ", "), "");
}

#[test]
fn tree_groups_feature_sections_under_feature() {
    let mut c = empty();
    c.set("feature.b", "k", strs(&["1"])).unwrap();
    c.set("global", "g", strs(&["x", "y"])).unwrap();
    c.set("feature.a", "k", strs(&["2"])).unwrap();
    let t = c.to_tree();
    assert_eq!(t.len(), 2);
    assert_eq!(t[0].0, "global");
    assert_eq!(t[1].0, "feature");
    match &t[1].1 {
        Node::Table(fs) => {
            let names: Vec<&str> = fs.iter().map(|(n, _)| n.as_str()).collect();
            assert_eq!(names, vec!["b", "a"]);
        }
        _ => panic!("expected a table"),
    }
    let back = Config::from_tree("p".to_string(), &t);
    assert_eq!(back.list("feature.a", "k").unwrap(), strs(&["2"]));
    assert_eq!(back.list("global", "g").unwrap(), strs(&["x", "y"]));
    assert_eq!(back.config_path(), "p");
}
