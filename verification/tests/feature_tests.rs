use docs_rs_mcp::features::{
    feature_closure, inspect_feature_flags, optional_dependency_name, reverse_feature_edges, FeatureTable,
};

fn s(x: &str) -> String {
    x.to_string()
}

fn table(entries: &[(&str, &[&str])]) -> FeatureTable {
    entries.iter().map(|(n, es)| (s(n), es.iter().map(|e| s(e)).collect())).collect()
}

#[test]
fn closure_is_transitive_sorted_and_unique() {
    let t = table(&[
        ("default", &["json", "tokio"]),
        ("json", &["dep:serde_json", "serde/derive"]),
        ("tokio", &["dep:tokio", "json"]),
    ]);
    let c = feature_closure("default", &t);
    assert_eq!(c, vec![s("dep:serde_json"), s("dep:tokio"), s("json"), s("serde/derive"), s("tokio")]);
}

#[test]
fn closure_of_unknown_feature_is_empty() {
    let t = table(&[("a", &["b"])]);
    assert!(feature_closure("zzz", &t).is_empty());
}

#[test]
fn closure_survives_cycles() {
    let t = table(&[("a", &["b"]), ("b", &["a"])]);
    assert_eq!(feature_closure("a", &t), vec![s("b")]);
    assert_eq!(feature_closure("b", &t), vec![s("a")]);
}

#[test]
fn required_dependencies_are_not_listed_as_optional() {
    let t = table(&[("full", &["tokio/rt", "dep:serde_json", "serde_json?/std"])]);
    let deps = vec![s("serde_json")];
    let report = inspect_feature_flags(t, &deps);
    let full = report.iter().find(|f| f.name == "full").unwrap();
    assert_eq!(full.optional_dependencies, vec![s("serde_json"), s("serde_json")]);
}

#[test]
fn optional_dependency_names() {
    assert_eq!(optional_dependency_name("dep:tokio"), Some(s("tokio")));
    assert_eq!(optional_dependency_name("serde/derive"), Some(s("serde")));
    assert_eq!(optional_dependency_name("serde?/derive"), Some(s("serde")));
    assert_eq!(optional_dependency_name("json"), None);
}

#[test]
fn reverse_edges_list_referrers_sorted() {
    let t = table(&[("z", &["json"]), ("a", &["json", "json"]), ("json", &[])]);
    let r = reverse_feature_edges(&t);
    assert_eq!(r.len(), 3);
    assert!(r[0].is_empty());
    assert!(r[1].is_empty());
    assert_eq!(r[2], vec![s("a"), s("a"), s("z")]);
}

#[test]
fn feature_report_adds_implicit_optional_dependencies() {
    let t = table(&[("default", &["json"]), ("json", &["dep:serde_json"])]);
    let deps = vec![s("serde_json"), s("tracing")];
    let report = inspect_feature_flags(t, &deps);
    let names: Vec<&str> = report.iter().map(|f| f.name.as_str()).collect();
    assert_eq!(names, vec!["default", "json", "tracing"]);
    let default = &report[0];
    assert!(default.is_default_feature);
    assert!(default.enabled_by_default);
    assert_eq!(default.transitive_enables, vec![s("dep:serde_json"), s("json")]);
    assert_eq!(default.optional_dependencies, vec![s("serde_json")]);
    let json = &report[1];
    assert!(json.enabled_by_default);
    assert_eq!(json.enabled_by, vec![s("default")]);
    let tracing = &report[2];
    assert_eq!(tracing.enables, vec![s("dep:tracing")]);
    assert!(!tracing.enabled_by_default);
    assert!(!tracing.is_default_feature);
}

#[test]
fn empty_feature_table_gives_empty_report() {
    let report = inspect_feature_flags(Vec::new(), &Vec::new());
    assert!(report.is_empty());
}
