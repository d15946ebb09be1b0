use docs_rs_mcp::compare::{compare_values, compare_versions, dependency_key, ApiItem, ApiSnapshot};
use docs_rs_mcp::deps::{Dependency, DependencyKind};
use docs_rs_mcp::model::ItemKind;

fn s(x: &str) -> String {
    x.to_string()
}

fn kv(pairs: &[(&str, &str)]) -> Vec<(String, String)> {
    pairs.iter().map(|(k, v)| (s(k), s(v))).collect()
}

fn snap(path: &str, sig: &str, structured: &str) -> ApiSnapshot {
    ApiSnapshot {
        item: ApiItem { path: s(path), kind: ItemKind::Function, signature: Some(s(sig)) },
        structured: s(structured),
    }
}

#[test]
fn values_changes_are_sorted_by_key() {
    let before = kv(&[("b", "1"), ("a", "1"), ("c", "3")]);
    let after = kv(&[("a", "2"), ("c", "3"), ("d", "4")]);
    let changes = compare_values(&before, &after);
    let keys: Vec<&str> = changes.iter().map(|c| c.key.as_str()).collect();
    assert_eq!(keys, vec!["a", "b", "d"]);
    assert_eq!(changes[0].before.as_deref(), Some("1"));
    assert_eq!(changes[0].after.as_deref(), Some("2"));
    assert_eq!(changes[1].after, None);
    assert_eq!(changes[2].before, None);
}

#[test]
fn identical_values_have_no_changes() {
    let m = kv(&[("x", "{}"), ("y", "[1]")]);
    assert!(compare_values(&m, &m).is_empty());
}

#[test]
fn dependency_key_joins_name_kind_target() {
    let d = Dependency {
        name: s("axum-macros"),
        package: None,
        kind: DependencyKind::Normal,
        req: Some(s("0.5.0")),
        optional: true,
        default_features: true,
        features: vec![],
        target: None,
    };
    assert_eq!(dependency_key(&d), "axum-macros:Normal:");
    let t = Dependency { target: Some(s("cfg(unix)")), kind: DependencyKind::Dev, ..d };
    assert_eq!(dependency_key(&t), "axum-macros:Dev:cfg(unix)");
}

#[test]
fn comparing_a_version_with_itself_finds_nothing() {
    let api = vec![snap("a::f", "fn f()", "{1}"), snap("a::g", "fn g()", "{2}")];
    let feats = kv(&[("default", "{}")]);
    let c = compare_versions(&api, &api, &feats, &feats, &feats, &feats, Some(s("1.70")), Some(s("1.70")));
    assert!(c.items_added.is_empty());
    assert!(c.items_removed.is_empty());
    assert!(c.signatures_changed.is_empty());
    assert!(c.features_changed.is_empty());
    assert!(c.dependencies_changed.is_empty());
}

#[test]
fn api_changes_are_reported_by_path() {
    let before = vec![snap("a::f", "fn f()", "{1}"), snap("a::gone", "fn gone()", "{2}")];
    let after = vec![snap("a::new", "fn new()", "{3}"), snap("a::f", "fn f(x: u8)", "{4}")];
    let none: Vec<(String, String)> = Vec::new();
    let c = compare_versions(&before, &after, &none, &none, &none, &none, Some(s("1.78")), Some(s("1.80")));
    assert_eq!(c.items_added.len(), 1);
    assert_eq!(c.items_added[0].path, "a::new");
    assert_eq!(c.items_removed.len(), 1);
    assert_eq!(c.items_removed[0].path, "a::gone");
    assert_eq!(c.signatures_changed.len(), 1);
    assert_eq!(c.signatures_changed[0].before.as_deref(), Some("fn f()"));
    assert_eq!(c.signatures_changed[0].after.as_deref(), Some("fn f(x: u8)"));
    assert_eq!(c.msrv_before.as_deref(), Some("1.78"));
    assert_eq!(c.msrv_after.as_deref(), Some("1.80"));
}
