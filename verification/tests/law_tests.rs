use docs_rs_mcp::errors::{decimal_text, Error};
use docs_rs_mcp::features::{feature_closure, FeatureTable};
use docs_rs_mcp::glob::glob_matches;
use docs_rs_mcp::lookup::split_path;
use docs_rs_mcp::settings::parse_seconds;
use docs_rs_mcp::versions::{version_info, versions_to_list, ApiVersion};

fn s(x: &str) -> String {
    x.to_string()
}

#[test]
fn split_then_join_gives_the_path_back() {
    for p in ["axum::routing::Router", "a", "", "::", "a::::b", ":::x:"] {
        assert_eq!(split_path(p).join("::"), p);
    }
}

#[test]
fn decimal_text_reads_back() {
    for n in [0u32, 7, 10, 1234, u32::MAX] {
        let text: String = decimal_text(n).into_iter().collect();
        assert_eq!(text, n.to_string());
        assert_eq!(parse_seconds(&text), Some(n as u64));
    }
}

#[test]
fn unsupported_version_message_uses_decimal() {
    assert_eq!(Error::UnsupportedRustdocJsonVersion(0).message(), "unsupported rustdoc json version: 0");
}

#[test]
fn closure_contains_own_entries_and_is_transitive() {
    let t: FeatureTable = vec![
        (s("full"), vec![s("net"), s("dep:extra")]),
        (s("net"), vec![s("io"), s("dep:socket")]),
        (s("io"), vec![s("dep:bytes")]),
    ];
    let full = feature_closure("full", &t);
    for e in ["net", "dep:extra"] {
        assert!(full.iter().any(|x| x == e));
    }
    for e in feature_closure("net", &t) {
        assert!(full.contains(&e));
    }
    assert!(full.contains(&s("dep:bytes")));
}

#[test]
fn literal_patterns_match_only_themselves() {
    assert!(glob_matches("src/lib.rs", "src/lib.rs"));
    assert!(!glob_matches("src/lib.rs", "src/lib.rsx"));
    assert!(!glob_matches("src/lib.rs", "src/main.rs"));
}

fn api(num: &str, pre: bool, yanked: bool, created: &str, rust: Option<&str>) -> ApiVersion {
    ApiVersion { num: s(num), prerelease: pre, yanked, created_at: s(created), rust_version: rust.map(s) }
}

#[test]
fn filters_yanked_and_prerelease_versions() {
    let vs = vec![
        api("2.0.0-alpha.1", true, false, "2026-01-03", None),
        api("1.1.0", false, true, "2026-01-02", Some("1.80")),
        api("1.0.0", false, false, "2026-01-01", Some("1.75")),
    ];
    let picked = versions_to_list(&vs, 20, false, false);
    assert_eq!(picked, vec![2]);
    let info = version_info(&vs[picked[0]], None);
    assert_eq!(info.version, "1.0.0");
    assert_eq!(info.rust_version.as_deref(), Some("1.75"));
    assert_eq!(versions_to_list(&vs, 20, true, true), vec![0, 1, 2]);
    assert_eq!(versions_to_list(&vs, 1, true, true), vec![0]);
    assert_eq!(versions_to_list(&vs, 0, true, false), vec![1, 2]);
}
