use docs_rs_mcp::deps::{Dependency, DependencyKind};
use docs_rs_mcp::features::Feature;
use docs_rs_mcp::listing::{Entry, Listing};
use docs_rs_mcp::markdown::ReadmeBody;
use docs_rs_mcp::metadata::CrateMetadata;
use docs_rs_mcp::model::ItemKind;
use docs_rs_mcp::overview::crate_overview;
use docs_rs_mcp::source::{read_source_file, search_source, to_forward_slashes};
use docs_rs_mcp::versions::{exact_version, listed_version};

fn s(x: &str) -> String {
    x.to_string()
}

fn meta() -> CrateMetadata {
    CrateMetadata {
        name: s("demo"),
        version: s("1.0.0"),
        description: None,
        repository: None,
        homepage: None,
        documentation: None,
        license: Some(s("MIT")),
        license_file: None,
        readme: None,
        rust_version: None,
        edition: None,
        authors: Vec::new(),
        keywords: Vec::new(),
        categories: Vec::new(),
    }
}

fn feature(name: &str, by_default: bool) -> Feature {
    Feature {
        name: s(name),
        enables: Vec::new(),
        transitive_enables: Vec::new(),
        optional_dependencies: Vec::new(),
        enabled_by: Vec::new(),
        enabled_by_default: by_default,
        is_default_feature: name == "default",
    }
}

fn dep(name: &str, kind: DependencyKind, target: Option<&str>) -> Dependency {
    Dependency {
        name: s(name),
        package: None,
        kind,
        req: Some(s("1")),
        optional: false,
        default_features: true,
        features: Vec::new(),
        target: target.map(s),
    }
}

fn entry(name: &str, kind: ItemKind) -> Entry {
    Entry { name: s(name), kind, summary: None, deprecated: false, reexport: None }
}

#[test]
fn overview_keeps_default_features_direct_dependencies_and_modules() {
    let features = vec![feature("default", false), feature("json", true), feature("tls", false)];
    let deps = vec![
        dep("serde", DependencyKind::Normal, None),
        dep("winapi", DependencyKind::Normal, Some("cfg(windows)")),
        dep("tokio-test", DependencyKind::Dev, None),
        dep("cc", DependencyKind::Build, None),
        dep("bytes", DependencyKind::Normal, None),
    ];
    let listing = Listing {
        entries: vec![entry("routing", ItemKind::Module), entry("Router", ItemKind::Struct), entry("body", ItemKind::Module)],
        unexpanded_external_globs: Vec::new(),
    };
    let long = "x".repeat(4100);
    let readme = ReadmeBody { headings: vec![s("Intro")], content: Some(long), content_truncated: false };
    let o = crate_overview(meta(), features, deps, listing, Some(readme));
    assert_eq!(o.metadata.name, "demo");
    let names: Vec<&str> = o.default_features.iter().map(|f| f.name.as_str()).collect();
    assert_eq!(names, vec!["default", "json"]);
    let deps: Vec<&str> = o.direct_dependencies.iter().map(|d| d.name.as_str()).collect();
    assert_eq!(deps, vec!["serde", "bytes"]);
    let modules: Vec<&str> = o.public_modules.iter().map(|e| e.name.as_str()).collect();
    assert_eq!(modules, vec!["routing", "body"]);
    let r = o.readme.unwrap();
    assert_eq!(r.headings, vec![s("Intro")]);
    assert_eq!(r.content.unwrap().chars().count(), 4000);
}

#[test]
fn overview_without_readme() {
    let listing = Listing { entries: Vec::new(), unexpanded_external_globs: Vec::new() };
    let o = crate_overview(meta(), Vec::new(), Vec::new(), listing, None);
    assert!(o.readme.is_none());
    assert!(o.default_features.is_empty());
}

fn files() -> Vec<(String, String)> {
    vec![
        (s("src/lib.rs"), s("pub mod a;\nfn Router() {}\n// router here")),
        (s("README.md"), s("Router docs")),
        (s("src/a.rs"), s("struct ROUTER;")),
    ]
}

#[test]
fn source_search_filters_by_glob_in_file_order() {
    let ms = search_source(&files(), "*.rs", "router", 0, 0);
    let got: Vec<(&str, usize, &str)> = ms.iter().map(|m| (m.path.as_str(), m.line, m.snippet.as_str())).collect();
    assert_eq!(
        got,
        vec![("src/lib.rs", 2, "fn Router() {}"), ("src/lib.rs", 3, "// router here"), ("src/a.rs", 1, "struct ROUTER;")]
    );
}

#[test]
fn source_search_stops_at_the_limit_across_files() {
    let ms = search_source(&files(), "*", "router", 1, 3);
    assert_eq!(ms.len(), 3);
    assert_eq!(ms[0].path, "src/lib.rs");
    assert_eq!(ms[0].snippet, "pub mod a;\nfn Router() {}\n// router here");
    assert_eq!(ms[2].path, "README.md");
    let none = search_source(&files(), "docs/*", "router", 0, 5);
    assert!(none.is_empty());
}

#[test]
fn source_file_paths_use_forward_slashes() {
    assert_eq!(to_forward_slashes("src\\a\\b.rs"), "src/a/b.rs");
    let f = read_source_file("src\\lib.rs", "one\ntwo\nthree", 2, None, 100);
    assert_eq!(f.path, "src/lib.rs");
    assert_eq!(f.window.start_line, 2);
    assert_eq!(f.window.end_line, 3);
    assert_eq!(f.window.content, "two\nthree");
    assert!(!f.window.content_truncated);
}

#[test]
fn exact_versions_are_canonical() {
    assert_eq!(exact_version(" 1.2.3 ").unwrap(), "1.2.3");
    assert!(exact_version("1.2").is_err());
    let v = listed_version("1.0.0-beta.1", false, s("2024-01-01"), None).unwrap();
    assert_eq!(v.num, "1.0.0-beta.1");
    assert!(v.prerelease);
    let w = listed_version("2.0.0", true, s("2024-02-01"), Some(s("1.70"))).unwrap();
    assert!(!w.prerelease);
    assert!(w.yanked);
    assert!(listed_version("nope", false, s(""), None).is_none());
}
