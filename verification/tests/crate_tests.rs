use docs_rs_mcp::cache::{build_download_url, dir_for_crate, docs_file_name, judge_parsed, judge_unparsed, retry_without_target, DocsVerdict};
use docs_rs_mcp::changelog::{changelog, changelog_candidates, changelog_for, first_existing, select_releases, ChangelogQuery};
use docs_rs_mcp::deps::{
    filter_dependencies, manifest_dependencies, optional_dependency_features, DependencyDetail, DependencyKind, ManifestDependency,
    ManifestDeps, TargetDeps,
};
use docs_rs_mcp::errors::{reply, Error, ReplyKind};
use docs_rs_mcp::examples::{examples_to_read, find_examples, ExampleTarget};
use docs_rs_mcp::markdown::{markdown_headings, markdown_section, readme_body, summary_of};
use docs_rs_mcp::metadata::{crate_metadata, Inheritable, PackageMeta, Readme};
use docs_rs_mcp::settings::parse_seconds;
use docs_rs_mcp::versions::{normalized_requirement, parse_version_req};

fn s(x: &str) -> String {
    x.to_string()
}

fn entries(rs: &[(&str, &str, &str)]) -> Vec<(String, String, String)> {
    rs.iter().map(|(v, t, n)| (s(v), s(t), s(n))).collect()
}

fn query(section: Option<&str>, from: Option<&str>, to: Option<&str>) -> ChangelogQuery {
    ChangelogQuery {
        section_version: section.map(s),
        from_version: from.map(s),
        to_version: to.map(s),
        limit: usize::MAX,
        summary_only: false,
        max_chars: usize::MAX,
    }
}

const CHANGELOG: &str = "# Changelog\n\n## [0.2.0] - 2024-02-01\n\nAdded things.\n\nMore detail.\n\n## [0.1.0] - 2024-01-01\n\nFirst release.\n";

#[test]
fn changelog_lists_every_release() {
    let c = changelog(s("CHANGELOG.md"), CHANGELOG, &query(None, None, None)).unwrap();
    assert_eq!(c.source_file, "CHANGELOG.md");
    assert_eq!(c.releases.len(), 2);
    assert_eq!(c.releases[0].version, "0.2.0");
    assert!(c.releases.iter().all(|r| !(r.notes.is_empty() || r.title.is_empty())));
}

#[test]
fn changelog_single_section_and_unknown_version() {
    let c = changelog(s("CHANGELOG.md"), CHANGELOG, &query(Some("0.1.0"), None, None)).unwrap();
    assert_eq!(c.releases.len(), 1);
    assert_eq!(c.releases[0].version, "0.1.0");
    match changelog(s("CHANGELOG.md"), CHANGELOG, &query(Some("9.9.9"), None, None)) {
        Err(Error::ResourceNotFound(m)) => assert_eq!(m, "version 9.9.9 in changelog"),
        _ => panic!("expected ResourceNotFound"),
    }
}

#[test]
fn changelog_parse_failure_is_reported() {
    match changelog(s("CHANGELOG.md"), "no releases here", &query(None, None, None)) {
        Err(Error::Other(m)) => assert_eq!(m, "error parsing changelog"),
        _ => panic!("expected a parse error"),
    }
}

#[test]
fn release_range_summary_and_truncation() {
    let es = entries(&[("1.2.0", "1.2.0", "a\nb\n\nc"), ("1.1.0", "1.1.0", "x"), ("1.0.0", "1.0.0", "y"), ("junk", "junk", "z")]);
    let mut q = query(None, Some("1.1.0"), Some("1.2.0"));
    q.summary_only = true;
    q.max_chars = 2;
    let rs = select_releases(&es, &q).unwrap();
    assert_eq!(rs.len(), 2);
    assert_eq!(rs[0].notes, "a\n");
    assert!(rs[0].notes_truncated);
    assert_eq!(rs[1].notes, "x");
    assert!(!rs[1].notes_truncated);
    let all = select_releases(&es, &query(None, None, None)).unwrap();
    assert_eq!(all.len(), 4);
    let mut limited = query(None, None, None);
    limited.limit = 1;
    assert_eq!(select_releases(&es, &limited).unwrap().len(), 1);
}

#[test]
fn changelog_refuses_bounds_that_are_not_versions() {
    assert!(changelog_for(s("CHANGELOG.md"), CHANGELOG, &query(None, Some("nope"), None)).is_none());
    assert!(changelog_for(s("CHANGELOG.md"), CHANGELOG, &query(None, Some("0.1.0"), None)).is_some());
}

#[test]
fn changelog_file_is_first_existing_candidate() {
    assert_eq!(changelog_candidates()[0], "CHANGELOG.md");
    let mut exists = vec![false; 8];
    exists[2] = true;
    exists[5] = true;
    assert_eq!(first_existing(&exists).unwrap(), 2);
    match first_existing(&vec![false; 8]) {
        Err(Error::MissingSourceFile(m)) => {
            assert_eq!(m, "CHANGELOG.md,CHANGELOG,CHANGES.md,CHANGES,HISTORY.md,HISTORY,NEWS.md,NEWS")
        }
        _ => panic!("expected MissingSourceFile"),
    }
}

#[test]
fn bare_full_version_becomes_exact() {
    assert_eq!(normalized_requirement("1.2.3"), "=1.2.3");
    assert_eq!(normalized_requirement("0.8.9"), "=0.8.9");
    assert_eq!(normalized_requirement("1.2.3-alpha.1"), "=1.2.3-alpha.1");
    assert_eq!(normalized_requirement("1.2.3+meta"), "=1.2.3+meta");
    for v in ["1.2.3", "0.8.9", "1.2.3-alpha.1", "1.2.3+meta"] {
        let r = parse_version_req(v).unwrap();
        assert_eq!(r.text(), format!("={v}"));
        assert_eq!(*r.req(), semver::VersionReq::parse(&format!("={v}")).unwrap());
        assert_eq!(r.req_text(), semver::VersionReq::parse(&format!("={v}")).unwrap().to_string());
    }
    assert_eq!(*parse_version_req("1.2.3").unwrap().req(), semver::VersionReq::parse("=1.2.3").unwrap());
}

#[test]
fn partial_and_cargo_requirements_are_unchanged() {
    assert_eq!(normalized_requirement("1.2"), "1.2");
    assert_eq!(normalized_requirement("^1.2.3"), "^1.2.3");
    assert_eq!(normalized_requirement("  ~1.2 "), "~1.2");
    assert_eq!(*parse_version_req(">=1.2, <1.5").unwrap().req(), semver::VersionReq::parse(">=1.2, <1.5").unwrap());
    assert!(parse_version_req("not a req").is_err());
}

#[test]
fn latest_aliases_mean_any_version() {
    assert_eq!(normalized_requirement(" Latest "), "*");
    assert_eq!(*parse_version_req("NEWEST").unwrap().req(), semver::VersionReq::STAR);
    assert_eq!(parse_version_req("NEWEST").unwrap().text(), "*");
    assert_eq!(parse_version_req(" latest ").unwrap().req_text(), "*");
}

#[test]
fn download_urls_and_cache_layout() {
    assert_eq!(build_download_url("axum", "0.8.9", Some("test-target")), "/crate/axum/0.8.9/test-target/json.zst");
    assert_eq!(build_download_url("axum", "0.8.9", None), "/crate/axum/0.8.9/json.zst");
    assert_eq!(docs_rs_mcp::source::build_download_url("axum", "0.8.9"), "/crates/axum/axum-0.8.9.crate");
    assert_eq!(dir_for_crate("Axum", "0.8.9"), vec![s("ax"), s("um"), s("axum"), s("0.8.9")]);
    assert_eq!(dir_for_crate("a", "1.0.0"), vec![s("1"), s("a"), s("1.0.0")]);
    assert_eq!(dir_for_crate("ab", "1.0.0"), vec![s("2"), s("ab"), s("1.0.0")]);
    assert_eq!(dir_for_crate("Syn", "2.0.0"), vec![s("3"), s("s"), s("syn"), s("2.0.0")]);
    assert_eq!(docs_file_name(None), "default_target.json.zst");
    assert_eq!(docs_file_name(Some("x86_64-unknown-linux-gnu")), "x86_64-unknown-linux-gnu.json.zst");
}

#[test]
fn docs_fetch_decisions() {
    assert!(retry_without_target(true, Some("t")));
    assert!(!retry_without_target(true, None));
    assert!(!retry_without_target(false, Some("t")));
    assert!(matches!(judge_parsed(Some(61)), DocsVerdict::Accept));
    assert!(matches!(judge_parsed(Some(40)), DocsVerdict::Unsupported(40)));
    assert!(matches!(judge_parsed(None), DocsVerdict::ReadFormatVersion));
    assert!(matches!(judge_unparsed(99), DocsVerdict::Unsupported(99)));
    assert!(matches!(judge_unparsed(61), DocsVerdict::ParseFailed));
}

#[test]
fn parse_seconds_reads_unsigned_decimals() {
    assert_eq!(parse_seconds("30"), Some(30));
    assert_eq!(parse_seconds("+7"), Some(7));
    assert_eq!(parse_seconds("0"), Some(0));
    assert_eq!(parse_seconds("18446744073709551615"), Some(u64::MAX));
    assert_eq!(parse_seconds("18446744073709551616"), None);
    assert_eq!(parse_seconds(""), None);
    assert_eq!(parse_seconds("+"), None);
    assert_eq!(parse_seconds("-1"), None);
    assert_eq!(parse_seconds("1s"), None);
}

#[test]
fn error_messages() {
    assert_eq!(Error::UnsupportedRustdocJsonVersion(57).message(), "unsupported rustdoc json version: 57");
    assert_eq!(Error::ResourceNotFound(s("x")).message(), "resource not found");
    assert_eq!(Error::item_not_found(&[s("a"), s("b")]), Error::ItemNotFound(s("a::b")));
    assert_eq!(Error::item_not_found(&[s("a"), s("b")]).message(), "item not found: a::b");
}

#[test]
fn error_replies() {
    assert_eq!(reply(&Error::Other(s("disk full"))), (ReplyKind::Internal, s("disk full")));
    assert_eq!(
        reply(&Error::VersionNotFound(s("https://docs.rs/x"))),
        (ReplyKind::ResourceNotFound, s("crate or version not found on https://docs.rs/x"))
    );
    assert_eq!(reply(&Error::ItemNotFound(s("a::b"))), (ReplyKind::ResourceNotFound, s("item not found: a::b")));
}

fn detailed(version: &str, optional: bool) -> ManifestDependency {
    ManifestDependency::Detailed(DependencyDetail {
        version: Some(s(version)),
        features: Some(vec![s("full")]),
        optional: Some(optional),
        default_features: Some(false),
        package: None,
    })
}

fn manifest() -> ManifestDeps {
    ManifestDeps {
        dependencies: Some(vec![(s("tower"), ManifestDependency::Simple(s("0.5"))), (s("tokio"), detailed("1", true))]),
        dev_dependencies: Some(vec![(s("tokio"), ManifestDependency::Simple(s("1")))]),
        build_dependencies: None,
        target: Some(vec![TargetDeps {
            cfg: s("cfg(unix)"),
            dependencies: vec![(s("libc"), ManifestDependency::Inherited { features: None, optional: Some(true) })],
            dev_dependencies: vec![],
            build_dependencies: vec![],
        }]),
    }
}

#[test]
fn manifest_dependencies_sorted_by_name_then_kind() {
    let deps = manifest_dependencies(&manifest());
    let keys: Vec<(String, DependencyKind)> = deps.iter().map(|d| (d.name.clone(), d.kind)).collect();
    assert_eq!(
        keys,
        vec![
            (s("libc"), DependencyKind::Normal),
            (s("tokio"), DependencyKind::Dev),
            (s("tokio"), DependencyKind::Normal),
            (s("tower"), DependencyKind::Normal),
        ]
    );
    assert_eq!(deps[0].target.as_deref(), Some("cfg(unix)"));
    assert!(deps[0].optional);
    assert!(deps[0].req.is_none());
    assert_eq!(deps[2].req.as_deref(), Some("1"));
    assert!(!deps[2].default_features);
    assert_eq!(deps[2].features, vec![s("full")]);
    assert!(deps[3].default_features);
}

#[test]
fn dependency_filters() {
    let deps = manifest_dependencies(&manifest());
    let dev = filter_dependencies(deps, Some(DependencyKind::Dev), false);
    assert_eq!(dev.len(), 1);
    let deps = manifest_dependencies(&manifest());
    let optional = filter_dependencies(deps, None, true);
    let names: Vec<&str> = optional.iter().map(|d| d.name.as_str()).collect();
    assert_eq!(names, vec!["libc", "tokio"]);
    assert_eq!(optional_dependency_features(&manifest()), vec![s("tokio")]);
}

#[test]
fn examples_filtered_sorted_and_cut() {
    let targets = vec![
        ExampleTarget { name: Some(s("zeta")), path: Some(s("examples/zeta.rs")), required_features: vec![s("full")] },
        ExampleTarget { name: None, path: Some(s("examples/anon.rs")), required_features: vec![] },
        ExampleTarget { name: Some(s("iris")), path: Some(s("examples/iris.rs")), required_features: vec![] },
    ];
    assert_eq!(examples_to_read(&targets, None), vec![0, 2]);
    assert_eq!(examples_to_read(&targets, Some("iris")), vec![2]);
    let none = vec![None, None, None];
    let listed = find_examples(&targets, None, false, &none, 20_000);
    let names: Vec<&str> = listed.iter().map(|e| e.name.as_str()).collect();
    assert_eq!(names, vec!["iris", "zeta"]);
    assert!(listed[0].content.is_none());
    let contents = vec![Some(s("fn main() {}")), None, Some(s("fn main() { iris(); }"))];
    let with = find_examples(&targets, Some("iris"), true, &contents, 5);
    assert_eq!(with.len(), 1);
    assert_eq!(with[0].content.as_deref(), Some("fn ma"));
    assert!(with[0].content_truncated);
    assert_eq!(with[0].path, "examples/iris.rs");
}

#[test]
fn crate_metadata_keeps_only_local_values() {
    let pkg = PackageMeta {
        name: s("axum"),
        version: None,
        description: Some(Inheritable::Local(s("Web framework"))),
        repository: Some(Inheritable::Inherited),
        homepage: None,
        documentation: None,
        license: Some(Inheritable::Local(s("MIT"))),
        license_file: None,
        readme: Some(Inheritable::Local(Readme::Flag(true))),
        rust_version: Some(Inheritable::Local(s("1.78"))),
        edition: Some(Inheritable::Local(s("2021"))),
        authors: None,
        keywords: Some(Inheritable::Local(vec![s("http")])),
        categories: Some(Inheritable::Inherited),
    };
    let m = crate_metadata(Some(&pkg), "0.8.9").unwrap();
    assert_eq!(m.name, "axum");
    assert_eq!(m.version, "0.8.9");
    assert_eq!(m.description.as_deref(), Some("Web framework"));
    assert!(m.repository.is_none());
    assert!(m.readme.is_none());
    assert_eq!(m.rust_version.as_deref(), Some("1.78"));
    assert_eq!(m.keywords, vec![s("http")]);
    assert!(m.categories.is_empty());
    match crate_metadata(None, "0.8.9") {
        Err(Error::MissingMetadata(msg)) => assert_eq!(msg, "missing package metadata"),
        _ => panic!("expected MissingMetadata"),
    }
}

const README: &str = "# Title\n\nIntro text.\n\n## Usage\n\nUse it.\n\n## License\n\nMIT\n";

#[test]
fn readme_headings_and_sections() {
    assert_eq!(markdown_headings(README), vec![s("Title"), s("Usage"), s("License")]);
    let usage = markdown_section(README, "usage").unwrap();
    assert!(usage.contains("Use it."));
    assert!(!usage.contains("MIT"));
    match markdown_section(README, "Nope") {
        Err(Error::ResourceNotFound(m)) => assert_eq!(m, "README heading Nope"),
        _ => panic!("expected a missing heading"),
    }
    let body = readme_body(README, None, false, 7).unwrap();
    assert_eq!(body.content.as_deref(), Some("# Title"));
    assert!(body.content_truncated);
    let only = readme_body(README, None, true, 7).unwrap();
    assert!(only.content.is_none());
}

#[test]
fn summaries_are_first_paragraphs() {
    assert_eq!(summary_of(Some("First line\ncontinues.\n\nSecond.")), Some(s("First line continues.")));
    assert_eq!(summary_of(Some("   ")), None);
    assert_eq!(summary_of(None), None);
}
