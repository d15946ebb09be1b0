use docs_rs_mcp::impls::{filter_methods, list_impls, list_methods, Method};
use docs_rs_mcp::listing::list_module;
use docs_rs_mcp::lookup::{get_item, split_path, Verbosity};
use docs_rs_mcp::model::{Crate, FnDecl, Inner, Item, ItemKind, PathSummary, Ty};
use docs_rs_mcp::render::render_type;
use docs_rs_mcp::search::{search, search_items};

fn s(x: &str) -> String {
    x.to_string()
}

fn item(id: u32, name: &str, kind: ItemKind, docs: Option<&str>, inner: Inner) -> Item {
    Item { id, crate_id: 0, name: Some(s(name)), docs: docs.map(s), deprecated: false, kind, inner }
}

fn path(id: u32, p: &[&str], kind: ItemKind) -> PathSummary {
    PathSummary { id, crate_id: 0, path: p.iter().map(|x| s(x)).collect(), kind }
}

fn plain_fn() -> FnDecl {
    FnDecl {
        is_const: false,
        is_async: false,
        is_unsafe: false,
        params: vec![],
        inputs: vec![],
        is_c_variadic: false,
        output: Some(Ty::Generic(s("Self"))),
    }
}

/// `demo` with a struct `Router` (an inherent `new`, a `Clone` impl) in
/// module `routing`, re-exported at the root.
fn demo() -> Crate {
    let index = vec![
        item(0, "demo", ItemKind::Module, Some("The demo crate."), Inner::Module { items: vec![1, 5] }),
        item(1, "routing", ItemKind::Module, Some("Routing.\n\nMore."), Inner::Module { items: vec![2] }),
        item(2, "Router", ItemKind::Struct, Some("A router.\n\n```\nlet r = Router::new();\n```"), Inner::HasImpls { impls: vec![3, 6] }),
        Item {
            id: 3,
            crate_id: 0,
            name: None,
            docs: None,
            deprecated: false,
            kind: ItemKind::Impl,
            inner: Inner::Impl {
                for_type: Ty::ResolvedPath { path: s("Router"), id: 2, args: None },
                trait_path: None,
                items: vec![4],
                is_synthetic: false,
                is_blanket: false,
            },
        },
        item(4, "new", ItemKind::Function, Some("Makes one."), Inner::Function(plain_fn())),
        Item {
            id: 5,
            crate_id: 0,
            name: None,
            docs: None,
            deprecated: false,
            kind: ItemKind::Use,
            inner: Inner::Use { name: s("Router"), target: Some(2), is_glob: false },
        },
        Item {
            id: 6,
            crate_id: 0,
            name: None,
            docs: None,
            deprecated: false,
            kind: ItemKind::Impl,
            inner: Inner::Impl {
                for_type: Ty::ResolvedPath { path: s("Router"), id: 2, args: None },
                trait_path: Some(s("Clone")),
                items: vec![],
                is_synthetic: false,
                is_blanket: false,
            },
        },
    ];
    let paths = vec![
        path(0, &["demo"], ItemKind::Module),
        path(1, &["demo", "routing"], ItemKind::Module),
        path(2, &["demo", "routing", "Router"], ItemKind::Struct),
    ];
    Crate { root: 0, index, paths, external_crates: vec![] }
}

#[test]
fn split_path_splits_at_double_colons() {
    assert_eq!(split_path("demo::routing::Router"), vec![s("demo"), s("routing"), s("Router")]);
    assert_eq!(split_path("demo"), vec![s("demo")]);
    assert_eq!(split_path(":::"), vec![s(""), s(":")]);
    assert_eq!(split_path("a::"), vec![s("a"), s("")]);
}

#[test]
fn get_item_finds_canonical_and_reexported_paths() {
    let docs = demo();
    let r = get_item(&docs, &split_path("demo::routing::Router"), Verbosity::Signature).unwrap();
    assert_eq!(r.id, 2);
    assert_eq!(r.path, "demo::routing::Router");
    assert!(r.docs.is_none());
    let via = get_item(&docs, &split_path("demo::Router"), Verbosity::Full).unwrap();
    assert_eq!(via.id, 2);
    assert_eq!(via.path, "demo::routing::Router");
    assert_eq!(via.examples.len(), 1);
    assert!(via.examples[0].contains("Router::new()"));
    assert!(get_item(&docs, &split_path("demo::no_such_thing"), Verbosity::Full).is_none());
}

#[test]
fn list_module_lists_children_sorted() {
    let docs = demo();
    let l = list_module(&docs, None).unwrap();
    let names: Vec<&str> = l.entries.iter().map(|e| e.name.as_str()).collect();
    assert!(names.contains(&"routing"));
    assert!(names.contains(&"Router"));
    let routing = split_path("demo::routing");
    let inner = list_module(&docs, Some(&routing)).unwrap();
    assert_eq!(inner.entries.len(), 1);
    assert_eq!(inner.entries[0].name, "Router");
    assert_eq!(inner.entries[0].summary.as_deref(), Some("A router."));
    let missing = split_path("demo::nothing");
    assert!(list_module(&docs, Some(&missing)).is_none());
}

#[test]
fn list_methods_and_impls_of_router() {
    let docs = demo();
    let methods = list_methods(&docs, &split_path("demo::Router")).unwrap();
    assert_eq!(methods.len(), 1);
    assert_eq!(methods[0].name, "new");
    assert!(methods[0].via_trait.is_none());
    let impls = list_impls(&docs, &split_path("demo::routing::Router")).unwrap();
    assert_eq!(impls.len(), 1);
    assert_eq!(impls[0].trait_path, "Clone");
    assert!(list_methods(&docs, &split_path("demo::nothing")).is_none());
}

#[test]
fn search_finds_items_by_lowercased_name() {
    let docs = demo();
    let found = search_items(&docs, "router", None, 10);
    assert!(found.iter().any(|m| m.name == "Router"));
    let none = search_items(&docs, "zzz", None, 10);
    assert!(none.is_empty());
    let limited = search_items(&docs, "", None, 1);
    assert_eq!(limited.len(), 1);
}

#[test]
fn search_items_gives_what_search_gives() {
    let docs = demo();
    for (q, l) in [("router", 10), ("", 2), ("o", 3)] {
        let a: Vec<(u32, String, String, ItemKind)> =
            search_items(&docs, q, None, l).into_iter().map(|m| (m.id, m.name, m.path, m.kind)).collect();
        let b: Vec<(u32, String, String, ItemKind)> =
            search(&docs, Some(q), None, Some(l)).into_iter().map(|m| (m.id, m.name, m.path, m.kind)).collect();
        assert_eq!(a, b);
    }
}

fn method(id: u32, name: &str, via: Option<&str>, deprecated: bool) -> Method {
    Method { method_id: id, name: s(name), kind: ItemKind::Function, via_trait: via.map(s), summary: None, deprecated }
}

#[test]
fn method_filters_and_limit() {
    let ms = vec![
        method(1, "route", None, false),
        method(2, "Route_Layer", None, true),
        method(3, "clone", Some("Clone"), false),
        method(4, "fmt", Some("Debug"), false),
    ];
    let page = filter_methods(ms, Some("ROUTE"), false, None, true, 50);
    assert_eq!(page.total_matches, 2);
    assert!(!page.truncated);
    let ms = vec![method(1, "route", None, false), method(2, "route_layer", None, true)];
    let page = filter_methods(ms, None, false, None, false, 50);
    assert_eq!(page.methods.len(), 1);
    let ms = vec![method(3, "clone", Some("Clone"), false), method(4, "fmt", Some("Debug"), false), method(5, "new", None, false)];
    let page = filter_methods(ms, None, false, Some("Clone"), true, 50);
    assert_eq!(page.methods.len(), 1);
    assert_eq!(page.methods[0].name, "clone");
    let ms = vec![method(3, "clone", Some("Clone"), false), method(5, "new", None, false)];
    let page = filter_methods(ms, None, true, None, true, 50);
    assert_eq!(page.methods[0].name, "new");
    let ms = vec![method(1, "a", None, false), method(2, "b", None, false), method(3, "c", None, false)];
    let page = filter_methods(ms, None, false, None, true, 2);
    assert_eq!(page.methods.len(), 2);
    assert_eq!(page.total_matches, 3);
    assert!(page.truncated);
}

#[test]
fn renders_reference_type() {
    let t = Ty::BorrowedRef { lifetime: Some(s("'a")), is_mutable: true, ty: Box::new(Ty::Primitive(s("str"))) };
    let out: String = render_type(&t).into_iter().collect();
    assert_eq!(out, "&'a mut str");
}
