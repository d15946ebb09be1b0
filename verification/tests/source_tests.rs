use docs_rs_mcp::code_blocks::extract_rust_code_blocks;
use docs_rs_mcp::glob::glob_matches;
use docs_rs_mcp::source::{declaration_prefix, safe_relative_path, slice_span};

#[test]
fn test_code_block_extraction() {
    let docs = r#"
Some text.

```rust
let x = 1;
```

```text
not rust
```

```
fn implicit_rust() {}
```

```ignore
fn ignored_but_rust() {}
```
"#;
    let blocks = extract_rust_code_blocks(docs);
    assert_eq!(blocks.len(), 3);
    assert!(blocks[0].contains("let x = 1;"));
    assert!(blocks[1].contains("implicit_rust"));
    assert!(blocks[2].contains("ignored_but_rust"));
}

#[test]
fn glob_supports_recursive_rust_patterns() {
    assert!(glob_matches("**/*.rs", "src/client/source.rs"));
    assert!(glob_matches("*.rs", "lib.rs"));
    assert!(glob_matches("*.rs", "src/lib.rs"));
    assert!(!glob_matches("**/*.rs", "README.md"));
}

#[test]
fn rejects_parent_paths() {
    assert!(safe_relative_path("../Cargo.toml").is_err());
    assert!(safe_relative_path("src/lib.rs").is_ok());
}

#[test]
fn extracts_multiline_source_signature() {
    let source = "fn before() {}\n\npub async fn serve<M>(\n    listener: TcpListener,\n    make_service: M,\n) -> Serve<M>\nwhere\n    M: Service,\n{\n    Serve::new(listener, make_service)\n}\n";
    let span = slice_span(source, (3, 1), (11, 2)).unwrap();
    assert_eq!(
        declaration_prefix(&span),
        "pub async fn serve<M>(\n    listener: TcpListener,\n    make_service: M,\n) -> Serve<M>\nwhere\n    M: Service,"
    );
}

#[test]
fn glob_star_matches_everything() {
    assert!(glob_matches("*", ""));
    assert!(glob_matches("*", "a/b/c.rs"));
    assert!(glob_matches("**", "deep/nested/file"));
}

#[test]
fn glob_question_mark_matches_one_character() {
    assert!(glob_matches("lib.r?", "lib.rs"));
    assert!(!glob_matches("lib.r?", "lib.r"));
}

#[test]
fn safe_paths_refuse_absolute_and_dot_components() {
    assert!(safe_relative_path("/etc/passwd").is_err());
    assert!(safe_relative_path("./src/lib.rs").is_err());
    assert!(safe_relative_path("src/../../x").is_err());
    assert!(safe_relative_path("src/..hidden/ok.rs").is_ok());
    assert_eq!(safe_relative_path("src/main.rs").unwrap(), "src/main.rs");
}

#[test]
fn safe_path_error_names_the_file() {
    match safe_relative_path("../x") {
        Err(docs_rs_mcp::errors::Error::ResourceNotFound(m)) => assert_eq!(m, "source file \"../x\""),
        _ => panic!("expected ResourceNotFound"),
    }
    match safe_relative_path("../a\"b\\c") {
        Err(docs_rs_mcp::errors::Error::ResourceNotFound(m)) => assert_eq!(m, "source file \"../a\\\"b\\\\c\""),
        _ => panic!("expected ResourceNotFound"),
    }
}

#[test]
fn slice_span_out_of_range_is_none() {
    assert!(slice_span("one line\n", (5, 1), (6, 1)).is_none());
}

#[test]
fn slice_span_single_line() {
    assert_eq!(slice_span("abc\ndef\n", (2, 2), (2, 4)).unwrap(), "ef");
    assert_eq!(slice_span("abc\ndef\n", (2, 2), (2, 3)).unwrap(), "e");
}

#[test]
fn declaration_prefix_stops_at_body() {
    assert_eq!(declaration_prefix("pub fn f(x: u8) -> u8 {\n    x\n}"), "pub fn f(x: u8) -> u8");
}
