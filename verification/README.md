# docs_rs_mcp

A Model Context Protocol server that answers questions about Rust crates from
their docs.rs rustdoc JSON and their published sources: items and their
signatures, modules, methods and impls, feature flags, dependencies, READMEs,
changelogs, examples and source files, and what changed between two versions.

Layout:

- `src/` is the library, written and proved with Verus. It holds the models of
  a rustdoc crate and of a Cargo manifest, and the rules the server applies to
  them: path lookup and re-export resolution, signature rendering, item
  search, feature closures, version comparison, changelog selection, README
  sections, crate overviews, glob matching, safe source paths and source
  search. Public functions state their results in their contracts, over spec
  functions; where a result comes from the `semver`, `parse-changelog` or
  `rustdoc-types` crates, the contract names that crate's result instead of
  restating it. Laws that relate several functions stand as public proof
  functions (`law_*`).
- `app/` is the server around it: configuration, logging and tracing,
  downloads and caches, file reads, the conversion of rustdoc and manifest
  data into the library's models, and the MCP tool handlers.
- `tests/` runs the library on concrete values.
