//! Verified core of a documentation server for Rust crates: text handling,
//! rustdoc index lookups, rendering, feature analysis and version comparison.

pub mod cache;
pub mod changelog;
pub mod code_blocks;
pub mod compare;
pub mod deps;
pub mod errors;
pub mod examples;
pub mod features;
pub mod glob;
pub mod impls;
pub mod listing;
pub mod lookup;
pub mod markdown;
pub mod metadata;
pub mod model;
pub mod order;
pub mod overview;
pub mod render;
pub mod requirement;
pub mod search;
pub mod settings;
pub mod source;
pub mod text;
pub mod versions;
