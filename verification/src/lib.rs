//! Keeps a crate's documentation in sync with other text files: resolves the
//! intra-doc links of a crate's top-level documentation to URLs and rewrites
//! the markdown so that it renders outside of rustdoc.

pub mod config;
pub mod edit_crate_docs;
pub mod error_sink;
pub mod extract_crate_docs;
pub mod extract_feature_docs;
pub mod git;
pub mod insert_docs;
pub mod markdown;
pub mod markdown_rs;
pub mod pretty_log;
pub mod rustdoc_json;
pub mod selection;
pub mod string_replacer;
pub mod style;
pub mod text;
