//! A template rendering engine for project scaffolding: it copies a template
//! tree while skipping excluded entries, then rewrites a declared subset of
//! files by substituting named variables into placeholders, with ordered key
//! merging for structured documents and literal replacement for plain text.

pub mod args;
pub mod cli;
pub mod config;
pub mod context;
pub mod document;
pub mod exclusion;
pub mod file_config;
pub mod github;
pub mod json;
pub mod manifest;
pub mod render;
pub mod serialize;
pub mod substitute;
pub mod template;
pub mod text;
pub mod tree;
pub mod validation;
pub mod value;
