//! Propagates a version-string change across tracked files and rebuilds a
//! commit tree with the edited files replaced.
pub mod app;
pub mod changelog;
pub mod config;
pub mod description;
pub mod documents;
pub mod error;
pub mod foreign;
pub mod laws;
pub mod pattern;
pub mod replacers;
pub mod tree;
pub mod versioning;
pub mod text;
