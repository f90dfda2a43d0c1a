//! Strategies that compute the new content of tracked files.
pub mod cargo;
pub mod file;
pub mod search;
pub mod simple;

use vstd::prelude::*;

verus! {

/// The version text to replace, and the text that replaces it.
#[derive(Debug)]
pub struct VersionReplacement {
    pub old_version: String,
    pub new_version: String,
}

} // verus!
