//! A pending edit: a tracked file's path and its fully computed new content.
use vstd::prelude::*;

verus! {

/// The new content of the file at `path`, not yet written anywhere.
#[derive(Debug)]
pub struct Replacer {
    pub path: String,
    pub contents: Vec<u8>,
}

} // verus!
