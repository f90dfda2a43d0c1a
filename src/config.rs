//! What the tool is told to edit: tracked files and the workspace mode.
use vstd::prelude::*;

verus! {

/// How one tracked file is edited: with a verification pattern the edit is
/// context-verified, without one it is a direct substitution.
#[derive(Debug)]
pub struct FileTableData {
    pub search_value: Option<String>,
}

/// The tracked files, each path once, and the workspace propagation mode.
#[derive(Debug)]
pub struct Config {
    pub by_file: Option<Vec<(String, FileTableData)>>,
    pub cargo: Option<CargoReplaceMode>,
}

impl Config {
    /// No tracked file is listed twice.
    pub open spec fn wf(&self) -> bool {
        match self.by_file {
            Some(files) => forall|a: int, b: int|
                0 <= a < b < files@.len() ==> (#[trigger] files@[a]).0@ != (#[trigger] files@[b]).0@,
            None => true,
        }
    }
}

/// Which workspace packages have their version bumped.
#[derive(Debug)]
pub enum CargoReplaceMode {
    /// Every member of the workspace.
    Autodetect,
    /// The members with these names; other names are ignored.
    Packages(Vec<String>),
}

impl CargoReplaceMode {
    /// Whether the package called `name` is to be bumped.
    pub open spec fn targets(&self, name: Seq<char>) -> bool {
        match self {
            CargoReplaceMode::Autodetect => true,
            CargoReplaceMode::Packages(names) => exists|j: int|
                0 <= j < names@.len() && (#[trigger] names@[j])@ == name,
        }
    }

    /// Tells whether the package called `name` is to be bumped.
    pub fn is_target(&self, name: &String) -> (r: bool)
        ensures
            r == self.targets(name@),
    {
        match self {
            CargoReplaceMode::Autodetect => true,
            CargoReplaceMode::Packages(names) => {
                let mut j: usize = 0;
                while j < names.len()
                    invariant
                        j <= names@.len(),
                        self.targets(name@) == exists|k: int|
                            0 <= k < names@.len() && (#[trigger] names@[k])@ == name@,
                        forall|k: int| 0 <= k < j ==> (#[trigger] names@[k])@ != name@,
                    decreases names@.len() - j,
                {
                    if names[j] == *name {
                        assert(names@[j as int]@ == name@);
                        return true;
                    }
                    j = j + 1;
                }
                false
            },
        }
    }
}

} // verus!
