use vstd::prelude::*;

verus! {

/// Everything that can stop planning or building an edit.
#[derive(Debug)]
pub enum BumpError {
    /// Two replacement spans overlap, run backwards or leave the buffer.
    OverlappingSpans,
    /// No occurrence passed the verification pattern.
    NoValidatedMatches,
    /// A pattern that the regex syntax refuses.
    Regex(regex::Error),
    /// A version text that is no semantic version.
    InvalidVersion(semver::Error),
    /// A lock file that does not parse.
    CargoLock(cargo_lock::Error),
    /// A manifest that does not parse.
    CargoToml(cargo_toml::Error),
    /// A manifest that cannot be written back as TOML.
    TomlSerialize(toml::ser::Error),
    /// An edited path that is no file of the reference tree any more.
    StaleTarget(String),
    /// A tree of the reference graph that was not supplied.
    MissingTree,
    /// An existing changelog without the marker that entries go after.
    ChangelogMarker,
    /// A member manifest, at this path, without a `[package]` table.
    InvalidCargoToml(String),
}

} // verus!
