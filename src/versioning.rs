//! Version increments: how a semantic version moves on, and which step the
//! commits since the last version call for.
use vstd::prelude::*;

verus! {

/// A semantic version: numbers, pre-release and build metadata.
#[derive(Debug)]
pub struct VersionNumber {
    pub major: u64,
    pub minor: u64,
    pub patch: u64,
    pub pre: String,
    pub build: String,
}

/// How a version moves on.
#[derive(Debug)]
pub enum VersionIncrement {
    /// To this version, whatever the current one.
    Manual(VersionNumber),
    Major,
    Minor,
    Patch,
}

/// What a commit since the last version says about the next one.
#[derive(Debug)]
pub struct CommitImpact {
    /// The commit declares a breaking change.
    pub breaking: bool,
    /// The commit is a feature.
    pub feature: bool,
}

/// Incrementing the number at `increment` would not overflow.
pub open spec fn can_increment(version: VersionNumber, increment: VersionIncrement) -> bool {
    match increment {
        VersionIncrement::Major => version.major < u64::MAX,
        VersionIncrement::Minor => version.minor < u64::MAX,
        VersionIncrement::Patch => version.patch < u64::MAX,
        VersionIncrement::Manual(_) => true,
    }
}

/// Tells whether incrementing at `increment` would not overflow.
pub fn increment_fits(version: &VersionNumber, increment: &VersionIncrement) -> (r: bool)
    ensures
        r == can_increment(*version, *increment),
{
    match increment {
        VersionIncrement::Major => version.major < u64::MAX,
        VersionIncrement::Minor => version.minor < u64::MAX,
        VersionIncrement::Patch => version.patch < u64::MAX,
        VersionIncrement::Manual(_) => true,
    }
}

/// Moves `version` on: a manual increment gives its version; the others
/// add one to their number, zero the numbers below it, and drop the
/// pre-release and build metadata.
pub fn increment_version(version: VersionNumber, increment: VersionIncrement) -> (r: VersionNumber)
    requires
        can_increment(version, increment),
    ensures
        match increment {
            VersionIncrement::Manual(v) => r == v,
            VersionIncrement::Major => r.major == version.major + 1 && r.minor == 0 && r.patch == 0,
            VersionIncrement::Minor => r.major == version.major && r.minor == version.minor + 1
                && r.patch == 0,
            VersionIncrement::Patch => r.major == version.major && r.minor == version.minor
                && r.patch == version.patch + 1,
        },
        !(increment is Manual) ==> r.pre@.len() == 0 && r.build@.len() == 0,
{
    match increment {
        VersionIncrement::Manual(v) => v,
        VersionIncrement::Major => VersionNumber {
            major: version.major + 1,
            minor: 0,
            patch: 0,
            pre: String::new(),
            build: String::new(),
        },
        VersionIncrement::Minor => VersionNumber {
            major: version.major,
            minor: version.minor + 1,
            patch: 0,
            pre: String::new(),
            build: String::new(),
        },
        VersionIncrement::Patch => VersionNumber {
            major: version.major,
            minor: version.minor,
            patch: version.patch + 1,
            pre: String::new(),
            build: String::new(),
        },
    }
}

/// The step that commits call for: a breaking change bumps the major
/// number (the minor one before 1.0.0), otherwise a feature bumps the minor
/// number, otherwise the patch number is bumped.
pub fn determine_increment(commits: &[CommitImpact], current_version: &VersionNumber) -> (r:
    VersionIncrement)
    ensures
        ({
            let breaking = exists|i: int| 0 <= i < commits@.len() && (#[trigger] commits@[i]).breaking;
            let feature = exists|i: int| 0 <= i < commits@.len() && (#[trigger] commits@[i]).feature;
            if breaking {
                if current_version.major == 0 {
                    r is Minor
                } else {
                    r is Major
                }
            } else if feature {
                r is Minor
            } else {
                r is Patch
            }
        }),
{
    let mut has_breaking = false;
    let mut has_feature = false;
    let mut i: usize = 0;
    while i < commits.len()
        invariant
            i <= commits@.len(),
            has_breaking == exists|j: int| 0 <= j < i && (#[trigger] commits@[j]).breaking,
            has_feature == exists|j: int| 0 <= j < i && (#[trigger] commits@[j]).feature,
        decreases commits@.len() - i,
    {
        has_breaking = has_breaking || commits[i].breaking;
        has_feature = has_feature || commits[i].feature;
        i = i + 1;
    }
    if has_breaking {
        if current_version.major == 0 {
            VersionIncrement::Minor
        } else {
            VersionIncrement::Major
        }
    } else if has_feature {
        VersionIncrement::Minor
    } else {
        VersionIncrement::Patch
    }
}

} // verus!
