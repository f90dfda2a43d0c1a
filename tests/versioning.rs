use bomper::versioning::{
    determine_increment, increment_fits, increment_version, CommitImpact, VersionIncrement,
    VersionNumber,
};

fn v(major: u64, minor: u64, patch: u64) -> VersionNumber {
    VersionNumber {
        major,
        minor,
        patch,
        pre: "rc.1".to_string(),
        build: "b7".to_string(),
    }
}

fn impact(breaking: bool, feature: bool) -> CommitImpact {
    CommitImpact { breaking, feature }
}

#[test]
fn increments_reset_lower_numbers_and_metadata() {
    let r = increment_version(v(1, 2, 3), VersionIncrement::Major);
    assert_eq!((r.major, r.minor, r.patch, r.pre.as_str(), r.build.as_str()), (2, 0, 0, "", ""));
    let r = increment_version(v(1, 2, 3), VersionIncrement::Minor);
    assert_eq!((r.major, r.minor, r.patch), (1, 3, 0));
    let r = increment_version(v(1, 2, 3), VersionIncrement::Patch);
    assert_eq!((r.major, r.minor, r.patch, r.pre.as_str()), (1, 2, 4, ""));
    let r = increment_version(v(1, 2, 3), VersionIncrement::Manual(v(7, 0, 1)));
    assert_eq!((r.major, r.minor, r.patch, r.pre.as_str()), (7, 0, 1, "rc.1"));
}

#[test]
fn breaking_change_bumps_major_after_one_zero() {
    let commits = vec![impact(false, true), impact(true, false)];
    assert!(matches!(determine_increment(&commits, &v(1, 0, 0)), VersionIncrement::Major));
    assert!(matches!(determine_increment(&commits, &v(0, 4, 0)), VersionIncrement::Minor));
}

#[test]
fn feature_bumps_minor_otherwise_patch() {
    assert!(matches!(
        determine_increment(&[impact(false, false), impact(false, true)], &v(1, 0, 0)),
        VersionIncrement::Minor
    ));
    assert!(matches!(
        determine_increment(&[impact(false, false)], &v(1, 0, 0)),
        VersionIncrement::Patch
    ));
    assert!(matches!(determine_increment(&[], &v(1, 0, 0)), VersionIncrement::Patch));
}

#[test]
fn increment_fits_guards_overflow() {
    assert!(increment_fits(&v(1, 2, 3), &VersionIncrement::Major));
    assert!(!increment_fits(&v(u64::MAX, 2, 3), &VersionIncrement::Major));
    assert!(increment_fits(&v(u64::MAX, 2, 3), &VersionIncrement::Minor));
    assert!(!increment_fits(&v(1, 2, u64::MAX), &VersionIncrement::Patch));
}
