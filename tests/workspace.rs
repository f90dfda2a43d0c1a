use bomper::config::CargoReplaceMode;
use bomper::error::BumpError;
use bomper::replacers::cargo::{Replacer, Workspace, WorkspacePackage};
use bomper::replacers::VersionReplacement;

fn versions(old: &str, new: &str) -> VersionReplacement {
    VersionReplacement {
        old_version: old.to_string(),
        new_version: new.to_string(),
    }
}

fn member(name: &str, path: &str, manifest: &str) -> WorkspacePackage {
    WorkspacePackage {
        name: name.to_string(),
        manifest_path: path.to_string(),
        manifest: manifest.as_bytes().to_vec(),
    }
}

const THREE_LOCK: &str = r#"# This file is automatically @generated by Cargo.
# It is not intended for manual editing.
version = 3

[[package]]
name = "a"
version = "0.1.0"

[[package]]
name = "b"
version = "0.1.0"

[[package]]
name = "c"
version = "0.1.0"

[[package]]
name = "serde"
version = "0.1.0"
"#;

const ROOT_A: &str = r#"[package]
name = "a"
version = "0.1.0"
edition = "2021"

[workspace]
members = ["b", "c"]

[workspace.package]
version = "0.1.0"
"#;

const B: &str = "[package]\nname = \"b\"\nversion = \"0.1.0\"\nedition = \"2021\"\n";
const C: &str = "[package]\nname = \"c\"\nversion.workspace = true\nedition = \"2021\"\n";

fn three_members() -> Workspace {
    Workspace {
        root_manifest_path: "Cargo.toml".to_string(),
        root_manifest: ROOT_A.as_bytes().to_vec(),
        lock_path: "Cargo.lock".to_string(),
        lock: THREE_LOCK.to_string(),
        packages: vec![
            member("a", "Cargo.toml", ROOT_A),
            member("b", "b/Cargo.toml", B),
            member("c", "c/Cargo.toml", C),
        ],
    }
}

#[test]
fn propagator_dedups_root_and_skips_inheriting_member() {
    let ws = three_members();
    let edits = Replacer::new(versions("0.1.0", "0.2.0"), CargoReplaceMode::Autodetect)
        .determine_replacements(&ws)
        .unwrap();
    let paths: Vec<&str> = edits.iter().map(|e| e.path.as_str()).collect();
    assert_eq!(paths, vec!["Cargo.lock", "Cargo.toml", "b/Cargo.toml"]);

    let lock = String::from_utf8(edits[0].contents.clone()).unwrap();
    assert!(lock.contains("name = \"a\"\nversion = \"0.2.0\""));
    assert!(lock.contains("name = \"c\"\nversion = \"0.2.0\""));
    assert!(lock.contains("name = \"serde\"\nversion = \"0.1.0\""));

    let root = String::from_utf8(edits[1].contents.clone()).unwrap();
    assert!(!root.contains("0.1.0"));
    assert_eq!(root.matches("0.2.0").count(), 2);
    let b = String::from_utf8(edits[2].contents.clone()).unwrap();
    assert!(b.contains("version = \"0.2.0\""));
}

#[test]
fn explicit_list_selects_named_members_only() {
    let ws = three_members();
    let mode = CargoReplaceMode::Packages(vec!["b".to_string(), "missing".to_string()]);
    let edits = Replacer::new(versions("0.1.0", "0.2.0"), mode)
        .determine_replacements(&ws)
        .unwrap();
    let paths: Vec<&str> = edits.iter().map(|e| e.path.as_str()).collect();
    // the root still shares 0.1.0 with its members, so it is bumped too
    assert_eq!(paths, vec!["Cargo.lock", "b/Cargo.toml", "Cargo.toml"]);
    let lock = String::from_utf8(edits[0].contents.clone()).unwrap();
    assert!(lock.contains("name = \"a\"\nversion = \"0.1.0\""));
    assert!(lock.contains("name = \"b\"\nversion = \"0.2.0\""));
}

#[test]
fn no_matching_version_gives_no_edit() {
    let ws = three_members();
    let edits = Replacer::new(versions("1.0.0", "1.1.0"), CargoReplaceMode::Autodetect)
        .determine_replacements(&ws)
        .unwrap();
    assert!(edits.is_empty());
}

#[test]
fn invalid_version_is_refused() {
    let ws = three_members();
    let r = Replacer::new(versions("0.1.0", "not a version"), CargoReplaceMode::Autodetect)
        .determine_replacements(&ws);
    assert!(matches!(r, Err(BumpError::InvalidVersion(_))));
}

#[test]
fn malformed_lock_file_is_refused() {
    let mut ws = three_members();
    ws.lock = "this is [not a lock".to_string();
    let r = Replacer::new(versions("0.1.0", "0.2.0"), CargoReplaceMode::Autodetect)
        .determine_replacements(&ws);
    assert!(matches!(r, Err(BumpError::CargoLock(_))));
}

#[test]
fn member_without_package_table_is_refused() {
    let mut ws = three_members();
    ws.packages[1] = member("b", "b/Cargo.toml", "[dependencies]\nserde = \"1\"\n");
    let r = Replacer::new(versions("0.1.0", "0.2.0"), CargoReplaceMode::Autodetect)
        .determine_replacements(&ws);
    assert!(matches!(r, Err(BumpError::InvalidCargoToml(p)) if p == "b/Cargo.toml"));
}

#[test]
fn malformed_manifest_is_refused() {
    let mut ws = three_members();
    ws.packages[1] = member("b", "b/Cargo.toml", "[package\n");
    let r = Replacer::new(versions("0.1.0", "0.2.0"), CargoReplaceMode::Autodetect)
        .determine_replacements(&ws);
    assert!(matches!(r, Err(BumpError::CargoToml(_))));
}

#[test]
fn single_package_workspace_bumps_manifest_and_lock() {
    let cargo_toml = r#"
[package]
name = "package1"
edition = "2018"
version = "0.1.0"

[dependencies]
package2 = "0.1.0"
package3 = "0.1.0"
"#;
    let expected_toml = r#"[package]
name = "package1"
edition = "2018"
version = "0.2.0"

[dependencies]
package2 = "0.1.0"
package3 = "0.1.0"
"#;
    let cargo_lock = r#"# This file is automatically @generated by Cargo.
# It is not intended for manual editing.
version = 3

[[package]]
name = "package1"
version = "0.1.0"
dependencies = [
 "package2",
 "package3",
]

[[package]]
name = "package2"
version = "0.1.0"

[[package]]
name = "package3"
version = "0.1.0"
"#;
    let expected_lock = r#"# This file is automatically @generated by Cargo.
# It is not intended for manual editing.
version = 3

[[package]]
name = "package1"
version = "0.2.0"
dependencies = [
 "package2",
 "package3",
]

[[package]]
name = "package2"
version = "0.1.0"

[[package]]
name = "package3"
version = "0.1.0"
"#;
    let ws = Workspace {
        root_manifest_path: "Cargo.toml".to_string(),
        root_manifest: cargo_toml.as_bytes().to_vec(),
        lock_path: "Cargo.lock".to_string(),
        lock: cargo_lock.to_string(),
        packages: vec![member("package1", "Cargo.toml", cargo_toml)],
    };
    let version_replacement = versions("0.1.0", "0.2.0");
    let replacers = Replacer::new(version_replacement, CargoReplaceMode::Autodetect)
        .determine_replacements(&ws)
        .unwrap();
    assert_eq!(replacers.len(), 2);
    for replacer in replacers {
        let file_contents = String::from_utf8(replacer.contents).unwrap();
        if replacer.path.ends_with("Cargo.toml") {
            // cargo_toml 0.20 writes `version` before `edition`; older
            // versions kept the order of the input, so compare the manifest
            // with the edition line set apart, and check that line on its own.
            assert_eq!(file_contents.replace("edition = \"2018\"\n", ""), expected_toml.replace("edition = \"2018\"\n", ""));
            assert!(file_contents.contains("edition = \"2018\"\n"));
        } else if replacer.path.ends_with("Cargo.lock") {
            assert_eq!(file_contents, expected_lock);
        } else {
            panic!("Unexpected file path: {}", replacer.path);
        }
    }
}

