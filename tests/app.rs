use bomper::app::{determine_changes, App, ApplyPlan, RawBump, Sources};
use bomper::config::{Config, FileTableData};
use bomper::error::BumpError;
use bomper::replacers::VersionReplacement;

fn config() -> Config {
    Config {
        by_file: Some(vec![
            ("README.md".to_string(), FileTableData { search_value: None }),
            ("Cargo.lock".to_string(), FileTableData { search_value: Some("bomper".to_string()) }),
        ]),
        cargo: None,
    }
}

fn sources() -> Sources {
    Sources {
        files: vec![
            b"version 0.1.0, see 0.1.0\n".to_vec(),
            b"[[package]]\nname = \"bomper\"\nversion = \"0.1.0\"\n[[package]]\nname = \"other\"\nversion = \"0.1.0\"\n".to_vec(),
        ],
        workspace: None,
    }
}

fn opts(dry_run: bool) -> RawBump {
    RawBump {
        old_version: "0.1.0".to_string(),
        new_version: "0.2.0".to_string(),
        dry_run,
    }
}

#[test]
fn determine_changes_plans_each_file_in_order() {
    let replacement = VersionReplacement {
        old_version: "0.1.0".to_string(),
        new_version: "0.2.0".to_string(),
    };
    let edits = determine_changes(&config(), &replacement, &sources()).unwrap();
    assert_eq!(edits.len(), 2);
    assert_eq!(edits[0].path, "README.md");
    assert_eq!(edits[0].contents, b"version 0.2.0, see 0.2.0\n".to_vec());
    assert_eq!(edits[1].path, "Cargo.lock");
    assert_eq!(
        edits[1].contents,
        b"[[package]]\nname = \"bomper\"\nversion = \"0.2.0\"\n[[package]]\nname = \"other\"\nversion = \"0.1.0\"\n".to_vec()
    );
}

#[test]
fn dry_run_shows_and_persist_writes() {
    let app = App::new(config());
    match app.raw_bump(&opts(true), &sources()).unwrap() {
        ApplyPlan::DryRun(edits) => assert_eq!(edits.len(), 2),
        ApplyPlan::Persist(_) => panic!("a dry run writes nothing"),
    }
    match app.raw_bump(&opts(false), &sources()).unwrap() {
        ApplyPlan::Persist(edits) => assert_eq!(edits.len(), 2),
        ApplyPlan::DryRun(_) => panic!("expected edits to persist"),
    }
}

#[test]
fn a_failing_file_fails_the_whole_plan() {
    let app = App::new(config());
    let mut inputs = sources();
    inputs.files[1] = b"nothing to vouch for 0.1.0\n".to_vec();
    assert!(matches!(app.raw_bump(&opts(false), &inputs), Err(BumpError::NoValidatedMatches)));
}
