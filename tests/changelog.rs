use bomper::changelog::{
    author_name, changelog_entry, create_changelog, display_commit_type, remove_suffix,
    ChangelogCommit, CommitRecord, CommitType,
};
use bomper::error::BumpError;

fn url() -> Option<(String, String)> {
    Some(("github.com".to_string(), "justinrubek/bomper".to_string()))
}

fn authors() -> Option<Vec<(String, String)>> {
    Some(vec![("Justin Rubek".to_string(), "justinrubek".to_string())])
}

#[test]
fn commit_type_headings() {
    assert_eq!(display_commit_type(&CommitType::Feature), "features");
    assert_eq!(display_commit_type(&CommitType::BugFix), "bug fixes");
    assert_eq!(display_commit_type(&CommitType::Ci), "continuous integration");
    assert_eq!(display_commit_type(&CommitType::Performances), "performance");
    assert_eq!(display_commit_type(&CommitType::Custom("deps".to_string())), "deps");
}

#[test]
fn remove_suffix_strips_only_a_suffix() {
    assert_eq!(remove_suffix("justinrubek/bomper.git", ".git"), "justinrubek/bomper");
    assert_eq!(remove_suffix("justinrubek/bomper", ".git"), "justinrubek/bomper");
    assert_eq!(remove_suffix(".git", ".git"), "");
    assert_eq!(remove_suffix("git", ".git"), "git");
    assert_eq!(remove_suffix("ünï.git", ".git"), "ünï");
}

#[test]
fn author_links_to_configured_account() {
    assert_eq!(
        author_name("Justin Rubek".to_string(), &authors(), &url()),
        "[@justinrubek](https://github.com/justinrubek)"
    );
    assert_eq!(author_name("Someone".to_string(), &authors(), &url()), "Someone");
    assert_eq!(author_name("Justin Rubek".to_string(), &authors(), &None), "Justin Rubek");
    assert_eq!(author_name("Justin Rubek".to_string(), &None, &url()), "Justin Rubek");
}

#[test]
fn commit_line_text() {
    let c = ChangelogCommit {
        scope: Some("cli".to_string()),
        summary: "add flag".to_string(),
        hash: "abc1234".to_string(),
        author: "me".to_string(),
    };
    assert_eq!(c.to_text(), "**(cli)** add flag - (abc1234) - me");
    let c = ChangelogCommit { scope: None, ..c };
    assert_eq!(c.to_text(), "add flag - (abc1234) - me");
}

fn record(id: &str, commit_type: CommitType, summary: &str) -> CommitRecord {
    CommitRecord {
        commit_id: id.to_string(),
        commit_type,
        scope: None,
        summary: summary.to_string(),
        author: "Justin Rubek".to_string(),
    }
}

#[test]
fn entry_groups_commits_by_type_in_first_seen_order() {
    let commits = vec![
        record("1111111aaaa", CommitType::BugFix, "fix one"),
        record("2222222bbbb", CommitType::Feature, "feat one"),
        record("3333333cccc", CommitType::BugFix, "fix two"),
    ];
    let entry = changelog_entry(&commits, "0.2.0", None, &authors(), &url());
    assert_eq!(
        entry.version,
        "[0.2.0](https://github.com/justinrubek/bomper/releases/tag/0.2.0)"
    );
    assert_eq!(entry.commits.len(), 2);
    assert_eq!(entry.commits[0].0, "bug fixes");
    assert_eq!(entry.commits[0].1.len(), 2);
    assert_eq!(entry.commits[0].1[1].summary, "fix two");
    assert_eq!(
        entry.commits[0].1[0].hash,
        "[1111111](https://github.com/justinrubek/bomper/commit/1111111aaaa)"
    );
    assert_eq!(entry.commits[1].0, "features");
    assert_eq!(entry.commits[1].1[0].author, "[@justinrubek](https://github.com/justinrubek)");
}

#[test]
fn entry_without_remote_keeps_plain_text() {
    let commits = vec![record("1111111aaaa", CommitType::Chore, "tidy")];
    let entry = changelog_entry(&commits, "unreleased", Some("notes".to_string()), &authors(), &None);
    assert_eq!(entry.version, "unreleased");
    assert_eq!(entry.commits[0].0, "chores");
    assert_eq!(entry.commits[0].1[0].hash, "1111111aaaa");
    assert_eq!(entry.commits[0].1[0].author, "Justin Rubek");
    assert_eq!(entry.description, Some("notes".to_string()));
}

#[test]
fn new_changelog_holds_entry_between_markers() {
    let out = create_changelog(None, b"## 0.2.0").unwrap();
    assert_eq!(
        String::from_utf8(out).unwrap(),
        "# Changelog\n\n- - -\n\n## 0.2.0\n\n- - -\n\ngenerated by [bomper](https://github.com/justinrubek/bomper)"
    );
}

#[test]
fn entry_goes_after_the_header() {
    let old = b"# Changelog\n\n- - -\n## 0.1.0\n- - -\n";
    let out = create_changelog(Some(old), b"## 0.2.0").unwrap();
    assert_eq!(
        String::from_utf8(out).unwrap(),
        "# Changelog\n\n- - -\n\n## 0.2.0\n- - -\n## 0.1.0\n- - -\n"
    );
}

#[test]
fn changelog_without_marker_is_refused() {
    let r = create_changelog(Some(b"# Changelog\n- -\n"), b"## 0.2.0");
    assert!(matches!(r, Err(BumpError::ChangelogMarker)));
}
