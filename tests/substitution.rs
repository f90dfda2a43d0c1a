use bomper::error::BumpError;
use bomper::replacers::{search, simple};
use bomper::text::{candidate_context, replace_selected, splice, Span};

fn direct(content: &str, old: &str, new: &str) -> String {
    let replacer = simple::Replacer::new(String::from("file.txt"), old, new).unwrap();
    let edit = replacer.determine_replacements(content.as_bytes());
    assert_eq!(edit.path, "file.txt");
    String::from_utf8(edit.contents).unwrap()
}

#[test]
fn dual_replace() {
    let lock = r#"
# This file is automatically @generated by Cargo.
# It is not intended for manual editing.
version = 3

[[package]]
name = "package1"
version = "0.1.0"
dependencies = [
 "axum",
 "tokio",
 "tracing",
 "tracing-subscriber",
]

[[package]]
name = "package2"
version = "0.1.0"
dependencies = [
 "serde",
 "serde_json",
]

[[package]]
name = "package3"
version = "0.1.0"
dependencies = [
 "tracing",
 "tracing-subscriber",
]"#;
    let replacer = search::Replacer::new(
        String::from("Cargo.lock"),
        "0.1.0",
        "package1|package2",
        "0.2.0",
    )
    .unwrap();
    let edit = replacer.determine_replacements(lock.as_bytes()).unwrap();
    let replaced_value = String::from_utf8(edit.contents).unwrap();
    assert_eq!(
        replaced_value,
        r#"
# This file is automatically @generated by Cargo.
# It is not intended for manual editing.
version = 3

[[package]]
name = "package1"
version = "0.2.0"
dependencies = [
 "axum",
 "tokio",
 "tracing",
 "tracing-subscriber",
]

[[package]]
name = "package2"
version = "0.2.0"
dependencies = [
 "serde",
 "serde_json",
]

[[package]]
name = "package3"
version = "0.1.0"
dependencies = [
 "tracing",
 "tracing-subscriber",
]"#
    );
}

#[test]
fn direct_replaces_every_occurrence() {
    let out = direct("v=0.1.0\nw=0.1.0\nx=0.1.0 0.1.0\n", "0.1.0", "0.2.0");
    assert_eq!(out, "v=0.2.0\nw=0.2.0\nx=0.2.0 0.2.0\n");
}

#[test]
fn direct_matches_left_to_right_without_overlap() {
    assert_eq!(direct("aaaaa", "aa", "b"), "bba");
}

#[test]
fn direct_without_occurrence_is_unchanged() {
    assert_eq!(direct("nothing here\n", "0.1.0", "0.2.0"), "nothing here\n");
    assert_eq!(direct("", "0.1.0", "0.2.0"), "");
}

#[test]
fn direct_treats_versions_as_literal_text() {
    assert_eq!(direct("a.b a-b axb", "a.b", "$1"), "$1 a-b axb");
    assert_eq!(direct("1+2=3 1+2", "1+2", "x"), "x=3 x");
}

#[test]
fn direct_round_trip_restores_content() {
    let start = "name = \"x\"\nversion = \"0.1.0\"\n# 0.1.0 again\n";
    let there = direct(start, "0.1.0", "0.2.0");
    assert_ne!(there, start);
    let back = direct(&there, "0.2.0", "0.1.0");
    assert_eq!(back, start);
}

#[test]
fn context_gating_changes_only_the_vouched_occurrence() {
    let content = "[a]\nname = \"foo\"\nversion = \"0.1.0\"\n[b]\nname = \"bar\"\nversion = \"0.1.0\"\n";
    let replacer =
        search::Replacer::new(String::from("f.toml"), "0.1.0", "foo", "0.2.0").unwrap();
    let edit = replacer.determine_replacements(content.as_bytes()).unwrap();
    assert_eq!(
        String::from_utf8(edit.contents).unwrap(),
        "[a]\nname = \"foo\"\nversion = \"0.2.0\"\n[b]\nname = \"bar\"\nversion = \"0.1.0\"\n"
    );
}

#[test]
fn context_is_the_two_lines_before() {
    // the pattern sits three lines above the second occurrence: not in its context
    let content = "foo\nx\n0.1.0\ny\nz\n0.1.0\n";
    let replacer =
        search::Replacer::new(String::from("f"), "0.1.0", "foo", "9.9.9").unwrap();
    let edit = replacer.determine_replacements(content.as_bytes()).unwrap();
    assert_eq!(
        String::from_utf8(edit.contents).unwrap(),
        "foo\nx\n9.9.9\ny\nz\n0.1.0\n"
    );
}

#[test]
fn occurrence_on_first_lines_has_no_context() {
    let content = "foo 0.1.0\nfoo 0.1.0\n";
    let replacer =
        search::Replacer::new(String::from("f"), "0.1.0", "foo", "0.2.0").unwrap();
    let r = replacer.determine_replacements(content.as_bytes());
    assert!(matches!(r, Err(BumpError::NoValidatedMatches)));
}

#[test]
fn zero_validated_matches_is_an_error() {
    let content = "a\nb\nversion = 0.1.0\n";
    let replacer =
        search::Replacer::new(String::from("f"), "0.1.0", "nomatch", "0.2.0").unwrap();
    let r = replacer.determine_replacements(content.as_bytes());
    assert!(matches!(r, Err(BumpError::NoValidatedMatches)));
}

#[test]
fn invalid_verification_pattern_is_refused() {
    let r = search::Replacer::new(String::from("f"), "0.1.0", "(unclosed", "0.2.0");
    assert!(matches!(r, Err(BumpError::Regex(_))));
}

#[test]
fn length_law_holds_for_validated_spans() {
    let content = "x\ny foo\nv 0.1.0\nq\nr\nv 0.1.0\nfoo\ns\nv 0.1.0 end\n";
    let replacer =
        search::Replacer::new(String::from("f"), "0.1.0", "foo", "10.20.30").unwrap();
    let edit = replacer.determine_replacements(content.as_bytes()).unwrap();
    // two spans validated, each 5 bytes, each replaced by 8 bytes
    assert_eq!(edit.contents.len(), content.len() - 2 * 5 + 2 * 8);
    assert_eq!(
        String::from_utf8(edit.contents).unwrap(),
        "x\ny foo\nv 10.20.30\nq\nr\nv 0.1.0\nfoo\ns\nv 10.20.30 end\n"
    );
}

#[test]
fn splice_replaces_spans_and_keeps_gaps() {
    let spans = [Span { start: 1, end: 3 }, Span { start: 5, end: 6 }];
    let out = splice(b"abcdefg", &spans, b"XY").unwrap();
    assert_eq!(out, b"aXYdeXYg".to_vec());
    let out = splice(b"abc", &[], b"XY").unwrap();
    assert_eq!(out, b"abc".to_vec());
}

#[test]
fn splice_refuses_overlapping_spans() {
    let spans = [Span { start: 1, end: 4 }, Span { start: 3, end: 5 }];
    assert!(matches!(splice(b"abcdefg", &spans, b"X"), Err(BumpError::OverlappingSpans)));
    let outside = [Span { start: 5, end: 9 }];
    assert!(matches!(splice(b"abcdefg", &outside, b"X"), Err(BumpError::OverlappingSpans)));
}

#[test]
fn replace_selected_uses_the_verdicts() {
    let out = replace_selected(b"ab ab ab", &[0, 3, 6], 2, &[true, false, true], b"Z").unwrap();
    assert_eq!(out, b"Z ab Z".to_vec());
    let none = replace_selected(b"ab ab", &[0, 3], 2, &[false, false], b"Z");
    assert!(matches!(none, Err(BumpError::NoValidatedMatches)));
}

#[test]
fn candidate_context_spans_two_lines() {
    let buf = b"one\ntwo\nthree 0.1.0\n";
    let c = candidate_context(buf, 14).unwrap();
    assert_eq!((c.start, c.end), (0, 8));
    assert!(candidate_context(b"one\ntwo 0.1.0", 8).is_none());
    let deeper = b"a\nb\nc\nd x";
    let c = candidate_context(deeper, 8).unwrap();
    assert_eq!((c.start, c.end), (2, 6));
}
