use bomper::description::description_from;

#[test]
fn comment_lines_are_dropped_and_text_trimmed() {
    let text = "\n# Please enter a description\n  Big release\n\n  # indented comment\nwith notes  \n# end";
    assert_eq!(description_from(text), Some("Big release\n\nwith notes".to_string()));
}

#[test]
fn only_comments_gives_none() {
    assert_eq!(description_from("# one\n   # two\n"), None);
    assert_eq!(description_from(""), None);
    assert_eq!(description_from(" \n\t\n\u{3000}"), None);
}

#[test]
fn crlf_endings_are_lines() {
    assert_eq!(description_from("#c\r\nfirst\r\nsecond\r\n"), Some("first\nsecond".to_string()));
}

#[test]
fn hash_after_text_is_kept() {
    assert_eq!(description_from("fix #12\n"), Some("fix #12".to_string()));
}
