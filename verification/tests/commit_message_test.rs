use mit_lint::CommitMessage;

#[test]
fn parse_splits_subject_body_and_trailers() {
    let source = "Subject line\n\nSome body text\n\nSigned-off-by: Someone <someone@example.com>\nRelates-to: #12\n";
    let commit = CommitMessage::parse(source);
    assert_eq!(commit.source, source);
    assert_eq!(commit.text, source);
    assert_eq!(commit.subject, "Subject line");
    assert_eq!(
        commit.trailers,
        vec![
            ("Signed-off-by".to_string(), "Someone <someone@example.com>".to_string()),
            ("Relates-to".to_string(), "#12".to_string()),
        ]
    );
    assert!(commit.body.contains("Some body text"));
    assert!(!commit.body.contains("Subject line"));
    assert_eq!(commit.comment_char, None);
    assert_eq!(commit.scissors, None);
}

#[test]
fn parse_finds_comments_and_scissors() {
    let source = "Subject\n\nBody\n# a comment\n# ------------------------ >8 ------------------------\n# Do not modify or remove the line above.\ndiff --git a/x b/x\n";
    let commit = CommitMessage::parse(source);
    assert_eq!(commit.subject, "Subject");
    assert_eq!(commit.comment_char, Some('#'));
    let scissors = commit.scissors.clone().unwrap();
    assert!(scissors.starts_with("# ------------------------ >8"));
    assert!(commit.text.ends_with(&format!("\n{scissors}")));
    assert!(!commit.body.contains("diff --git"));
}

#[test]
fn parse_of_empty_message() {
    let commit = CommitMessage::parse("");
    assert_eq!(commit.subject, "");
    assert_eq!(commit.text, "");
    assert!(commit.trailers.is_empty());
}

#[test]
fn parse_renders_line_breaks_as_line_feeds() {
    let commit = CommitMessage::parse("Subject\r\n\r\nBody\r\n");
    assert_eq!(commit.text, "Subject\n\nBody\n");
    assert_eq!(commit.subject, "Subject");
    assert_eq!(commit.body, "\n\nBody");
}
