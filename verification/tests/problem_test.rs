use mit_lint::{Code, CommitMessage, Problem};

#[test]
fn test_error_returns_correct_value() {
    let problem = Problem::new(
        "Some error".into(),
        String::new(),
        Code::NotConventionalCommit,
        &CommitMessage::parse(""),
        None,
        None,
    );
    assert_eq!(problem.error(), "Some error");
}

#[test]
fn test_empty_commit_returns_no_labels() {
    let problem = Problem::new(
        String::new(),
        String::new(),
        Code::NotConventionalCommit,
        &CommitMessage::parse(""),
        Some(vec![("String".to_string(), 10_usize, 20_usize)]),
        None,
    );
    assert!(problem.labels().is_none());
}

#[test]
fn test_empty_commit_returns_no_source_code() {
    let problem = Problem::new(
        String::new(),
        String::new(),
        Code::NotConventionalCommit,
        &CommitMessage::parse(""),
        Some(vec![("String".to_string(), 10_usize, 20_usize)]),
        None,
    );
    assert!(problem.source_code().is_none());
}

#[test]
fn test_tip_returns_correct_value() {
    let problem = Problem::new(
        String::new(),
        "Some tip".into(),
        Code::NotConventionalCommit,
        &CommitMessage::parse(""),
        None,
        None,
    );
    assert_eq!(problem.tip(), "Some tip");
}

#[test]
fn test_code_returns_correct_value() {
    let problem = Problem::new(
        String::new(),
        String::new(),
        Code::NotConventionalCommit,
        &CommitMessage::parse(""),
        None,
        None,
    );
    assert_eq!(problem.code(), &Code::NotConventionalCommit);
}

#[test]
fn test_commit_message_returns_correct_value() {
    let problem = Problem::new(
        String::new(),
        String::new(),
        Code::NotConventionalCommit,
        &CommitMessage::parse(&*"Commit message"),
        None,
        None,
    );
    assert_eq!(
        problem.commit_message(),
        CommitMessage::parse(&*"Commit message")
    );
}

#[test]
fn test_labels_return_correct_values() {
    let problem = Problem::new(
        String::new(),
        String::new(),
        Code::NotConventionalCommit,
        &CommitMessage::parse(&*"Commit message"),
        Some(vec![("String".to_string(), 10_usize, 20_usize)]),
        None,
    );
    assert_eq!(
        problem.labels().unwrap(),
        &vec![("String".to_string(), 10_usize, 20_usize)]
    );
}
