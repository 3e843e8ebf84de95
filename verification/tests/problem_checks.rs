use mit_lint::{Code, CommitMessage, Problem};

#[test]
fn test_has_error() {
    let problem = Problem::new(
        "Some error".into(),
        "".into(),
        Code::NotConventionalCommit,
        &CommitMessage::parse(""),
        None,
        None,
    );
    assert_eq!(problem.error(), "Some error");
}

#[test]
fn test_has_has_tip() {
    let problem = Problem::new(
        "".into(),
        "Some tip".into(),
        Code::NotConventionalCommit,
        &CommitMessage::parse(""),
        None,
        None,
    );
    assert_eq!(problem.tip(), "Some tip");
}

#[test]
fn test_has_has_code() {
    let problem = Problem::new(
        "".into(),
        "".into(),
        Code::NotConventionalCommit,
        &CommitMessage::parse(""),
        None,
        None,
    );
    assert_eq!(problem.code(), &Code::NotConventionalCommit);
}

#[test]
fn test_it_contains_the_triggering_message() {
    let problem = Problem::new(
        "".into(),
        "".into(),
        Code::NotConventionalCommit,
        &CommitMessage::parse(&*"Commit message"),
        None,
        None,
    );
    assert_eq!(
        problem.commit_message(),
        CommitMessage::parse(&*"Commit message")
    );
}

#[test]
fn test_it_contains_the_labels() {
    let problem = Problem::new(
        "".into(),
        "".into(),
        Code::NotConventionalCommit,
        &CommitMessage::parse(&*"Commit message"),
        Some(vec![("String".to_string(), 10_usize, 20_usize)]),
        None,
    );
    assert_eq!(
        problem.labels().unwrap(),
        &vec![("String".to_string(), 10_usize, 20_usize)]
    );
}
