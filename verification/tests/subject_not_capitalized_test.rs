use mit_lint::checks::subject_not_capitalized::{lint, ERROR, HELP_MESSAGE};
use mit_lint::{Code, CommitMessage, Problem};

#[test]
fn capitalised() {
    run_test("Subject Line", &None);
}

#[test]
fn lower_case() {
    run_test(
        "subject line
",
        &Some(Problem::new(
            ERROR.into(),
            HELP_MESSAGE.into(),
            Code::SubjectNotCapitalized,
            &CommitMessage::parse("subject line
"),
            Some(vec![("Not capitalised".to_string(), 0_usize, 1_usize)]),
            Some("https://git-scm.com/book/en/v2/Distributed-Git-Contributing-to-a-Project#_commit_guidelines".parse().unwrap()),
        )),
    );
}

#[test]
fn space_first() {
    run_test(
        "  subject line",
        &Some(Problem::new(
            ERROR.into(),
            HELP_MESSAGE.into(),
            Code::SubjectNotCapitalized,
            &CommitMessage::parse(&*"  subject line"),
            Some(vec![("Not capitalised".to_string(), 1_usize, 1_usize)]),
            Some("https://git-scm.com/book/en/v2/Distributed-Git-Contributing-to-a-Project#_commit_guidelines".to_string()),
        )),
    );
}

#[test]
fn numbers_are_fine() {
    run_test(
        "1234567
", &None,
    );
}

fn run_test(message: &str, expected: &Option<Problem>) {
    let actual = &lint(&CommitMessage::parse(&*message));
    assert_eq!(
        actual, expected,
        "Message {:?} should have returned {:?}, found {:?}",
        message, expected, actual
    );
}
