use mit_lint::checks::missing_jira_issue_key::{lint, ERROR, HELP_MESSAGE};
use mit_lint::{Code, CommitMessage, Problem};

#[test]
fn missing_jira_issue_key_test_id_present() {
    test_has_missing_jira_issue_key(
        "JRA-123 An example commit

This is an example commit
",
        &None,
    );
    test_has_missing_jira_issue_key(
        "An example commit

This is an JRA-123 example commit
",
        &None,
    );
    test_has_missing_jira_issue_key(
        "An example commit

JRA-123

This is an example commit
",
        &None,
    );
    test_has_missing_jira_issue_key(
        "An example commit

This is an example commit

JRA-123
",
        &None,
    );
    test_has_missing_jira_issue_key(
        "An example commit

This is an example commit

JR-123
",
        &None,
    );
}

#[test]
fn missing_jira_issue_key_test_id_missing() {
    let message_1 = "An example commit

This is an example commit
";
    test_has_missing_jira_issue_key(
        message_1,
        &Some(Problem::new(
            ERROR.into(),
            HELP_MESSAGE.into(),
            Code::JiraIssueKeyMissing,
            &CommitMessage::parse(&*message_1),
            Some(vec![("No JIRA Issue Key".to_string(), 19_usize, 26_usize)]),
            Some("https://support.atlassian.com/jira-software-cloud/docs/what-is-an-issue/#Workingwithissues-Projectkeys".parse().unwrap()),
        )),
    );
    let message_2 = "An example commit

This is an example commit

A-123
";
    test_has_missing_jira_issue_key(
        message_2,
        &Some(Problem::new(
            ERROR.into(),
            HELP_MESSAGE.into(),
            Code::JiraIssueKeyMissing,
            &CommitMessage::parse(&*message_2),
            Some(vec![("No JIRA Issue Key".to_string(), 46_usize, 6_usize)]),
            Some("https://support.atlassian.com/jira-software-cloud/docs/what-is-an-issue/#Workingwithissues-Projectkeys".parse().unwrap()),
        )),
    );
    let message_3 = "An example commit

This is an example commit

JRA-
";
    test_has_missing_jira_issue_key(
        message_3,
        &Some(Problem::new(
            ERROR.into(),
            HELP_MESSAGE.into(),
            Code::JiraIssueKeyMissing,
            &CommitMessage::parse(&*message_3),
            Some(vec![("No JIRA Issue Key".to_string(), 46_usize, 5_usize)]),
            Some("https://support.atlassian.com/jira-software-cloud/docs/what-is-an-issue/#Workingwithissues-Projectkeys".parse().unwrap()),
        )),
    );
}

fn test_has_missing_jira_issue_key(message: &str, expected: &Option<Problem>) {
    let actual = &lint(&CommitMessage::parse(&*message));
    assert_eq!(
        actual, expected,
        "Message {:?} should have returned {:?}, found {:?}",
        message, expected, actual
    );
}
