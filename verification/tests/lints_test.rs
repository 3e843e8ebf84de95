use mit_lint::{lint, CommitMessage, Lint, LintError, Lints, LintsError};

#[test]
fn available_lints_are_all_the_lints_in_declaration_order() {
    let lints = Lints::available().clone();
    assert_eq!(
        lints.into_vec(),
        vec![
            Lint::DuplicatedTrailers,
            Lint::PivotalTrackerIdMissing,
            Lint::JiraIssueKeyMissing,
            Lint::GitHubIdMissing,
            Lint::SubjectNotSeparateFromBody,
            Lint::SubjectLongerThan72Characters,
            Lint::SubjectNotCapitalized,
            Lint::SubjectEndsWithPeriod,
            Lint::BodyWiderThan72Characters,
            Lint::NotConventionalCommit,
            Lint::NotEmojiLog,
        ]
    );
}

#[test]
fn new_lints_drop_repeats_and_sort() {
    let lints = Lints::new(vec![
        Lint::NotEmojiLog,
        Lint::DuplicatedTrailers,
        Lint::NotEmojiLog,
    ]);
    assert_eq!(
        lints.into_vec(),
        vec![Lint::DuplicatedTrailers, Lint::NotEmojiLog]
    );
    assert!(Lints::new(vec![]).into_vec().is_empty());
}

#[test]
fn names_contain_a_lint() {
    let names = Lints::available().clone().names();
    assert!(names.contains(&Lint::SubjectNotSeparateFromBody.name()));
    assert_eq!(names.len(), 11);
    assert_eq!(names[0], "duplicated-trailers");
    assert_eq!(names[10], "not-emoji-log");
}

#[test]
fn config_keys_contain_a_lint() {
    let keys = Lints::available().clone().config_keys();
    assert!(keys.contains(&Lint::SubjectNotSeparateFromBody.config_key()));
    assert_eq!(keys[0], "mit.lint.duplicated-trailers");
}

#[test]
fn merge_adds_lints() {
    let to_add = Lints::new(vec![Lint::NotEmojiLog]);
    let actual = Lints::new(vec![Lint::DuplicatedTrailers]).merge(&to_add).names();
    assert_eq!(actual, vec!["duplicated-trailers", "not-emoji-log"]);
    let all = Lints::available().clone().merge(&to_add).names();
    assert!(all.contains(&Lint::NotEmojiLog.name()));
    assert_eq!(all.len(), 11);
}

#[test]
fn subtract_removes_lints() {
    let to_remove = Lints::new(vec![Lint::SubjectNotSeparateFromBody]);
    let actual = Lints::available().clone().subtract(&to_remove).names();
    assert!(!actual.contains(&Lint::SubjectNotSeparateFromBody.name()));
    assert_eq!(actual.len(), 10);
    let none = to_remove.subtract(&Lints::available());
    assert!(none.names().is_empty());
}

#[test]
fn lints_from_names() {
    let lints = Lints::try_from(vec!["not-emoji-log", "duplicated-trailers", "not-emoji-log"]).unwrap();
    assert_eq!(
        lints.into_vec(),
        vec![Lint::DuplicatedTrailers, Lint::NotEmojiLog]
    );
}

#[test]
fn lints_from_unknown_name_fails_on_the_first() {
    match Lints::try_from(vec!["not-emoji-log", "nope", "also-nope"]) {
        Err(LintsError::LintNameUnknown(LintError::LintNotFound(name))) => assert_eq!(name, "nope"),
        other => panic!("unexpected {other:?}"),
    }
}

#[test]
fn from_names_example() {
    let actual = Lint::from_names(vec!["not-emoji-log", "body-wider-than-72-characters"]);
    assert_eq!(
        actual.unwrap(),
        vec![Lint::BodyWiderThan72Characters, Lint::NotEmojiLog]
    );
    assert!(Lint::from_names(vec!["not-a-lint"]).is_err());
}

#[test]
fn lint_from_unknown_name() {
    assert_eq!(
        Lint::try_from("not-a-lint"),
        Err(LintError::LintNotFound("not-a-lint".to_string()))
    );
}

#[test]
fn every_lint_is_found_by_its_name() {
    for lint in Lint::iterator() {
        assert_eq!(Lint::try_from(lint.name()), Ok(lint));
        assert_eq!(lint.config_key(), format!("mit.lint.{}", lint.name()));
    }
}

#[test]
fn config_key_example() {
    assert_eq!(
        Lint::SubjectNotSeparateFromBody.config_key(),
        "mit.lint.subject-not-separated-from-body"
    );
}

#[test]
fn enabled_by_default_example() {
    assert!(Lint::SubjectNotSeparateFromBody.enabled_by_default());
    assert!(!Lint::NotConventionalCommit.enabled_by_default());
    let enabled: Vec<Lint> = Lint::iterator()
        .into_iter()
        .filter(|l| l.enabled_by_default())
        .collect();
    assert_eq!(
        enabled,
        vec![
            Lint::DuplicatedTrailers,
            Lint::SubjectNotSeparateFromBody,
            Lint::SubjectLongerThan72Characters,
            Lint::BodyWiderThan72Characters,
        ]
    );
}

#[test]
fn toml_document_lists_every_lint() {
    let lints = Lints::new(vec![Lint::NotEmojiLog, Lint::DuplicatedTrailers]);
    let text = lints.to_toml().unwrap();
    assert_eq!(
        text,
        "[mit.lint]
body-wider-than-72-characters = false
duplicated-trailers = true
github-id-missing = false
jira-issue-key-missing = false
not-conventional-commit = false
not-emoji-log = true
pivotal-tracker-id-missing = false
subject-line-ends-with-period = false
subject-line-not-capitalized = false
subject-longer-than-72-characters = false
subject-not-separated-from-body = false
"
    );
}

#[test]
fn lint_runs_the_given_lints_in_order() {
    let commit = CommitMessage::parse("an example commit message.");
    let found = lint(&commit, Lints::available().clone());
    assert!(!found.is_empty());
    let codes: Vec<_> = found.iter().map(|p| *p.code()).collect();
    assert_eq!(
        codes,
        vec![
            mit_lint::Code::PivotalTrackerIdMissing,
            mit_lint::Code::JiraIssueKeyMissing,
            mit_lint::Code::GitHubIdMissing,
            mit_lint::Code::SubjectNotCapitalized,
            mit_lint::Code::SubjectEndsWithPeriod,
            mit_lint::Code::NotConventionalCommit,
            mit_lint::Code::NotEmojiLog,
        ]
    );
    assert!(lint(&commit, Lints::new(vec![])).is_empty());
    let only_emoji = lint(&commit, Lints::new(vec![Lint::NotEmojiLog]));
    assert_eq!(only_emoji.len(), 1);
    assert_eq!(only_emoji[0].code(), &mit_lint::Code::NotEmojiLog);
}

#[test]
fn lint_example_from_the_docs() {
    let actual = lint(
        &CommitMessage::parse("An example commit message"),
        Lints::available().clone(),
    );
    assert!(!actual.is_empty());
}
