use mit_lint::checks::not_conventional_commit::{
    has_problem, parse_conventional_commit, ConventionalCommitConfig,
};
use mit_lint::checks::{
    duplicate_trailers, missing_github_id,
    body_wider_than_72_characters, not_conventional_commit, not_emoji_log,
    subject_line_ends_with_period, subject_longer_than_72_characters, subject_not_capitalized,
    subject_not_separate_from_body,
};
use mit_lint::{Code, CommitMessage, Lint};

fn labels_of(problem: &Option<mit_lint::Problem>) -> Vec<(String, usize, usize)> {
    problem.as_ref().unwrap().labels().unwrap().clone()
}

#[test]
fn code_numbers_start_at_three_and_are_distinct() {
    let codes = Code::get_codes();
    assert_eq!(codes.len(), 14);
    let numbers: Vec<i32> = codes.iter().map(|c| c.number()).collect();
    assert_eq!(numbers, (3..17).collect::<Vec<i32>>());
    assert_eq!(Code::NotEmojiLog.number(), 16);
}

#[test]
fn each_lint_reports_under_its_own_code() {
    let commit = CommitMessage::parse("an example commit message.\nwith a body line right after it that is far far too long to fit in seventy two\n");
    for lint in Lint::iterator() {
        if let Some(problem) = lint.lint(&commit) {
            let expected = match lint {
                Lint::PivotalTrackerIdMissing => Code::PivotalTrackerIdMissing,
                Lint::JiraIssueKeyMissing => Code::JiraIssueKeyMissing,
                Lint::GitHubIdMissing => Code::GitHubIdMissing,
                Lint::SubjectNotSeparateFromBody => Code::SubjectNotSeparateFromBody,
                Lint::SubjectLongerThan72Characters => Code::SubjectLongerThan72Characters,
                Lint::SubjectNotCapitalized => Code::SubjectNotCapitalized,
                Lint::SubjectEndsWithPeriod => Code::SubjectEndsWithPeriod,
                Lint::BodyWiderThan72Characters => Code::BodyWiderThan72Characters,
                Lint::NotConventionalCommit => Code::NotConventionalCommit,
                Lint::NotEmojiLog => Code::NotEmojiLog,
                other => panic!("{other:?} should pass"),
            };
            assert_eq!(problem.code(), &expected);
        }
    }
}

#[test]
fn subject_length_counts_characters_not_bytes() {
    let fits = "\u{e9}".repeat(72);
    assert!(subject_longer_than_72_characters::lint(&CommitMessage::parse(&fits)).is_none());
    let long = "\u{e9}".repeat(75);
    let problem = subject_longer_than_72_characters::lint(&CommitMessage::parse(&long));
    assert_eq!(labels_of(&problem), vec![("Too long".to_string(), 145, 6)]);
}

#[test]
fn period_label_counts_bytes_of_the_subject() {
    let problem = subject_line_ends_with_period::lint(&CommitMessage::parse("S\u{fc}bject."));
    assert_eq!(labels_of(&problem), vec![("Unneeded period".to_string(), 9, 1)]);
    let problem = subject_line_ends_with_period::lint(&CommitMessage::parse("A. b. c . ."));
    // periods or spaces: 8, less two is 6; trailing periods ignoring spaces: 2
    assert_eq!(labels_of(&problem), vec![("Unneeded period".to_string(), 5, 2)]);
    assert!(subject_line_ends_with_period::lint(&CommitMessage::parse("Subject. Yes")).is_none());
}

#[test]
fn capital_label_counts_white_space_in_the_subject() {
    let problem = subject_not_capitalized::lint(&CommitMessage::parse("   lower case here"));
    assert_eq!(labels_of(&problem), vec![("Not capitalised".to_string(), 3, 1)]);
    assert!(subject_not_capitalized::lint(&CommitMessage::parse("   Upper")).is_none());
    assert!(subject_not_capitalized::lint(&CommitMessage::parse("")).is_none());
    let problem = subject_not_capitalized::lint(&CommitMessage::parse("  \u{f6}ffnen"));
    assert_eq!(labels_of(&problem), vec![("Not capitalised".to_string(), 0, 2)]);
}

#[test]
fn separation_label_spans_the_second_line() {
    let problem = subject_not_separate_from_body::lint(&CommitMessage::parse("Subject\nBody\n"));
    assert_eq!(labels_of(&problem), vec![("Missing blank line".to_string(), 8, 4)]);
    assert!(subject_not_separate_from_body::lint(&CommitMessage::parse("Subject\n\nBody\n")).is_none());
    assert!(subject_not_separate_from_body::lint(&CommitMessage::parse("Subject")).is_none());
}

#[test]
fn comment_lines_do_not_count_as_the_body() {
    let message = "Subject\n# comment\n";
    assert!(subject_not_separate_from_body::lint(&CommitMessage::parse(message)).is_none());
}

#[test]
fn emoji_log_prefixes_pass_and_others_fail() {
    for prefix in not_emoji_log::Prefix::iter() {
        let message = format!("{}Something\n", prefix.to_string());
        assert!(not_emoji_log::lint(&CommitMessage::parse(&message)).is_none());
    }
    let problem = not_emoji_log::lint(&CommitMessage::parse("FIX: \u{e9}t\u{e9}\n\nbody\n"));
    assert_eq!(labels_of(&problem), vec![("Not emoji log".to_string(), 0, 10)]);
}

#[test]
fn conventional_subject_parts() {
    assert_eq!(
        parse_conventional_commit("feat(ui)!: add a button"),
        Some((
            "feat".to_string(),
            Some("ui".to_string()),
            true,
            "add a button".to_string()
        ))
    );
    assert_eq!(
        parse_conventional_commit("fix: a: b"),
        Some(("fix".to_string(), None, false, "a: b".to_string()))
    );
    assert_eq!(parse_conventional_commit("f\u{e9}at: x"), None);
    let problem = not_conventional_commit::lint(&CommitMessage::parse("Not conventional\n"));
    assert_eq!(labels_of(&problem), vec![("Not conventional".to_string(), 0, 16)]);
}

#[test]
fn conventional_config_limits_types_and_scopes() {
    let config = ConventionalCommitConfig::new(
        Some(vec!["feat".to_string(), "fix".to_string()]),
        Some(vec!["ui".to_string()]),
    );
    let lint = |m: &str| not_conventional_commit::lint_with_config(&CommitMessage::parse(m), &config);
    assert!(lint("fix: x").is_none());
    assert!(lint("fix(ui): x").is_none());
    assert!(lint("fix(api): x").is_some());
    assert!(lint("chore: x").is_some());
}

#[test]
fn body_labels_skip_the_subject_comments_and_scissors() {
    let long = "y".repeat(80);
    let message = format!(
        "{long}\n\n{long}\n# {long}\n# ------------------------ >8 ------------------------\n{long}\n"
    );
    let problem = body_wider_than_72_characters::lint(&CommitMessage::parse(&message));
    assert_eq!(labels_of(&problem), vec![("Too long".to_string(), 154, 8)]);
    let narrow = "Subject\n\nshort body\n";
    assert!(body_wider_than_72_characters::lint(&CommitMessage::parse(narrow)).is_none());
}

#[test]
fn body_label_offset_is_the_column_after_the_limit() {
    let message = format!("Subject\n\n{}\n", "z".repeat(100));
    let problem = body_wider_than_72_characters::lint(&CommitMessage::parse(&message));
    assert_eq!(labels_of(&problem), vec![("Too long".to_string(), 81, 28)]);
}

#[test]
fn body_lines_are_measured_in_characters() {
    let message = format!("Subject\n\n{}\n{}\n", "x".repeat(73), "\u{e9}".repeat(40));
    let problem = body_wider_than_72_characters::lint(&CommitMessage::parse(&message));
    assert_eq!(labels_of(&problem), vec![("Too long".to_string(), 81, 1)]);
}

#[test]
fn github_id_followed_by_punctuation_passes() {
    for message in ["Subject\n\nSee issue #642.\n", "Subject\n\nFixes #642, the crash\n", "Subject\n\nRelates-to: AnUser/my_repo#642\n"] {
        assert!(missing_github_id::lint(&CommitMessage::parse(message)).is_none(), "{message:?}");
    }
}

#[test]
fn duplicate_labels_only_on_trailer_lines() {
    let message = "Subject\n\nThe body mentions Signed-off-by: Someone twice.\n\nSigned-off-by: S\u{e9}bastien <s@example.com>\nSigned-off-by: S\u{e9}bastien <s@example.com>\n";
    let problem = duplicate_trailers::lint(&CommitMessage::parse(message));
    // the trailer lines start at bytes 58 and 100 and have 41 bytes each
    assert_eq!(labels_of(&problem), vec![("Duplicated `Signed-off-by`".to_string(), 100, 41)]);
}

#[test]
fn a_problem_carries_the_commit_message_it_was_found_in() {
    let commit = CommitMessage::parse("subject line\r\n\r\nBody\r\n");
    for lint in Lint::iterator() {
        if let Some(problem) = lint.lint(&commit) {
            assert_eq!(problem.commit_message(), commit);
        }
    }
}

#[test]
fn scopes_only_limit_subjects_that_have_a_scope() {
    let config = ConventionalCommitConfig::new(None, Some(vec!["ui".to_string()]));
    assert!(!has_problem(&CommitMessage::parse("feat: x"), &config));
    assert!(!has_problem(&CommitMessage::parse("feat(ui): x"), &config));
    assert!(has_problem(&CommitMessage::parse("feat(api): x"), &config));
    assert!(has_problem(&CommitMessage::parse("not conventional"), &config));
}
