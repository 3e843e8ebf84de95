use mit_lint::checks::not_conventional_commit::{
    lint, lint_with_config, parse_conventional_commit, ConventionalCommitConfig, ERROR, HELP_MESSAGE,
};
use mit_lint::{Code, CommitMessage, Problem};

#[test]
fn not_conventional_commit_commit_message_with_description_and_breaking_change_footer() {
    test_subject_not_separate_from_body(
        "feat: allow provided config object to extend other configs

BREAKING CHANGE: `extends` key in config file is now used for extending other \
 config files
",
        None,
    );
}

#[test]
fn not_conventional_commit_commit_message_with_bang_to_draw_attention_to_breaking_change() {
    test_subject_not_separate_from_body(
        "refactor!: drop support for Node 6
",
        None,
    );
}

#[test]
fn not_conventional_commit_commit_message_with_both_bang_and_breaking_change_footer() {
    test_subject_not_separate_from_body(
        "refactor!: drop support for Node 6

BREAKING CHANGE: refactor to use JavaScript features not available in Node 6.
",
        None,
    );
}

#[test]
fn not_conventional_commit_commit_message_with_no_body() {
    test_subject_not_separate_from_body(
        "docs: correct spelling of CHANGELOG
",
        None,
    );
}

#[test]
fn not_conventional_commit_commit_message_with_scope() {
    test_subject_not_separate_from_body(
        "feat(lang): add polish language
",
        None,
    );
}

#[test]
fn not_conventional_commit_commit_message_with_multi_paragraph_body_and_multiple_footers() {
    test_subject_not_separate_from_body(
        "fix: correct minor typos in code

see the issue for details

on typos fixed.

Reviewed-by: Z
Refs #133
",
        None,
    );
}

#[test]
fn not_conventional_commit_revert_example() {
    test_subject_not_separate_from_body(
        "revert: let us never again speak of the noodle incident

Refs: 676104e, a215868
",
        None,
    );
}

#[test]
fn not_conventional_commit_non_conventional() {
    let message = "An example commit

This is an example commit
";
    test_subject_not_separate_from_body(
        message,
        Some(&Problem::new(
            ERROR.into(),
            HELP_MESSAGE.into(),
            Code::NotConventionalCommit,
            &CommitMessage::parse(&*message),
            Some(vec![("Not conventional".to_string(), 0_usize, 17_usize)]),
            Some("https://www.conventionalcommits.org/".parse().unwrap()),
        )),
    );
}

#[test]
fn not_conventional_commit_missing_bracket() {
    let message = "fix(example: An example commit

This is an example commit
";
    test_subject_not_separate_from_body(
        message,
        Some(Problem::new(
            ERROR.into(),
            HELP_MESSAGE.into(),
            Code::NotConventionalCommit,
            &CommitMessage::parse(&*message),
            Some(vec![("Not conventional".to_string(), 0_usize, 30_usize)]),
            Some("https://www.conventionalcommits.org/".parse().unwrap()),
        ))
        .as_ref(),
    );
}

#[test]
fn not_conventional_commit_missing_space() {
    let message = "fix(example):An example commit

This is an example commit
";
    test_subject_not_separate_from_body(
        message,
        Some(Problem::new(
            ERROR.into(),
            HELP_MESSAGE.into(),
            Code::NotConventionalCommit,
            &CommitMessage::parse(&*message),
            Some(vec![("Not conventional".to_string(), 0_usize, 30_usize)]),
            Some("https://www.conventionalcommits.org/".parse().unwrap()),
        ))
        .as_ref(),
    );
}

fn test_subject_not_separate_from_body(message: &str, expected: Option<&Problem>) {
    let actual = &lint(&CommitMessage::parse(&*message));
    assert_eq!(
        actual.as_ref(),
        expected,
        "Message {message:?} should have returned {expected:?}, found {actual:?}"
    );
}

#[test]
fn test_lint_with_config_allowed_types() {
    // Create a config that only allows "feat" type
    let allowed_types = vec!["feat".to_string()];
    let config = ConventionalCommitConfig::new(Some(allowed_types), None);

    // Test with allowed type
    let commit_allowed = CommitMessage::parse(&*"feat: add new feature");
    assert!(lint_with_config(&commit_allowed, &config).is_none());

    // Test with disallowed type
    let commit_disallowed = CommitMessage::parse(&*"fix: fix a bug");
    assert!(lint_with_config(&commit_disallowed, &config).is_some());
}

#[test]
fn test_lint_with_config_allowed_scopes() {
    // Create a config that only allows "ui" scope
    let allowed_scopes = vec!["ui".to_string()];
    let config = ConventionalCommitConfig::new(None, Some(allowed_scopes));

    // Test with allowed scope
    let commit_allowed = CommitMessage::parse(&*"feat(ui): add new UI feature");
    assert!(lint_with_config(&commit_allowed, &config).is_none());

    // Test with disallowed scope
    let commit_disallowed = CommitMessage::parse(&*"feat(api): add new API feature");
    assert!(lint_with_config(&commit_disallowed, &config).is_some());
}

// Tests for edge cases in parse_conventional_commit

#[test]
fn test_parse_conventional_commit_colon_position() {
    // Test with no space after colon (should fail)
    assert!(parse_conventional_commit("feat:no-space").is_none());

    // Test with space after colon (should pass)
    assert!(parse_conventional_commit("feat: with-space").is_some());

    // Test with colon at the end (should fail)
    assert!(parse_conventional_commit("feat:").is_none());

    // Test with colon at the end followed by a space (should pass)
    // This specifically tests the case that failed in the quickcheck test
    assert!(parse_conventional_commit("feat: ").is_some());

    // Test with colon at position 0 (should fail because the commit type is empty)
    assert!(parse_conventional_commit(": description").is_none());

    // Test with colon at a high position (should pass if followed by space and description)
    let long_type = "a".repeat(100);
    let commit_message = format!("{long_type}(scope): description");
    assert!(parse_conventional_commit(&commit_message).is_some());
}

#[test]
fn test_parse_conventional_commit_scope_parsing() {
    // Test with valid scope
    let result = parse_conventional_commit("feat(ui): add feature");
    assert!(result.is_some());
    let (commit_type, scope, _, _) = result.unwrap();
    assert_eq!(commit_type, "feat");
    assert_eq!(scope, Some("ui".to_string()));

    // Test with malformed scope (open paren at beginning)
    assert!(parse_conventional_commit("(ui): add feature").is_none());

    // Test with malformed scope (close paren not at end)
    assert!(parse_conventional_commit("feat(ui)extra: add feature").is_none());

    // Test with malformed scope (open paren after close paren)
    assert!(parse_conventional_commit("feat)(: add feature").is_none());
}

#[test]
fn test_parse_conventional_commit_scope_validation() {
    // Test with empty scope (should fail)
    assert!(parse_conventional_commit("feat(): add feature").is_none());

    // Test with scope containing characters other than alphanumerics and
    // hyphens (should fail)
    assert!(parse_conventional_commit("feat(ui_component): add feature").is_none());

    // Test with hyphenated scope (should pass)
    assert!(parse_conventional_commit("feat(ui-component): add feature").is_some());

    // Test with alphanumeric scope (should pass)
    assert!(parse_conventional_commit("feat(ui123): add feature").is_some());
}

#[test]
fn test_parse_conventional_commit_scope_allows_hyphens() {
    // Hyphens are common in scope names — module/component identifiers
    // such as "git-mit" — and should be accepted by the parser.
    let result = parse_conventional_commit("fix(git-mit): Some text");
    assert!(
        result.is_some(),
        "scope with a hyphen should parse successfully"
    );

    let (commit_type, scope, _, _) = result.unwrap();
    assert_eq!(commit_type, "fix");
    assert_eq!(scope.as_deref(), Some("git-mit"));

    // The full lint should also accept it.
    let commit = CommitMessage::parse(&*"fix(git-mit): Some text\n");
    assert!(
        lint(&commit).is_none(),
        "commit with a hyphenated scope should pass the lint"
    );
}

#[test]
fn test_quickcheck_failing_case() {
    // Test the specific case that failed in QuickCheck: ("0", None, "", None, None)
    let commit = CommitMessage::parse(&*"0: ");
    assert!(lint(&commit).is_none());
}

#[test]
fn test_parse_conventional_commit_with_multibyte_scope() {
    // Bug: parse_conventional_commit mixes byte offsets with char indices
    // when checking for space after colon. Multi-byte chars in the scope
    // cause the byte position of ':' to differ from its char index.
    //
    // "feat(ü): description" - 'ü' is 2 bytes in UTF-8, so colon is at
    // byte 9 but char index 7. Using byte position as char index checks
    // the wrong character.

    // Unicode scope with 2-byte char
    assert!(
        parse_conventional_commit("feat(ü): add feature").is_some(),
        "conventional commit with Unicode scope 'ü' should parse successfully"
    );

    // Verify full lint accepts it too
    let commit = CommitMessage::parse(&*"feat(ü): add feature\n");
    assert!(
        lint(&commit).is_none(),
        "commit with Unicode scope should pass lint"
    );
}

#[test]
fn test_parse_conventional_commit_with_cjk_scope() {
    // CJK characters are 3 bytes in UTF-8, more likely to trigger the bug
    assert!(
        parse_conventional_commit("feat(機能): add feature").is_some(),
        "conventional commit with CJK scope should parse successfully"
    );
}

// Regression test: the fail_check quickcheck property had an inadequate
// guard that didn't discard valid conventional commits.  Inputs like
// "feat: description" were kept and the property wrongly asserted that
// lint should report a problem, when in fact lint correctly returns None.
//
// The fix is to also discard inputs that parse as valid conventional
// commits.

#[test]
fn test_fail_check_guard_rejects_valid_conventional_commit() {
    // Simulate what the improved fail_check guard should do:
    // "feat: description" is a valid conventional commit, so the old
    // fail_check property would wrongly assert lint(result.is_some()).
    // The fixed guard must discard this input.
    let input = "feat: description";
    let message = CommitMessage::parse(&*format!("{input}\n# comment"));
    let result = lint(&message);
    // This IS a valid conventional commit, so lint should return None
    assert!(
        result.is_none(),
        "valid conventional commit should not be flagged, but got: {result:?}"
    );

    // Now verify the guard logic would correctly identify this as discard-worthy
    let colon_pos = input.chars().position(|x| x == ':');
    let has_non_alpha_type =
        colon_pos.is_some_and(|x| input.chars().take(x).any(|x| !x.is_ascii_alphanumeric()));
    // Old guard: only discards if non-alpha chars before colon.
    // "feat" is all alpha, so old guard does NOT discard → bug!
    assert!(
        !has_non_alpha_type,
        "old guard incorrectly keeps valid conventional commit '{input}'"
    );

    // New guard: also discard if the string parses as a valid conventional commit
    let is_valid_conventional = parse_conventional_commit(input).is_some();
    assert!(
        is_valid_conventional,
        "new guard should detect this as a valid conventional commit and discard it"
    );
}

#[test]
fn test_fail_check_guard_rejects_valid_conventional_commit_with_scope() {
    let input = "feat(ui): add button";
    let message = CommitMessage::parse(&*format!("{input}\n# comment"));
    let result = lint(&message);
    assert!(
        result.is_none(),
        "valid conventional commit with scope should pass"
    );

    let is_valid_conventional = parse_conventional_commit(input).is_some();
    assert!(
        is_valid_conventional,
        "new guard should detect this as a valid conventional commit and discard it"
    );
}

#[test]
fn test_fail_check_guard_rejects_valid_conventional_commit_with_breaking() {
    let input = "refactor!: drop support";
    let message = CommitMessage::parse(&*format!("{input}\n# comment"));
    let result = lint(&message);
    assert!(result.is_none(), "valid breaking change commit should pass");

    let is_valid_conventional = parse_conventional_commit(input).is_some();
    assert!(
        is_valid_conventional,
        "new guard should detect this as a valid conventional commit and discard it"
    );
}

#[test]
fn test_fail_check_keeps_non_conventional_commits() {
    // These should NOT be discarded by the guard — they are genuinely non-conventional
    let inputs = [
        "Just a regular commit",
        "fix something",
        "no colon here",
        "fix(example: missing close paren: desc",
    ];
    for input in &inputs {
        let message = CommitMessage::parse(&*format!("{input}\n# comment"));
        let result = lint(&message);
        assert!(
            result.is_some(),
            "non-conventional commit '{input}' should be flagged"
        );
    }
}
