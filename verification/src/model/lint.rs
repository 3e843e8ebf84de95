//! The lints that are supported.
use vstd::prelude::*;

use crate::checks::{
    body_wider_than_72_characters, duplicate_trailers, missing_github_id, missing_jira_issue_key,
    missing_pivotal_tracker_id, not_conventional_commit, not_emoji_log,
    subject_line_ends_with_period, subject_longer_than_72_characters, subject_not_capitalized,
    subject_not_separate_from_body,
};
use crate::commit::{pattern_found, CommitMessage};
use crate::model::code::Code;
use crate::model::lints::{
    all_named, first_unnamed, in_order, name_views, named_set, Lints, LintsError,
};
use crate::model::problem::{verdict, Problem, ProblemView};
use crate::text::chars_equal;
use crate::text::chars_of;

verus! {

/// The prefix we put in front of the lint when serialising
pub const CONFIG_KEY_PREFIX: &'static str = "mit.lint";

/// The lints that are supported
#[derive(Debug, Eq, PartialEq, Copy, Clone, Hash, Ord, PartialOrd, Structural)]
pub enum Lint {
    /// Check for duplicated trailers
    DuplicatedTrailers,
    /// Check for a missing pivotal tracker id
    PivotalTrackerIdMissing,
    /// Check for a missing JIRA issue key
    JiraIssueKeyMissing,
    /// Check for a missing GitHub issue id
    GitHubIdMissing,
    /// Check for a missing blank line between subject and body
    SubjectNotSeparateFromBody,
    /// Check for a subject longer than 72 characters
    SubjectLongerThan72Characters,
    /// Check for a subject that is not capitalised
    SubjectNotCapitalized,
    /// Check for a subject that ends with a period
    SubjectEndsWithPeriod,
    /// Check for a body wider than 72 characters
    BodyWiderThan72Characters,
    /// Check for a subject that is not in conventional commit style
    NotConventionalCommit,
    /// Check for a subject that is not in emoji log style
    NotEmojiLog,
}

/// Errors
#[derive(Debug, Clone, PartialEq, Eq)]
pub enum LintError {
    /// No lint has the given name.
    LintNotFound(String),
}

/// The unique name of a lint.
pub open spec fn lint_name(lint: Lint) -> Seq<char> {
    match lint {
        Lint::DuplicatedTrailers => duplicate_trailers::CONFIG@,
        Lint::PivotalTrackerIdMissing => missing_pivotal_tracker_id::CONFIG@,
        Lint::JiraIssueKeyMissing => missing_jira_issue_key::CONFIG@,
        Lint::GitHubIdMissing => missing_github_id::CONFIG@,
        Lint::SubjectNotSeparateFromBody => subject_not_separate_from_body::CONFIG@,
        Lint::SubjectLongerThan72Characters => subject_longer_than_72_characters::CONFIG@,
        Lint::SubjectNotCapitalized => subject_not_capitalized::CONFIG@,
        Lint::SubjectEndsWithPeriod => subject_line_ends_with_period::CONFIG@,
        Lint::BodyWiderThan72Characters => body_wider_than_72_characters::CONFIG@,
        Lint::NotConventionalCommit => not_conventional_commit::CONFIG@,
        Lint::NotEmojiLog => not_emoji_log::CONFIG@,
    }
}

/// Every lint, in the order [`Lint::iterator`] lists them.
pub open spec fn all_lints() -> Seq<Lint> {
    seq![
        Lint::DuplicatedTrailers,
        Lint::PivotalTrackerIdMissing,
        Lint::JiraIssueKeyMissing,
        Lint::SubjectNotSeparateFromBody,
        Lint::GitHubIdMissing,
        Lint::SubjectLongerThan72Characters,
        Lint::SubjectNotCapitalized,
        Lint::SubjectEndsWithPeriod,
        Lint::BodyWiderThan72Characters,
        Lint::NotConventionalCommit,
        Lint::NotEmojiLog,
    ]
}

/// The lints that are enabled by default.
pub open spec fn enabled_by_default_spec(lint: Lint) -> bool {
    ||| lint == Lint::DuplicatedTrailers
    ||| lint == Lint::SubjectNotSeparateFromBody
    ||| lint == Lint::SubjectLongerThan72Characters
    ||| lint == Lint::BodyWiderThan72Characters
}

/// The key of a lint in a configuration document: `mit.lint.<name>`.
pub open spec fn config_key_of(lint: Lint) -> Seq<char> {
    CONFIG_KEY_PREFIX@ + "."@ + lint_name(lint)
}

/// The lint with the given name, if there is one.
pub open spec fn lint_named(name: Seq<char>) -> Option<Lint> {
    if exists|l: Lint| lint_name(l) == name {
        Some(choose|l: Lint| lint_name(l) == name)
    } else {
        None
    }
}

/// What running `lint` on `commit` reports: the verdict of that lint's
/// check.
pub open spec fn lint_verdict(lint: Lint, commit: CommitMessage) -> Option<ProblemView> {
    let text = commit.text@;
    match lint {
        Lint::DuplicatedTrailers => duplicate_trailers::duplicate_verdict(
            text,
            duplicate_trailers::keys_of(
                duplicate_trailers::duplicates_of(commit.trailers.deep_view()),
            ),
            commit.comment_char,
            commit.scissors.deep_view(),
        ),
        Lint::PivotalTrackerIdMissing => if pattern_found(
            commit.source@,
            missing_pivotal_tracker_id::PATTERN@,
        ) == Some(true) {
            None
        } else {
            Some(missing_pivotal_tracker_id::missing_problem(text))
        },
        Lint::JiraIssueKeyMissing => if pattern_found(
            commit.source@,
            missing_jira_issue_key::PATTERN@,
        ) == Some(true) {
            None
        } else {
            Some(missing_jira_issue_key::missing_problem(text))
        },
        Lint::GitHubIdMissing => if pattern_found(commit.source@, missing_github_id::PATTERN@)
            == Some(true) {
            None
        } else {
            Some(missing_github_id::missing_problem(text))
        },
        Lint::SubjectNotSeparateFromBody => if subject_not_separate_from_body::runs_into_body(
            text,
            commit.comment_char,
        ) {
            Some(subject_not_separate_from_body::separation_problem(text))
        } else {
            None
        },
        Lint::SubjectLongerThan72Characters => if commit.subject@.len()
            > subject_longer_than_72_characters::LIMIT {
            Some(
                subject_longer_than_72_characters::long_subject_problem(text, commit.subject@),
            )
        } else {
            None
        },
        Lint::SubjectNotCapitalized => if subject_not_capitalized::starts_lowercase(
            commit.subject@,
        ) {
            Some(subject_not_capitalized::capital_problem(text, commit.subject@))
        } else {
            None
        },
        Lint::SubjectEndsWithPeriod => if subject_line_ends_with_period::ends_with_period(
            commit.subject@,
        ) {
            Some(subject_line_ends_with_period::period_problem(text, commit.subject@))
        } else {
            None
        },
        Lint::BodyWiderThan72Characters => if body_wider_than_72_characters::has_wide_line(
            commit.body@,
        ) {
            Some(
                body_wider_than_72_characters::wide_problem(
                    text,
                    commit.comment_char,
                    commit.scissors.deep_view(),
                ),
            )
        } else {
            None
        },
        Lint::NotConventionalCommit => if not_conventional_commit::subject_has_problem(
            commit.subject@,
            None,
            None,
        ) {
            Some(not_conventional_commit::conventional_problem(text))
        } else {
            None
        },
        Lint::NotEmojiLog => if not_emoji_log::is_emoji_log(commit.subject@) {
            None
        } else {
            Some(not_emoji_log::emoji_problem(text))
        },
    }
}

impl Lint {
    /// Get an lint's unique name
    pub fn name(self) -> (n: &'static str)
        ensures
            n@ == lint_name(self),
    {
        match self {
            Lint::DuplicatedTrailers => duplicate_trailers::CONFIG,
            Lint::PivotalTrackerIdMissing => missing_pivotal_tracker_id::CONFIG,
            Lint::JiraIssueKeyMissing => missing_jira_issue_key::CONFIG,
            Lint::GitHubIdMissing => missing_github_id::CONFIG,
            Lint::SubjectNotSeparateFromBody => subject_not_separate_from_body::CONFIG,
            Lint::SubjectLongerThan72Characters => subject_longer_than_72_characters::CONFIG,
            Lint::SubjectNotCapitalized => subject_not_capitalized::CONFIG,
            Lint::SubjectEndsWithPeriod => subject_line_ends_with_period::CONFIG,
            Lint::BodyWiderThan72Characters => body_wider_than_72_characters::CONFIG,
            Lint::NotConventionalCommit => not_conventional_commit::CONFIG,
            Lint::NotEmojiLog => not_emoji_log::CONFIG,
        }
    }

    /// The lint's name as an owned string.
    pub fn to_string(self) -> (s: String)
        ensures
            s@ == lint_name(self),
    {
        self.name().to_owned()
    }

    /// All the lints
    pub fn iterator() -> (v: Vec<Lint>)
        ensures
            v@ == all_lints(),
    {
        let v = vec![
            Lint::DuplicatedTrailers,
            Lint::PivotalTrackerIdMissing,
            Lint::JiraIssueKeyMissing,
            Lint::SubjectNotSeparateFromBody,
            Lint::GitHubIdMissing,
            Lint::SubjectLongerThan72Characters,
            Lint::SubjectNotCapitalized,
            Lint::SubjectEndsWithPeriod,
            Lint::BodyWiderThan72Characters,
            Lint::NotConventionalCommit,
            Lint::NotEmojiLog,
        ];
        assert(v@ =~= all_lints());
        v
    }

    /// Check if a lint is enabled by default
    pub fn enabled_by_default(self) -> (b: bool)
        ensures
            b == enabled_by_default_spec(self),
    {
        match self {
            Lint::DuplicatedTrailers
            | Lint::SubjectNotSeparateFromBody
            | Lint::SubjectLongerThan72Characters
            | Lint::BodyWiderThan72Characters => true,
            _ => false,
        }
    }

    /// Get a key suitable for a configuration document
    pub fn config_key(self) -> (k: String)
        ensures
            k@ == config_key_of(self),
    {
        let mut k = CONFIG_KEY_PREFIX.to_owned();
        k.append(".");
        k.append(self.name());
        k
    }

    /// Run this lint on a commit message
    pub fn lint(self, commit_message: &CommitMessage) -> (r: Option<Problem>)
        ensures
            r matches Some(p) ==> p.message() == commit_message@,
            verdict(r) == lint_verdict(self, *commit_message),
    {
        match self {
            Lint::DuplicatedTrailers => duplicate_trailers::lint(commit_message),
            Lint::PivotalTrackerIdMissing => missing_pivotal_tracker_id::lint(commit_message),
            Lint::JiraIssueKeyMissing => missing_jira_issue_key::lint(commit_message),
            Lint::GitHubIdMissing => missing_github_id::lint(commit_message),
            Lint::SubjectNotSeparateFromBody => subject_not_separate_from_body::lint(
                commit_message,
            ),
            Lint::SubjectLongerThan72Characters => subject_longer_than_72_characters::lint(
                commit_message,
            ),
            Lint::SubjectNotCapitalized => subject_not_capitalized::lint(commit_message),
            Lint::SubjectEndsWithPeriod => subject_line_ends_with_period::lint(commit_message),
            Lint::BodyWiderThan72Characters => body_wider_than_72_characters::lint(
                commit_message,
            ),
            Lint::NotConventionalCommit => not_conventional_commit::lint(commit_message),
            Lint::NotEmojiLog => not_emoji_log::lint(commit_message),
        }
    }

    /// Find the lint with the given name.
    pub fn try_from(from: &str) -> (r: Result<Lint, LintError>)
        ensures
            match r {
                Ok(lint) => lint_named(from@) == Some(lint),
                Err(LintError::LintNotFound(name)) => lint_named(from@) is None && name@ == from@,
            },
    {
        let all = Lint::iterator();
        let wanted = chars_of(from);
        let mut i: usize = 0;
        while i < all.len()
            invariant
                i <= all.len(),
                all@ == all_lints(),
                wanted@ == from@,
                forall|j: int| 0 <= j < i ==> lint_name(#[trigger] all@[j]) != from@,
            decreases all.len() - i,
        {
            let lint = all[i];
            let name = chars_of(lint.name());
            if chars_equal(&name, &wanted) {
                proof {
                    lemma_lint_named(lint);
                }
                return Ok(lint);
            }
            i = i + 1;
        }
        proof {
            assert forall|l: Lint| lint_name(l) != from@ by {
                lemma_listed(l);
            }
        }
        Err(LintError::LintNotFound(from.to_owned()))
    }
}

impl Lint {
    /// Try and convert a list of names into lints, in declaration order
    /// and without repeats; fails on the first name that is not the name of
    /// a lint.
    pub fn from_names(names: Vec<&str>) -> (r: Result<Vec<Lint>, LintsError>)
        ensures
            match r {
                Ok(v) => all_named(name_views(names@)) && v@ == in_order(
                    named_set(name_views(names@)),
                ),
                Err(LintsError::LintNameUnknown(LintError::LintNotFound(name))) => exists|k: int|
                    first_unnamed(name_views(names@), k) && name@ == names@[k]@,
                Err(_) => false,
            },
    {
        let ghost given = names@;
        match Lints::try_from(names) {
            Ok(lints) => Ok(lints.into_vec()),
            Err(e) => Err(e),
        }
    }
}

/// Every lint is listed by [`Lint::iterator`].
pub proof fn lemma_listed(lint: Lint)
    ensures
        exists|j: int| 0 <= j < all_lints().len() && #[trigger] all_lints()[j] == lint,
{
    match lint {
        Lint::DuplicatedTrailers => assert(all_lints()[0] == lint),
        Lint::PivotalTrackerIdMissing => assert(all_lints()[1] == lint),
        Lint::JiraIssueKeyMissing => assert(all_lints()[2] == lint),
        Lint::SubjectNotSeparateFromBody => assert(all_lints()[3] == lint),
        Lint::GitHubIdMissing => assert(all_lints()[4] == lint),
        Lint::SubjectLongerThan72Characters => assert(all_lints()[5] == lint),
        Lint::SubjectNotCapitalized => assert(all_lints()[6] == lint),
        Lint::SubjectEndsWithPeriod => assert(all_lints()[7] == lint),
        Lint::BodyWiderThan72Characters => assert(all_lints()[8] == lint),
        Lint::NotConventionalCommit => assert(all_lints()[9] == lint),
        Lint::NotEmojiLog => assert(all_lints()[10] == lint),
    }
}

/// No two lints share a name.
pub proof fn lemma_names_distinct(a: Lint, b: Lint)
    ensures
        lint_name(a) == lint_name(b) ==> a == b,
{
    reveal_strlit("duplicated-trailers");
    reveal_strlit("pivotal-tracker-id-missing");
    reveal_strlit("jira-issue-key-missing");
    reveal_strlit("github-id-missing");
    reveal_strlit("subject-not-separated-from-body");
    reveal_strlit("subject-longer-than-72-characters");
    reveal_strlit("subject-line-not-capitalized");
    reveal_strlit("subject-line-ends-with-period");
    reveal_strlit("body-wider-than-72-characters");
    reveal_strlit("not-conventional-commit");
    reveal_strlit("not-emoji-log");
    if lint_name(a) == lint_name(b) && a != b {
        let x = lint_name(a);
        let y = lint_name(b);
        assert(x.len() == y.len());
        assert(x[0] == y[0]);
        assert(x[1] == y[1]);
        assert(x[8] == y[8]);
        assert(x[9] == y[9]);
        assert(x[13] == y[13]);
    }
}

/// A lint is found by its own name.
pub proof fn lemma_lint_named(lint: Lint)
    ensures
        lint_named(lint_name(lint)) == Some(lint),
{
    let l = choose|l: Lint| lint_name(l) == lint_name(lint);
    lemma_names_distinct(l, lint);
}

/// The error code a lint reports its problems under.
pub open spec fn lint_code(lint: Lint) -> Code {
    match lint {
        Lint::DuplicatedTrailers => Code::DuplicatedTrailers,
        Lint::PivotalTrackerIdMissing => Code::PivotalTrackerIdMissing,
        Lint::JiraIssueKeyMissing => Code::JiraIssueKeyMissing,
        Lint::GitHubIdMissing => Code::GitHubIdMissing,
        Lint::SubjectNotSeparateFromBody => Code::SubjectNotSeparateFromBody,
        Lint::SubjectLongerThan72Characters => Code::SubjectLongerThan72Characters,
        Lint::SubjectNotCapitalized => Code::SubjectNotCapitalized,
        Lint::SubjectEndsWithPeriod => Code::SubjectEndsWithPeriod,
        Lint::BodyWiderThan72Characters => Code::BodyWiderThan72Characters,
        Lint::NotConventionalCommit => Code::NotConventionalCommit,
        Lint::NotEmojiLog => Code::NotEmojiLog,
    }
}

/// A problem that a lint reports carries that lint's own error code and the
/// text of the commit message it was found in.
pub proof fn lemma_problem_names_its_lint(lint: Lint, commit: CommitMessage)
    ensures
        lint_verdict(lint, commit) matches Some(p) ==> p.code == lint_code(lint)
            && p.commit_message == commit.text@,
{
}

/// Different lints report under different codes.
pub proof fn lemma_lint_codes_distinct(a: Lint, b: Lint)
    ensures
        lint_code(a) == lint_code(b) ==> a == b,
{
}

/// [`Lint::iterator`] lists every lint exactly once.
pub proof fn lemma_all_lints_once()
    ensures
        forall|l: Lint| #[trigger] all_lints().contains(l),
        all_lints().no_duplicates(),
{
    assert forall|l: Lint| #[trigger] all_lints().contains(l) by {
        lemma_listed(l);
    }
}

} // verus!
