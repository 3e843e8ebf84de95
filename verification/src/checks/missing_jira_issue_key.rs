//! Lint: the commit message does not mention a JIRA issue key.
use vstd::prelude::*;

use crate::commit::{find_pattern, pattern_found, CommitMessage};
use crate::model::code::Code;
use crate::model::problem::{
    label_last_line, last_line_label, problem_view, verdict, Label, Problem, ProblemView,
};

verus! {

/// Canonical lint ID
pub const CONFIG: &'static str = "jira-issue-key-missing";

/// Advice on how to correct the problem
pub const HELP_MESSAGE: &'static str = "It's important to add the issue key because it allows us to link code back to the motivations \
for doing it, and in some cases provide an audit trail for compliance purposes.

You can fix this by adding a key like `JRA-123` to the commit message";

/// Description of the problem
pub const ERROR: &'static str = "Your commit message is missing a JIRA Issue Key";

/// Text of the label on the last line
pub const LABEL: &'static str = "No JIRA Issue Key";

/// Where to read about a JIRA issue key
pub const URL: &'static str = "https://support.atlassian.com/jira-software-cloud/docs/what-is-an-issue/#Workingwithissues-Projectkeys";

/// The regular expression that a JIRA issue key matches.
pub const PATTERN: &'static str = r"(?m)(^| )[A-Z]{2,}-[0-9]+( |$)";

/// What the lint reports about a message with text `text`.
pub open spec fn missing_problem(text: Seq<char>) -> ProblemView {
    problem_view(
        ERROR@,
        HELP_MESSAGE@,
        Code::JiraIssueKeyMissing,
        text,
        Some(seq![last_line_label(text, LABEL@, 0)]),
        Some(URL@),
    )
}

/// Reports the problem unless the search for [`PATTERN`] in the message
/// came back `Some(true)`.
pub fn report(commit_message: &CommitMessage, found: Option<bool>) -> (r: Option<Problem>)
    ensures
        r matches Some(p) ==> p.message() == commit_message@,
        verdict(r) == if found == Some(true) {
            None
        } else {
            Some(missing_problem(commit_message.text@))
        },
{
    if found == Some(true) {
        return None;
    }
    let mut labels: Vec<Label> = Vec::new();
    labels.push(label_last_line(&commit_message.text, LABEL, 0));
    let p = Problem::new(
        ERROR.to_owned(),
        HELP_MESSAGE.to_owned(),
        Code::JiraIssueKeyMissing,
        commit_message,
        Some(labels),
        Some(URL.to_owned()),
    );
    proof {
        assert(p@.labels =~~= missing_problem(commit_message.text@).labels);
    }
    Some(p)
}

/// Checks that the commit message mentions a JIRA issue key.
pub fn lint(commit_message: &CommitMessage) -> (r: Option<Problem>)
    ensures
        r matches Some(p) ==> p.message() == commit_message@,
        verdict(r) == if pattern_found(commit_message.source@, PATTERN@) == Some(true) {
            None
        } else {
            Some(missing_problem(commit_message.text@))
        },
{
    let found = find_pattern(commit_message.source.as_str(), PATTERN);
    report(commit_message, found)
}

} // verus!
