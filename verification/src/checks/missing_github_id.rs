//! Lint: the commit message does not mention a GitHub issue ID.
use vstd::prelude::*;

use crate::commit::{find_pattern, pattern_found, CommitMessage};
use crate::model::code::Code;
use crate::model::problem::{
    label_last_line, last_line_label, problem_view, verdict, Label, Problem, ProblemView,
};

verus! {

/// Canonical lint ID
pub const CONFIG: &'static str = "github-id-missing";

/// Advice on how to correct the problem
pub const HELP_MESSAGE: &'static str = "It's important to add the issue ID because it allows us to link code back to the motivations for doing it, and because we can help people exploring the repository link their issues to specific bits of code.

You can fix this by adding a ID like the following examples:

#642
GH-642
AnUser/git-mit#642
AnOrganisation/git-mit#642
fixes #642

Be careful just putting '#642' on a line by itself, as '#' is the default comment character";

/// Description of the problem
pub const ERROR: &'static str = "Your commit message is missing a GitHub ID";

/// Text of the label on the last line
pub const LABEL: &'static str = "No GitHub ID";

/// Where to read about a GitHub issue ID
pub const URL: &'static str = "https://docs.github.com/en/github/writing-on-github/working-with-advanced-formatting/autolinked-references-and-urls#issues-and-pull-requests";

/// The regular expression that a GitHub issue ID matches; the ID may be
/// followed by punctuation, and repository names may hold underscores.
pub const PATTERN: &'static str = r"(?m)(^| )([a-zA-Z0-9_-]{3,39}/[a-zA-Z0-9_-]+#|GH-|#)[0-9]+\b";

/// What the lint reports about a message with text `text`.
///
/// The label runs from the start of the last line that is not blank to the
/// end of the text (no byte is held back at the end): for
/// `"An example commit\n\nThis is an example commit\n"` it is `(19, 26)`.
/// This follows the lint's test file; an older inline test expected one
/// byte less (`(19, 25)`), and the two cannot both hold.
pub open spec fn missing_problem(text: Seq<char>) -> ProblemView {
    problem_view(
        ERROR@,
        HELP_MESSAGE@,
        Code::GitHubIdMissing,
        text,
        Some(seq![last_line_label(text, LABEL@, 0)]),
        Some(URL@),
    )
}

/// Reports the problem unless the search for [`PATTERN`] in the message
/// came back `Some(true)`.
pub fn report(commit_message: &CommitMessage, found: Option<bool>) -> (r: Option<Problem>)
    ensures
        r matches Some(p) ==> p.message() == commit_message@,
        verdict(r) == if found == Some(true) {
            None
        } else {
            Some(missing_problem(commit_message.text@))
        },
{
    if found == Some(true) {
        return None;
    }
    let mut labels: Vec<Label> = Vec::new();
    labels.push(label_last_line(&commit_message.text, LABEL, 0));
    let p = Problem::new(
        ERROR.to_owned(),
        HELP_MESSAGE.to_owned(),
        Code::GitHubIdMissing,
        commit_message,
        Some(labels),
        Some(URL.to_owned()),
    );
    proof {
        assert(p@.labels =~~= missing_problem(commit_message.text@).labels);
    }
    Some(p)
}

/// Checks that the commit message mentions a GitHub issue ID.
pub fn lint(commit_message: &CommitMessage) -> (r: Option<Problem>)
    ensures
        r matches Some(p) ==> p.message() == commit_message@,
        verdict(r) == if pattern_found(commit_message.source@, PATTERN@) == Some(true) {
            None
        } else {
            Some(missing_problem(commit_message.text@))
        },
{
    let found = find_pattern(commit_message.source.as_str(), PATTERN);
    report(commit_message, found)
}

} // verus!
