//! Lint: the commit message does not mention a Pivotal Tracker story ID.
use vstd::prelude::*;

use crate::commit::{find_pattern, pattern_found, CommitMessage};
use crate::model::code::Code;
use crate::model::problem::{
    label_last_line, last_line_label, problem_view, verdict, Label, Problem, ProblemView,
};

verus! {

/// Canonical lint ID
pub const CONFIG: &'static str = "pivotal-tracker-id-missing";

/// Advice on how to correct the problem
pub const HELP_MESSAGE: &'static str = "It's important to add the ID because it allows code to be linked back to the stories it was \
done for, it can provide a chain of custody for code for audit purposes, and it can give \
future explorers of the codebase insight into the wider organisational need behind the \
change. We may also use it for automation purposes, like generating changelogs or \
notification emails.

You can fix this by adding the Id in one of the styles below to the commit message
[Delivers #12345678]
[fixes #12345678]
[finishes #12345678]
[#12345884 #12345678]
[#12345884,#12345678]
[#12345678],[#12345884]
This will address [#12345884]";

/// Description of the problem
pub const ERROR: &'static str = "Your commit message is missing a Pivotal Tracker ID";

/// Text of the label on the last line
pub const LABEL: &'static str = "No Pivotal Tracker ID";

/// Where to read about a Pivotal Tracker story ID
pub const URL: &'static str = "https://www.pivotaltracker.com/help/api?version=v5#Tracker_Updates_in_SCM_Post_Commit_Hooks";

/// The regular expression that a Pivotal Tracker story ID matches.
pub const PATTERN: &'static str = r"(?i)\[(((finish|fix)(ed|es)?|complete[ds]?|deliver(s|ed)?) )?#\d+([, ]#\d+)*]";

/// What the lint reports about a message with text `text`.
pub open spec fn missing_problem(text: Seq<char>) -> ProblemView {
    problem_view(
        ERROR@,
        HELP_MESSAGE@,
        Code::PivotalTrackerIdMissing,
        text,
        Some(seq![last_line_label(text, LABEL@, 1)]),
        Some(URL@),
    )
}

/// Reports the problem unless the search for [`PATTERN`] in the message
/// came back `Some(true)`.
pub fn report(commit_message: &CommitMessage, found: Option<bool>) -> (r: Option<Problem>)
    ensures
        r matches Some(p) ==> p.message() == commit_message@,
        verdict(r) == if found == Some(true) {
            None
        } else {
            Some(missing_problem(commit_message.text@))
        },
{
    if found == Some(true) {
        return None;
    }
    let mut labels: Vec<Label> = Vec::new();
    labels.push(label_last_line(&commit_message.text, LABEL, 1));
    let p = Problem::new(
        ERROR.to_owned(),
        HELP_MESSAGE.to_owned(),
        Code::PivotalTrackerIdMissing,
        commit_message,
        Some(labels),
        Some(URL.to_owned()),
    );
    proof {
        assert(p@.labels =~~= missing_problem(commit_message.text@).labels);
    }
    Some(p)
}

/// Checks that the commit message mentions a Pivotal Tracker story ID.
pub fn lint(commit_message: &CommitMessage) -> (r: Option<Problem>)
    ensures
        r matches Some(p) ==> p.message() == commit_message@,
        verdict(r) == if pattern_found(commit_message.source@, PATTERN@) == Some(true) {
            None
        } else {
            Some(missing_problem(commit_message.text@))
        },
{
    let found = find_pattern(commit_message.source.as_str(), PATTERN);
    report(commit_message, found)
}

} // verus!
