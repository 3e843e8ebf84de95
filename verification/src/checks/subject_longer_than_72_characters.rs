//! Lint: the subject is longer than 72 characters.
use vstd::prelude::*;

use crate::commit::CommitMessage;
use crate::model::code::Code;
use crate::model::problem::{problem_view, verdict, Label, Problem, ProblemView};
use crate::text::{
    byte_len, byte_length, chars_of, lemma_byte_len_bounds, lemma_byte_len_subrange, range_byte_len,
};

verus! {

/// Canonical lint ID
pub const CONFIG: &'static str = "subject-longer-than-72-characters";

/// Advice on how to correct the problem
pub const HELP_MESSAGE: &'static str = "It's important to keep the subject of the commit less than 72 \
                            characters because when you look at the git log, that's where it \
                            truncates the message. This means that people won't get the entirety \
                            of the information in your commit.\n\nPlease keep the subject line 72 \
                            characters or under";

/// Description of the problem
pub const ERROR: &'static str = "Your subject is longer than 72 characters";

/// Text of the label
pub const LABEL: &'static str = "Too long";

/// The most characters a subject may have.
pub const LIMIT: usize = 72;

/// What the lint reports about a message with text `text` and subject
/// `subject`: a label from just after the bytes of the first [`LIMIT`]
/// characters, over the bytes of the characters past the limit.
pub open spec fn long_subject_problem(text: Seq<char>, subject: Seq<char>) -> ProblemView {
    let head = byte_len(subject.take(LIMIT as int));
    problem_view(
        ERROR@,
        HELP_MESSAGE@,
        Code::SubjectLongerThan72Characters,
        text,
        Some(seq![(LABEL@, (head + 1) as usize, (byte_len(subject) - head) as usize)]),
        None,
    )
}

/// Checks that the subject has at most [`LIMIT`] characters.
pub fn lint(commit: &CommitMessage) -> (r: Option<Problem>)
    ensures
        r matches Some(p) ==> p.message() == commit@,
        verdict(r) == if commit.subject@.len() > LIMIT {
            Some(long_subject_problem(commit.text@, commit.subject@))
        } else {
            None
        },
{
    let cs = chars_of(commit.subject.as_str());
    if cs.len() <= LIMIT {
        return None;
    }
    let total = byte_length(commit.subject.as_str());
    let head = range_byte_len(&cs, 0, LIMIT);
    proof {
        lemma_byte_len_subrange(cs@, 0, LIMIT as int);
        lemma_byte_len_subrange(cs@, 0, cs@.len() as int);
        assert(cs@.subrange(0, cs@.len() as int) =~= cs@);
        assert(cs@.subrange(0, LIMIT as int) =~= cs@.take(LIMIT as int));
        lemma_byte_len_bounds(cs@.take(LIMIT as int));
    }
    let mut labels: Vec<Label> = Vec::new();
    labels.push((LABEL.to_owned(), head + 1, total - head));
    let p = Problem::new(
        ERROR.to_owned(),
        HELP_MESSAGE.to_owned(),
        Code::SubjectLongerThan72Characters,
        commit,
        Some(labels),
        None,
    );
    proof {
        assert(p@.labels =~~= long_subject_problem(commit.text@, commit.subject@).labels);
    }
    Some(p)
}

} // verus!
