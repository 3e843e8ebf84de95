//! Lint: the subject line ends with a period.
use vstd::prelude::*;

use crate::commit::CommitMessage;
use crate::model::code::Code;
use crate::model::problem::{problem_view, verdict, Label, Problem, ProblemView};
use crate::text::{
    byte_len, byte_length, chars_of, is_white_space, is_whitespace, lemma_byte_len_bounds,
    lemma_trimmed_len, trimmed_len, trimmed_length,
};

verus! {

/// Canonical lint ID
pub const CONFIG: &'static str = "subject-line-ends-with-period";

/// Description of the problem
pub const ERROR: &'static str = "Your commit message ends with a period";

/// Advice on how to correct the problem
pub const HELP_MESSAGE: &'static str = "It's important to keep your commits short, because we only have a \
                            limited number of characters to use (72) before the subject line is \
                            truncated. Full stops aren't normally in subject lines, and take up \
                            an extra character, so we shouldn't use them in commit message \
                            subjects.\n\nYou can fix this by removing the period";

/// Text of the label
pub const LABEL: &'static str = "Unneeded period";

/// Where to read about commit guidelines
pub const URL: &'static str = "https://git-scm.com/book/en/v2/Distributed-Git-Contributing-to-a-Project#_commit_guidelines";

/// The subject, once trailing white space is removed, ends with `'.'`.
pub open spec fn ends_with_period(subject: Seq<char>) -> bool {
    trimmed_len(subject) > 0 && subject[trimmed_len(subject) - 1] == '.'
}

/// How many characters of `s` are periods or white space.
pub open spec fn period_or_space_count(s: Seq<char>) -> nat
    decreases s.len(),
{
    if s.len() == 0 {
        0
    } else {
        period_or_space_count(s.drop_last()) + if s.last() == '.' || is_white_space(s.last()) {
            1nat
        } else {
            0nat
        }
    }
}

/// How many periods end `s` once white space is ignored.
pub open spec fn trailing_periods(s: Seq<char>) -> nat
    decreases s.len(),
{
    if s.len() == 0 {
        0
    } else if is_white_space(s.last()) {
        trailing_periods(s.drop_last())
    } else if s.last() == '.' {
        trailing_periods(s.drop_last()) + 1
    } else {
        0
    }
}

/// The label under the periods: it starts at the subject's byte length less
/// the count of periods and white space (less two, not below zero) and runs
/// over the trailing periods.
pub open spec fn period_label(subject: Seq<char>) -> (Seq<char>, usize, usize) {
    let n = period_or_space_count(subject);
    let back: nat = if n >= 2 { (n - 2) as nat } else { 0 };
    (LABEL@, (byte_len(subject) - back) as usize, trailing_periods(subject) as usize)
}

/// What the lint reports about a message with text `text` and subject
/// `subject`.
pub open spec fn period_problem(text: Seq<char>, subject: Seq<char>) -> ProblemView {
    problem_view(
        ERROR@,
        HELP_MESSAGE@,
        Code::SubjectEndsWithPeriod,
        text,
        Some(seq![period_label(subject)]),
        Some(URL@),
    )
}

/// Counts are no more than the characters counted.
proof fn lemma_counts_bounded(s: Seq<char>)
    ensures
        period_or_space_count(s) <= s.len(),
        trailing_periods(s) <= s.len(),
    decreases s.len(),
{
    if s.len() > 0 {
        lemma_counts_bounded(s.drop_last());
    }
}

/// Computes [`period_label`].
fn label_period(subject: &String) -> (l: Label)
    ensures
        l.deep_view() == period_label(subject@),
{
    let cs = chars_of(subject.as_str());
    let total = byte_length(subject.as_str());
    let mut n: usize = 0;
    let mut i: usize = 0;
    while i < cs.len()
        invariant
            i <= cs.len(),
            n == period_or_space_count(cs@.take(i as int)),
            n <= i,
        decreases cs.len() - i,
    {
        proof {
            assert(cs@.take(i + 1).drop_last() =~= cs@.take(i as int));
        }
        let c = cs[i];
        if c == '.' || is_whitespace(c) {
            n = n + 1;
        }
        i = i + 1;
    }
    assert(cs@.take(cs.len() as int) =~= cs@);
    let mut k: usize = cs.len();
    let mut periods: usize = 0;
    while k > 0 && (is_whitespace(cs[k - 1]) || cs[k - 1] == '.')
        invariant
            k <= cs.len(),
            periods + k <= cs.len(),
            trailing_periods(cs@) == periods + trailing_periods(cs@.take(k as int)),
        decreases k,
    {
        proof {
            assert(cs@.take(k as int).drop_last() =~= cs@.take(k - 1));
        }
        if !is_whitespace(cs[k - 1]) {
            periods = periods + 1;
        }
        k = k - 1;
    }
    proof {
        lemma_byte_len_bounds(subject@);
    }
    let back = if n >= 2 {
        n - 2
    } else {
        0
    };
    (LABEL.to_owned(), total - back, periods)
}

/// Checks that the subject does not end with a period.
pub fn lint(commit_message: &CommitMessage) -> (r: Option<Problem>)
    ensures
        r matches Some(p) ==> p.message() == commit_message@,
        verdict(r) == if ends_with_period(commit_message.subject@) {
            Some(period_problem(commit_message.text@, commit_message.subject@))
        } else {
            None
        },
{
    let cs = chars_of(commit_message.subject.as_str());
    let end = trimmed_length(&cs);
    proof {
        lemma_trimmed_len(cs@);
    }
    if !(end > 0 && cs[end - 1] == '.') {
        return None;
    }
    let mut labels: Vec<Label> = Vec::new();
    labels.push(label_period(&commit_message.subject));
    let p = Problem::new(
        ERROR.to_owned(),
        HELP_MESSAGE.to_owned(),
        Code::SubjectEndsWithPeriod,
        commit_message,
        Some(labels),
        Some(URL.to_owned()),
    );
    proof {
        assert(p@.labels =~~= period_problem(commit_message.text@, commit_message.subject@).labels);
    }
    Some(p)
}

} // verus!
