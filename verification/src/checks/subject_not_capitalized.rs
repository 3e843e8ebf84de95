//! Lint: the subject does not start with a capital letter.
use vstd::prelude::*;

use crate::commit::CommitMessage;
use crate::model::code::Code;
use crate::model::problem::{problem_view, verdict, Label, Problem, ProblemView};
use crate::text::{char_byte_len, chars_of, utf8_len, is_lowercase, is_white_space, is_whitespace, char_lowercase};

verus! {

/// Canonical lint ID
pub const CONFIG: &'static str = "subject-line-not-capitalized";

/// Advice on how to correct the problem
pub const HELP_MESSAGE: &'static str = "The subject line is a title, and as such should be \
                            capitalised.\n\nYou can fix this by capitalising the first character \
                            in the subject";

/// Description of the problem
pub const ERROR: &'static str = "Your commit message is missing a capital letter";

/// Text of the label
pub const LABEL: &'static str = "Not capitalised";

/// Where to read about commit guidelines
pub const URL: &'static str = "https://git-scm.com/book/en/v2/Distributed-Git-Contributing-to-a-Project#_commit_guidelines";

/// The first character of `s` that is not white space, if any.
pub open spec fn first_non_space(s: Seq<char>) -> Option<char>
    decreases s.len(),
{
    if s.len() == 0 {
        None
    } else if is_white_space(s[0]) {
        first_non_space(s.drop_first())
    } else {
        Some(s[0])
    }
}

/// The subject starts, after any white space, with a lowercase letter.
pub open spec fn starts_lowercase(subject: Seq<char>) -> bool {
    first_non_space(subject) matches Some(c) && char_lowercase(c)
}

/// How many characters of `s` are white space.
pub open spec fn space_count(s: Seq<char>) -> nat
    decreases s.len(),
{
    if s.len() == 0 {
        0
    } else {
        space_count(s.drop_last()) + if is_white_space(s.last()) {
            1nat
        } else {
            0nat
        }
    }
}

/// What the lint reports about a message with text `text` and subject
/// `subject`: a label at the count of white space in the subject, less two
/// (not below zero), over the bytes of the first character that is not
/// white space.
pub open spec fn capital_problem(text: Seq<char>, subject: Seq<char>) -> ProblemView {
    let n = space_count(subject);
    let at: nat = if n >= 2 { (n - 2) as nat } else { 0 };
    let width: nat = match first_non_space(subject) {
        Some(c) => utf8_len(c),
        None => 0,
    };
    problem_view(
        ERROR@,
        HELP_MESSAGE@,
        Code::SubjectNotCapitalized,
        text,
        Some(seq![(LABEL@, at as usize, width as usize)]),
        Some(URL@),
    )
}

/// Finds [`first_non_space`].
fn first_non_space_of(s: &Vec<char>) -> (r: Option<char>)
    ensures
        r == first_non_space(s@),
{
    let mut i: usize = 0;
    assert(s@.skip(0) =~= s@);
    while i < s.len() && is_whitespace(s[i])
        invariant
            i <= s.len(),
            first_non_space(s@) == first_non_space(s@.skip(i as int)),
        decreases s.len() - i,
    {
        proof {
            assert(s@.skip(i as int).drop_first() =~= s@.skip(i + 1));
        }
        i = i + 1;
    }
    if i < s.len() {
        Some(s[i])
    } else {
        None
    }
}

/// Counts [`space_count`].
fn count_spaces(s: &Vec<char>) -> (n: usize)
    ensures
        n == space_count(s@),
{
    let mut n: usize = 0;
    let mut i: usize = 0;
    while i < s.len()
        invariant
            i <= s.len(),
            n <= i,
            n == space_count(s@.take(i as int)),
        decreases s.len() - i,
    {
        proof {
            assert(s@.take(i + 1).drop_last() =~= s@.take(i as int));
        }
        if is_whitespace(s[i]) {
            n = n + 1;
        }
        i = i + 1;
    }
    assert(s@.take(s.len() as int) =~= s@);
    n
}

/// Checks that the subject starts with a capital letter.
pub fn lint(commit_message: &CommitMessage) -> (r: Option<Problem>)
    ensures
        r matches Some(p) ==> p.message() == commit_message@,
        verdict(r) == if starts_lowercase(commit_message.subject@) {
            Some(capital_problem(commit_message.text@, commit_message.subject@))
        } else {
            None
        },
{
    let cs = chars_of(commit_message.subject.as_str());
    let first = first_non_space_of(&cs);
    let (lower, width) = match first {
        Some(c) => (is_lowercase(c), char_byte_len(c)),
        None => (false, 0),
    };
    if !lower {
        return None;
    }
    let n = count_spaces(&cs);
    let at = if n >= 2 {
        n - 2
    } else {
        0
    };
    let mut labels: Vec<Label> = Vec::new();
    labels.push((LABEL.to_owned(), at, width));
    let p = Problem::new(
        ERROR.to_owned(),
        HELP_MESSAGE.to_owned(),
        Code::SubjectNotCapitalized,
        commit_message,
        Some(labels),
        Some(URL.to_owned()),
    );
    proof {
        assert(p@.labels =~~= capital_problem(commit_message.text@, commit_message.subject@).labels);
    }
    Some(p)
}

/// The character the lint looks at is the first one that is not white
/// space: everything before it is white space, and there is none when the
/// subject is all white space.
pub proof fn lemma_first_non_space(s: Seq<char>)
    ensures
        match first_non_space(s) {
            Some(c) => exists|k: int|
                0 <= k < s.len() && s[k] == c && !is_white_space(c) && forall|j: int|
                    0 <= j < k ==> is_white_space(#[trigger] s[j]),
            None => forall|j: int| 0 <= j < s.len() ==> is_white_space(#[trigger] s[j]),
        },
    decreases s.len(),
{
    if s.len() > 0 {
        lemma_first_non_space(s.drop_first());
        if is_white_space(s[0]) {
            match first_non_space(s.drop_first()) {
                Some(c) => {
                    let k = choose|k: int|
                        0 <= k < s.drop_first().len() && s.drop_first()[k] == c
                            && !is_white_space(c) && forall|j: int|
                            0 <= j < k ==> is_white_space(#[trigger] s.drop_first()[j]);
                    assert(s[k + 1] == c);
                    assert forall|j: int| 0 <= j < k + 1 implies is_white_space(#[trigger] s[j]) by {
                        if j > 0 {
                            assert(s[j] == s.drop_first()[j - 1]);
                        }
                    }
                },
                None => {
                    assert forall|j: int| 0 <= j < s.len() implies is_white_space(#[trigger] s[j]) by {
                        if j > 0 {
                            assert(s[j] == s.drop_first()[j - 1]);
                        }
                    }
                },
            }
        } else {
            assert(forall|j: int| 0 <= j < 0 ==> is_white_space(#[trigger] s[j]));
        }
    }
}

/// The lint reports exactly when the first character of the subject that
/// is not white space is lowercase; punctuation there is not.
pub proof fn lemma_starts_lowercase(s: Seq<char>)
    ensures
        starts_lowercase(s) <==> exists|k: int|
            0 <= k < s.len() && !is_white_space(s[k]) && char_lowercase(#[trigger] s[k])
                && forall|j: int| 0 <= j < k ==> is_white_space(#[trigger] s[j]),
{
    lemma_first_non_space(s);
    if exists|k: int|
        0 <= k < s.len() && !is_white_space(s[k]) && char_lowercase(#[trigger] s[k]) && forall|
            j: int,
        | 0 <= j < k ==> is_white_space(#[trigger] s[j]) {
        let k = choose|k: int|
            0 <= k < s.len() && !is_white_space(s[k]) && char_lowercase(#[trigger] s[k])
                && forall|j: int| 0 <= j < k ==> is_white_space(#[trigger] s[j]);
        match first_non_space(s) {
            Some(c) => {
                let m = choose|m: int|
                    0 <= m < s.len() && s[m] == c && !is_white_space(c) && forall|j: int|
                        0 <= j < m ==> is_white_space(#[trigger] s[j]);
                if m < k {
                    assert(is_white_space(s[m]));
                } else if k < m {
                    assert(is_white_space(s[k]));
                }
            },
            None => {
                assert(is_white_space(s[k]));
            },
        }
    }
}

} // verus!
