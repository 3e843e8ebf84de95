//! Lint: there is no blank line between the subject and the body.
use vstd::prelude::*;

use crate::commit::CommitMessage;
use crate::model::code::Code;
use crate::model::problem::{problem_view, verdict, Label, Problem, ProblemView};
use crate::text::{
    byte_len, byte_length, chars_of, first_newline, lemma_byte_len_subrange, lemma_first_newline,
    lines, split_lines, strip_cr, vec_byte_len,
};

verus! {

/// Canonical lint ID
pub const CONFIG: &'static str = "subject-not-separated-from-body";

/// Description of the problem
pub const ERROR: &'static str = "Your commit message is missing a blank line between the subject and the body";

/// Advice on how to correct the problem
pub const HELP_MESSAGE: &'static str = "Most tools that render and parse commit messages, expect commit \
                            messages to be in the form of subject and body. This includes git \
                            itself in tools like git-format-patch. If you don't include this you \
                            may see strange behaviour from git and any related tools.\n\nTo fix \
                            this separate subject from body with a blank line";

/// Text of the label
pub const LABEL: &'static str = "Missing blank line";

/// Where to read about commit guidelines
pub const URL: &'static str = "https://git-scm.com/book/en/v2/Distributed-Git-Contributing-to-a-Project#_commit_guidelines";

/// The line is not a comment: it does not start with the comment character.
pub open spec fn not_comment(line: Seq<char>, comment_char: Option<char>) -> bool {
    match comment_char {
        None => true,
        Some(c) => !(line.len() > 0 && line[0] == c),
    }
}

/// The lines that are not comments, in order.
pub open spec fn kept_lines(ls: Seq<Seq<char>>, comment_char: Option<char>) -> Seq<Seq<char>>
    decreases ls.len(),
{
    if ls.len() == 0 {
        seq![]
    } else {
        let rest = kept_lines(ls.drop_last(), comment_char);
        if not_comment(ls.last(), comment_char) {
            rest.push(ls.last())
        } else {
            rest
        }
    }
}

/// The second line of the text that is not a comment is not empty.
pub open spec fn runs_into_body(text: Seq<char>, comment_char: Option<char>) -> bool {
    let kept = kept_lines(lines(text), comment_char);
    kept.len() >= 2 && kept[1].len() > 0
}

/// What the lint reports about a message with text `text`: a label that
/// starts just after the first line and runs over the second.
pub open spec fn separation_problem(text: Seq<char>) -> ProblemView {
    let ls = lines(text);
    let first: nat = if ls.len() > 0 { byte_len(ls[0]) } else { 0 };
    let second: nat = if ls.len() > 1 { byte_len(ls[1]) } else { 0 };
    problem_view(
        ERROR@,
        HELP_MESSAGE@,
        Code::SubjectNotSeparateFromBody,
        text,
        Some(seq![(LABEL@, (first + 1) as usize, second as usize)]),
        Some(URL@),
    )
}

/// Dropping comments keeps no more lines than there were.
proof fn lemma_kept_lines_len(ls: Seq<Seq<char>>, comment_char: Option<char>)
    ensures
        kept_lines(ls, comment_char).len() <= ls.len(),
    decreases ls.len(),
{
    if ls.len() > 0 {
        lemma_kept_lines_len(ls.drop_last(), comment_char);
    }
}

/// When a text has a second line, its first line and the line break after
/// it are part of the text.
proof fn lemma_first_line_then_break(s: Seq<char>)
    requires
        lines(s).len() >= 2,
    ensures
        byte_len(lines(s)[0]) + 1 <= byte_len(s),
        byte_len(lines(s)[1]) <= byte_len(s),
{
    lemma_first_newline(s);
    let k = first_newline(s) as int;
    crate::text::lemma_lines_byte_len(s, 1);
    if k >= s.len() {
        assert(lines(s).len() == 1);
    } else {
        let first = s.take(k);
        assert(lines(s)[0] == strip_cr(first));
        if first.len() > 0 && first.last() == '\r' {
            lemma_byte_len_subrange(first, 0, first.len() - 1);
            assert(first.drop_last() =~= first.subrange(0, first.len() - 1));
        }
        lemma_byte_len_subrange(s, 0, k);
        lemma_byte_len_subrange(s, 0, k + 1);
        lemma_byte_len_subrange(s, k, k + 1);
        lemma_byte_len_subrange(s, 0, s.len() as int);
        assert(s.subrange(0, s.len() as int) =~= s);
        assert(s.take(k) =~= s.subrange(0, k));
        assert(s.subrange(k, k + 1) =~= seq!['\n']);
        assert(byte_len(seq!['\n']) == 1) by {
            assert(seq!['\n'].drop_first() =~= Seq::<char>::empty());
            assert(byte_len(Seq::<char>::empty()) == 0);
            assert(('\n' as u32) == 10);
        }
        assert(byte_len(s.subrange(0, k + 1)) <= byte_len(s));
    }
}

/// The lines of `ls` that are not comments.
fn keep_lines(ls: &Vec<Vec<char>>, comment_char: Option<char>) -> (r: Vec<Vec<char>>)
    ensures
        r.deep_view() == kept_lines(ls.deep_view(), comment_char),
{
    let mut r: Vec<Vec<char>> = Vec::new();
    let mut i: usize = 0;
    while i < ls.len()
        invariant
            i <= ls.len(),
            r.deep_view() == kept_lines(ls.deep_view().take(i as int), comment_char),
        decreases ls.len() - i,
    {
        let line = &ls[i];
        let keep = match comment_char {
            None => true,
            Some(c) => !(line.len() > 0 && line[0] == c),
        };
        proof {
            let t = ls.deep_view().take(i + 1);
            assert(t.drop_last() =~= ls.deep_view().take(i as int));
            assert(t.last() == line@);
        }
        if keep {
            let ghost before = r.deep_view();
            r.push(line.clone());
            proof {
                assert(r.deep_view() =~= before.push(line@));
            }
        }
        i = i + 1;
    }
    assert(ls.deep_view().take(ls.len() as int) =~= ls.deep_view());
    r
}

/// Checks that the subject is followed by a blank line.
pub fn lint(commit_message: &CommitMessage) -> (r: Option<Problem>)
    ensures
        r matches Some(p) ==> p.message() == commit_message@,
        verdict(r) == if runs_into_body(commit_message.text@, commit_message.comment_char) {
            Some(separation_problem(commit_message.text@))
        } else {
            None
        },
{
    let text = chars_of(commit_message.text.as_str());
    let _ = byte_length(commit_message.text.as_str());
    let all = split_lines(&text);
    let kept = keep_lines(&all, commit_message.comment_char);
    if !(kept.len() >= 2 && kept[1].len() > 0) {
        return None;
    }
    proof {
        lemma_kept_lines_len(lines(text@), commit_message.comment_char);
        lemma_first_line_then_break(text@);
        assert(all@[0].deep_view() =~= all@[0]@);
        assert(all@[1].deep_view() =~= all@[1]@);
    }
    let first = vec_byte_len(&all[0]);
    let second = vec_byte_len(&all[1]);
    let mut labels: Vec<Label> = Vec::new();
    labels.push((LABEL.to_owned(), first + 1, second));
    let p = Problem::new(
        ERROR.to_owned(),
        HELP_MESSAGE.to_owned(),
        Code::SubjectNotSeparateFromBody,
        commit_message,
        Some(labels),
        Some(URL.to_owned()),
    );
    proof {
        assert(p@.labels =~~= separation_problem(commit_message.text@).labels);
    }
    Some(p)
}

/// Dropping comments keeps, in order, exactly the lines that do not start
/// with the comment character.
pub proof fn lemma_kept_lines_drop_comments(ls: Seq<Seq<char>>, comment_char: Option<char>)
    ensures
        kept_lines(ls, comment_char) == ls.filter(
            |line: Seq<char>|
                !(comment_char is Some && line.len() > 0 && line[0] == comment_char->0),
        ),
    decreases ls.len(),
{
    reveal(Seq::filter);
    if ls.len() > 0 {
        lemma_kept_lines_drop_comments(ls.drop_last(), comment_char);
    }
}

/// The lint reports exactly when, once the lines that start with the
/// comment character are removed, the second line left is not empty.
pub proof fn lemma_runs_into_body(text: Seq<char>, comment_char: Option<char>)
    ensures
        runs_into_body(text, comment_char) <==> ({
            let kept = lines(text).filter(
                |line: Seq<char>|
                    !(comment_char is Some && line.len() > 0 && line[0] == comment_char->0),
            );
            kept.len() >= 2 && kept[1].len() > 0
        }),
{
    lemma_kept_lines_drop_comments(lines(text), comment_char);
}

} // verus!
