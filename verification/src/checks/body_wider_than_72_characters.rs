//! Lint: a line of the body is wider than 72 characters.
use vstd::prelude::*;

use crate::commit::CommitMessage;
use crate::model::code::Code;
use crate::model::problem::{problem_view, verdict, Label, Problem, ProblemView};
use crate::text::{
    byte_len, byte_length, char_byte_len, chars_of, lemma_byte_len_subrange, lemma_lines_byte_len,
    lines, range_byte_len, split_lines, starts_with, utf8_len,
};

verus! {

/// Canonical lint ID
pub const CONFIG: &'static str = "body-wider-than-72-characters";

/// Advice on how to correct the problem
pub const HELP_MESSAGE: &'static str = "It's important to keep the body of the commit narrower than 72 \
                            characters because when you look at the git log, that's where it \
                            truncates the message. This means that people won't get the entirety \
                            of the information in your commit.\n\nYou can fix this by making the \
                            lines in your body no more than 72 characters";

/// Description of the problem
pub const ERROR: &'static str = "Your commit has a body wider than 72 characters";

/// Text of each label
pub const LABEL: &'static str = "Too long";

/// Where to read about commit guidelines
pub const URL: &'static str = "https://git-scm.com/book/en/v2/Distributed-Git-Contributing-to-a-Project#_commit_guidelines";

/// The widest a line of the body may be.
pub const LIMIT: usize = 72;

/// The byte offset that walking `chars` from line `line` (0-based) and
/// column `col` reaches: the walk stops at the end, or once the 1-based
/// position `loc_line`, `loc_col` is reached; a line break moves to the
/// start of the next line, any other character one column on.
pub open spec fn walk_offset(chars: Seq<char>, loc_line: nat, loc_col: nat, line: nat, col: nat) -> nat
    decreases chars.len(),
{
    if chars.len() == 0 || (line + 1 >= loc_line && col + 1 >= loc_col) {
        0
    } else if chars[0] == '\n' {
        utf8_len(chars[0]) + walk_offset(chars.drop_first(), loc_line, loc_col, line + 1, 0)
    } else {
        utf8_len(chars[0]) + walk_offset(chars.drop_first(), loc_line, loc_col, line, col + 1)
    }
}

/// The byte offset of the 1-based line and column of `source`, as
/// `miette::SourceOffset::from_location` computes it: columns are counted in
/// characters, and a position past the end gives the end.
pub open spec fn location_offset(source: Seq<char>, loc_line: nat, loc_col: nat) -> nat {
    walk_offset(source, loc_line, loc_col, 0, 0)
}

/// Computes [`location_offset`].
pub fn source_offset(source: &String, loc_line: usize, loc_col: usize) -> (r: usize)
    ensures
        r == location_offset(source@, loc_line as nat, loc_col as nat),
{
    let cs = chars_of(source.as_str());
    let _ = byte_length(source.as_str());
    let ghost ll = loc_line as nat;
    let ghost lc = loc_col as nat;
    let mut line: usize = 0;
    let mut col: usize = 0;
    let mut offset: usize = 0;
    let mut i: usize = 0;
    assert(cs@.skip(0) =~= cs@);
    assert(cs@.take(0) =~= Seq::<char>::empty());
    while i < cs.len() && !(line + 1 >= loc_line && col + 1 >= loc_col)
        invariant
            i <= cs.len(),
            line <= i,
            col <= i,
            cs@ == source@,
            ll == loc_line as nat,
            lc == loc_col as nat,
            byte_len(cs@) <= usize::MAX,
            offset == byte_len(cs@.take(i as int)),
            location_offset(cs@, ll, lc) == offset + walk_offset(
                cs@.skip(i as int),
                ll,
                lc,
                line as nat,
                col as nat,
            ),
        decreases cs.len() - i,
    {
        let c = cs[i];
        proof {
            assert(cs@.skip(i as int).drop_first() =~= cs@.skip(i + 1));
            assert(cs@.skip(i as int)[0] == c);
            assert(!(line + 1 >= ll && col + 1 >= lc));
            if c == '\n' {
                assert(walk_offset(cs@.skip(i as int), ll, lc, line as nat, col as nat) == utf8_len(c)
                    + walk_offset(cs@.skip(i + 1), ll, lc, (line + 1) as nat, 0));
            } else {
                assert(walk_offset(cs@.skip(i as int), ll, lc, line as nat, col as nat) == utf8_len(c)
                    + walk_offset(cs@.skip(i + 1), ll, lc, line as nat, (col + 1) as nat));
            }
            lemma_byte_len_subrange(cs@, 0, i + 1);
            lemma_byte_len_subrange(cs@, i as int, i + 1);
            lemma_byte_len_subrange(cs@, 0, cs@.len() as int);
            assert(cs@.subrange(0, cs@.len() as int) =~= cs@);
            assert(cs@.take(i as int) =~= cs@.subrange(0, i as int));
            assert(cs@.take(i + 1) =~= cs@.subrange(0, i + 1));
            assert(cs@.subrange(i as int, i + 1) =~= seq![c]);
            assert(byte_len(seq![c]) == utf8_len(c)) by {
                assert(seq![c].drop_first() =~= Seq::<char>::empty());
                assert(byte_len(Seq::<char>::empty()) == 0);
            }
        }
        if c == '\n' {
            col = 0;
            line = line + 1;
        } else {
            col = col + 1;
        }
        offset = offset + char_byte_len(c);
        i = i + 1;
    }
    proof {
        if i == cs.len() {
            assert(cs@.skip(i as int) =~= Seq::<char>::empty());
        }
    }
    offset
}

/// Some line of the body has more than [`LIMIT`] characters.
pub open spec fn has_wide_line(body: Seq<char>) -> bool {
    exists|i: int| 0 <= i < lines(body).len() && (#[trigger] lines(body)[i]).len() > LIMIT
}

/// The line starts with the comment character and a space.
pub open spec fn marked_comment(line: Seq<char>, comment_char: Option<char>) -> bool {
    comment_char matches Some(c) && starts_with(line, seq![c, ' '])
}

/// The index of the first line of the text that belongs to the scissors
/// section (the count of lines when there is none).
pub open spec fn scissors_start(text: Seq<char>, scissors: Option<Seq<char>>) -> int {
    lines(text).len() - match scissors {
        Some(s) => lines(s).len(),
        None => 0,
    }
}

/// The line at `index` gets a label: it is not a comment, comes after the
/// subject and before the scissors section, and has more than [`LIMIT`]
/// characters.
pub open spec fn labelled(line: Seq<char>, index: int, comment_char: Option<char>, start: int) -> bool {
    &&& !marked_comment(line, comment_char)
    &&& index < start
    &&& index > 0
    &&& line.len() > LIMIT
}

/// The first [`LIMIT`] characters of `line` (all of it when it is shorter).
pub open spec fn within_limit(line: Seq<char>) -> Seq<char> {
    if line.len() <= LIMIT {
        line
    } else {
        line.take(LIMIT as int)
    }
}

/// The label of an over-long line, given the byte offset where it starts to
/// be highlighted: it runs over the characters past the limit.
pub open spec fn over_limit(line: Seq<char>, offset: usize) -> (Seq<char>, usize, usize) {
    (LABEL@, offset, if line.len() >= LIMIT { (line.len() - LIMIT) as usize } else { 0usize })
}

/// The label of the over-long line at `index` of `text`: highlighted from
/// column `LIMIT + 1` (counted in bytes) of line `index + 1`.
pub open spec fn wide_label(text: Seq<char>, index: int, line: Seq<char>) -> (Seq<char>, usize, usize) {
    over_limit(
        line,
        location_offset(text, (index + 1) as nat, byte_len(within_limit(line)) + 1) as usize,
    )
}

/// The labels of the lines of `ls` (the lines of `text`) that get one.
pub open spec fn wide_labels(
    text: Seq<char>,
    ls: Seq<Seq<char>>,
    comment_char: Option<char>,
    start: int,
) -> Seq<(Seq<char>, usize, usize)>
    decreases ls.len(),
{
    if ls.len() == 0 {
        seq![]
    } else {
        let rest = wide_labels(text, ls.drop_last(), comment_char, start);
        let index = ls.len() - 1;
        if labelled(ls.last(), index, comment_char, start) {
            rest.push(wide_label(text, index, ls.last()))
        } else {
            rest
        }
    }
}

/// What the lint reports about a commit message.
pub open spec fn wide_problem(
    text: Seq<char>,
    comment_char: Option<char>,
    scissors: Option<Seq<char>>,
) -> ProblemView {
    problem_view(
        ERROR@,
        HELP_MESSAGE@,
        Code::BodyWiderThan72Characters,
        text,
        Some(wide_labels(text, lines(text), comment_char, scissors_start(text, scissors))),
        Some(URL@),
    )
}

/// Every label the lint gives belongs to a line after the subject and
/// before the scissors section that is not a comment and is over the limit:
/// the subject line is never highlighted.
pub proof fn lemma_labels_skip_subject(
    text: Seq<char>,
    ls: Seq<Seq<char>>,
    comment_char: Option<char>,
    start: int,
    k: int,
)
    requires
        0 <= k < wide_labels(text, ls, comment_char, start).len(),
    ensures
        exists|i: int|
            0 < i < ls.len() && labelled(#[trigger] ls[i], i, comment_char, start)
                && wide_labels(text, ls, comment_char, start)[k] == wide_label(text, i, ls[i]),
    decreases ls.len(),
{
    let rest = wide_labels(text, ls.drop_last(), comment_char, start);
    let index = ls.len() - 1;
    if k < rest.len() {
        lemma_labels_skip_subject(text, ls.drop_last(), comment_char, start, k);
        let i = choose|i: int|
            0 < i < ls.drop_last().len() && labelled(
                #[trigger] ls.drop_last()[i],
                i,
                comment_char,
                start,
            ) && rest[k] == wide_label(text, i, ls.drop_last()[i]);
        assert(ls.drop_last()[i] == ls[i]);
    } else {
        assert(ls.last() == ls[index]);
    }
}

/// Builds the [`over_limit`] label of `line` at `offset`.
pub fn over_limit_label(line: &Vec<char>, offset: usize) -> (l: Label)
    ensures
        l.deep_view() == over_limit(line@, offset),
{
    let count = line.len();
    let past = if count >= LIMIT {
        count - LIMIT
    } else {
        0
    };
    (LABEL.to_owned(), offset, past)
}

/// Builds the [`wide_label`] of the line at `index` of `commit_text`.
pub fn label_line_over_limit(commit_text: &String, index: usize, line: &Vec<char>) -> (l: Label)
    requires
        index < usize::MAX,
        byte_len(line@) <= usize::MAX,
    ensures
        l.deep_view() == wide_label(commit_text@, index as int, line@),
{
    let keep = if line.len() <= LIMIT {
        line.len()
    } else {
        LIMIT
    };
    let width = range_byte_len(line, 0, keep);
    proof {
        crate::text::lemma_byte_len_bounds(line@.subrange(0, keep as int));
        if line.len() <= LIMIT {
            assert(line@.subrange(0, keep as int) =~= line@);
        } else {
            assert(line@.subrange(0, keep as int) =~= line@.take(LIMIT as int));
        }
    }
    let offset = source_offset(commit_text, index + 1, width + 1);
    over_limit_label(line, offset)
}

/// Checks that no line of the body is wider than [`LIMIT`] characters.
pub fn lint(commit: &CommitMessage) -> (r: Option<Problem>)
    ensures
        r matches Some(p) ==> p.message() == commit@,
        verdict(r) == if has_wide_line(commit.body@) {
            Some(wide_problem(commit.text@, commit.comment_char, commit.scissors.deep_view()))
        } else {
            None
        },
{
    let body = split_lines(&chars_of(commit.body.as_str()));
    let mut wide = false;
    let mut b: usize = 0;
    while b < body.len()
        invariant
            b <= body.len(),
            body.deep_view() == lines(commit.body@),
            wide ==> has_wide_line(commit.body@),
            !wide ==> forall|j: int| 0 <= j < b ==> (#[trigger] lines(commit.body@)[j]).len() <= LIMIT,
        decreases body.len() - b,
    {
        proof {
            assert(body@[b as int].deep_view() =~= body@[b as int]@);
        }
        if body[b].len() > LIMIT {
            assert(lines(commit.body@)[b as int].len() > LIMIT);
            wide = true;
        }
        b = b + 1;
    }
    if !wide {
        return None;
    }
    let text = chars_of(commit.text.as_str());
    let _ = byte_length(commit.text.as_str());
    let all = split_lines(&text);
    let cut = match &commit.scissors {
        Some(s) => split_lines(&chars_of(s.as_str())).len(),
        None => 0,
    };
    let start = if cut <= all.len() {
        all.len() - cut
    } else {
        0
    };
    let ghost spec_start = scissors_start(commit.text@, commit.scissors.deep_view());
    assert(spec_start >= 0 ==> start == spec_start);
    assert(spec_start < 0 ==> start == 0);
    let mut labels: Vec<Label> = Vec::new();
    let mut i: usize = 0;
    while i < all.len()
        invariant
            i <= all.len(),
            text@ == commit.text@,
            all.deep_view() == lines(text@),
            byte_len(text@) <= usize::MAX,
            spec_start >= 0 ==> start == spec_start,
            spec_start < 0 ==> start == 0,
            labels.deep_view() == wide_labels(
                text@,
                lines(text@).take(i as int),
                commit.comment_char,
                spec_start,
            ),
        decreases all.len() - i,
    {
        let line = &all[i];
        proof {
            assert(all@[i as int].deep_view() =~= line@);
            lemma_lines_byte_len(text@, i as int);
            let t = lines(text@).take(i + 1);
            assert(t.drop_last() =~= lines(text@).take(i as int));
            assert(t.last() == line@);
        }
        let marked = match commit.comment_char {
            Some(c) => line.len() >= 2 && line[0] == c && line[1] == ' ',
            None => false,
        };
        proof {
            if let Some(c) = commit.comment_char {
                if line.len() >= 2 && line@[0] == c && line@[1] == ' ' {
                    assert(line@.take(2) =~= seq![c, ' ']);
                } else if line.len() >= 2 {
                    assert(line@.take(2)[0] == line@[0]);
                    assert(line@.take(2)[1] == line@[1]);
                }
            }
        }
        if !marked && i < start && i > 0 {
            if line.len() > LIMIT {
                let ghost before = labels.deep_view();
                let l = label_line_over_limit(&commit.text, i, line);
                labels.push(l);
                proof {
                    assert(labels.deep_view() =~= before.push(l.deep_view()));
                }
            }
        }
        i = i + 1;
    }
    proof {
        assert(lines(text@).take(all.len() as int) =~= lines(text@));
    }
    let p = Problem::new(
        ERROR.to_owned(),
        HELP_MESSAGE.to_owned(),
        Code::BodyWiderThan72Characters,
        commit,
        Some(labels),
        Some(URL.to_owned()),
    );
    proof {
        assert(p@.labels =~~= wide_problem(commit.text@, commit.comment_char, commit.scissors.deep_view()).labels);
    }
    Some(p)
}

} // verus!
