//! Lint: the subject does not follow the emoji log style.
use vstd::prelude::*;

use crate::commit::CommitMessage;
use crate::model::code::Code;
use crate::model::problem::{problem_view, verdict, Label, Problem, ProblemView};
use crate::text::{byte_len, chars_of, first_line, first_line_byte_len, has_prefix, starts_with};

verus! {

/// Canonical lint ID
pub const CONFIG: &'static str = "not-emoji-log";

/// Advice on how to correct the problem
pub const HELP_MESSAGE: &'static str = "It's important to follow the emoji log style when creating your commit message. By using this \
style we can automatically generate changelogs.

You can fix it using one of the prefixes:


\u{1f4e6} NEW:
\u{1f44c} IMPROVE:
\u{1f41b} FIX:
\u{1f4d6} DOC:
\u{1f680} RELEASE:
\u{1f916} TEST:
\u{203c}\u{fe0f} BREAKING:";

/// Description of the problem
pub const ERROR: &'static str = "Your commit message isn't in emoji log style";

/// Text of the label
pub const LABEL: &'static str = "Not emoji log";

/// Where to read about the emoji log style
pub const URL: &'static str = "https://github.com/ahmadawais/Emoji-Log";

/// The prefixes an emoji log subject starts with.
#[derive(Clone, Copy, Eq, PartialEq, Debug, Structural)]
pub enum Prefix {
    Fix,
    New,
    Improve,
    Doc,
    Release,
    Test,
    Breaking,
}

/// The text a subject in the style of `p` starts with.
pub open spec fn prefix_text(p: Prefix) -> Seq<char> {
    match p {
        Prefix::Fix => "\u{1f41b} FIX: "@,
        Prefix::New => "\u{1f4e6} NEW: "@,
        Prefix::Improve => "\u{1f44c} IMPROVE: "@,
        Prefix::Doc => "\u{1f4d6} DOC: "@,
        Prefix::Release => "\u{1f680} RELEASE: "@,
        Prefix::Test => "\u{1f916} TEST: "@,
        Prefix::Breaking => "\u{203c}\u{fe0f} BREAKING: "@,
    }
}

/// Every prefix, in declaration order.
pub open spec fn all_prefixes() -> Seq<Prefix> {
    seq![
        Prefix::Fix,
        Prefix::New,
        Prefix::Improve,
        Prefix::Doc,
        Prefix::Release,
        Prefix::Test,
        Prefix::Breaking,
    ]
}

impl Prefix {
    /// Every prefix, in declaration order.
    pub fn iter() -> (v: Vec<Prefix>)
        ensures
            v@ == all_prefixes(),
    {
        let v = vec![
            Prefix::Fix,
            Prefix::New,
            Prefix::Improve,
            Prefix::Doc,
            Prefix::Release,
            Prefix::Test,
            Prefix::Breaking,
        ];
        assert(v@ =~= all_prefixes());
        v
    }

    /// The text a subject in this style starts with.
    pub fn to_string(self) -> (s: String)
        ensures
            s@ == prefix_text(self),
    {
        match self {
            Prefix::Fix => "\u{1f41b} FIX: ".to_owned(),
            Prefix::New => "\u{1f4e6} NEW: ".to_owned(),
            Prefix::Improve => "\u{1f44c} IMPROVE: ".to_owned(),
            Prefix::Doc => "\u{1f4d6} DOC: ".to_owned(),
            Prefix::Release => "\u{1f680} RELEASE: ".to_owned(),
            Prefix::Test => "\u{1f916} TEST: ".to_owned(),
            Prefix::Breaking => "\u{203c}\u{fe0f} BREAKING: ".to_owned(),
        }
    }
}

/// The subject starts with one of the prefixes.
pub open spec fn is_emoji_log(subject: Seq<char>) -> bool {
    exists|p: Prefix| starts_with(subject, #[trigger] prefix_text(p))
}

/// What the lint reports about a message with text `text`: a label over
/// its first line.
pub open spec fn emoji_problem(text: Seq<char>) -> ProblemView {
    problem_view(
        ERROR@,
        HELP_MESSAGE@,
        Code::NotEmojiLog,
        text,
        Some(seq![(LABEL@, 0usize, byte_len(first_line(text)) as usize)]),
        Some(URL@),
    )
}

/// Checks that the subject starts with one of the emoji log prefixes.
pub fn lint(commit_message: &CommitMessage) -> (r: Option<Problem>)
    ensures
        r matches Some(p) ==> p.message() == commit_message@,
        verdict(r) == if is_emoji_log(commit_message.subject@) {
            None
        } else {
            Some(emoji_problem(commit_message.text@))
        },
{
    let subject = chars_of(commit_message.subject.as_str());
    let prefixes = Prefix::iter();
    let mut found = false;
    let mut i: usize = 0;
    while i < prefixes.len()
        invariant
            i <= prefixes.len(),
            prefixes@ == all_prefixes(),
            subject@ == commit_message.subject@,
            found ==> is_emoji_log(subject@),
            !found ==> forall|j: int|
                0 <= j < i ==> !starts_with(subject@, #[trigger] prefix_text(prefixes@[j])),
        decreases prefixes.len() - i,
    {
        let text = chars_of(prefixes[i].to_string().as_str());
        if has_prefix(&subject, &text) {
            found = true;
        }
        i = i + 1;
    }
    if found {
        return None;
    }
    proof {
        assert forall|p: Prefix| !starts_with(subject@, #[trigger] prefix_text(p)) by {
            match p {
                Prefix::Fix => assert(prefix_text(prefixes@[0]) == prefix_text(p)),
                Prefix::New => assert(prefix_text(prefixes@[1]) == prefix_text(p)),
                Prefix::Improve => assert(prefix_text(prefixes@[2]) == prefix_text(p)),
                Prefix::Doc => assert(prefix_text(prefixes@[3]) == prefix_text(p)),
                Prefix::Release => assert(prefix_text(prefixes@[4]) == prefix_text(p)),
                Prefix::Test => assert(prefix_text(prefixes@[5]) == prefix_text(p)),
                Prefix::Breaking => assert(prefix_text(prefixes@[6]) == prefix_text(p)),
            }
        }
    }
    let mut labels: Vec<Label> = Vec::new();
    labels.push((LABEL.to_owned(), 0, first_line_byte_len(&commit_message.text)));
    let p = Problem::new(
        ERROR.to_owned(),
        HELP_MESSAGE.to_owned(),
        Code::NotEmojiLog,
        commit_message,
        Some(labels),
        Some(URL.to_owned()),
    );
    proof {
        assert(p@.labels =~~= emoji_problem(commit_message.text@).labels);
    }
    Some(p)
}

/// [`Prefix::iter`] lists every prefix.
pub proof fn lemma_prefix_listed(p: Prefix)
    ensures
        all_prefixes().contains(p),
{
    match p {
        Prefix::Fix => assert(all_prefixes()[0] == p),
        Prefix::New => assert(all_prefixes()[1] == p),
        Prefix::Improve => assert(all_prefixes()[2] == p),
        Prefix::Doc => assert(all_prefixes()[3] == p),
        Prefix::Release => assert(all_prefixes()[4] == p),
        Prefix::Test => assert(all_prefixes()[5] == p),
        Prefix::Breaking => assert(all_prefixes()[6] == p),
    }
}

/// Any subject that starts with one of the prefixes is in emoji log style.
pub proof fn lemma_prefixed_subject_passes(p: Prefix, rest: Seq<char>)
    ensures
        is_emoji_log(prefix_text(p) + rest),
{
    let s = prefix_text(p) + rest;
    assert(s.take(prefix_text(p).len() as int) =~= prefix_text(p));
    assert(starts_with(s, prefix_text(p)));
}

/// A subject is in emoji log style exactly when its first characters are
/// one of the prefixes; a prefix later in the subject does not count.
pub proof fn lemma_emoji_log_is_a_prefix(subject: Seq<char>)
    ensures
        is_emoji_log(subject) <==> exists|p: Prefix|
            prefix_text(p).len() <= subject.len() && forall|i: int|
                0 <= i < prefix_text(p).len() ==> subject[i] == #[trigger] prefix_text(p)[i],
{
    if is_emoji_log(subject) {
        let p = choose|p: Prefix| starts_with(subject, #[trigger] prefix_text(p));
        assert forall|i: int| 0 <= i < prefix_text(p).len() implies subject[i]
            == #[trigger] prefix_text(p)[i] by {
            assert(subject.take(prefix_text(p).len() as int)[i] == subject[i]);
        }
    }
    if exists|p: Prefix|
        prefix_text(p).len() <= subject.len() && forall|i: int|
            0 <= i < prefix_text(p).len() ==> subject[i] == #[trigger] prefix_text(p)[i] {
        let p = choose|p: Prefix|
            prefix_text(p).len() <= subject.len() && forall|i: int|
                0 <= i < prefix_text(p).len() ==> subject[i] == #[trigger] prefix_text(p)[i];
        assert(subject.take(prefix_text(p).len() as int) =~= prefix_text(p));
        assert(starts_with(subject, prefix_text(p)));
    }
}

} // verus!
