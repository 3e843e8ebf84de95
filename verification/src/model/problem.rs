//! Information about the breaking of a lint.
use vstd::prelude::*;

use crate::commit::{CommitMessage, CommitMessageView};
use crate::model::code::Code;
use crate::text::{byte_len, byte_length, chars_of, last_line_offset, last_line_start};

verus! {

/// A highlighted span of the commit message: label text, byte offset and
/// length.
pub type Label = (String, usize, usize);

/// The mathematical content of a [`Problem`].
pub struct ProblemView {
    /// Descriptive title of the error.
    pub error: Seq<char>,
    /// Advice on how to fix it.
    pub tip: Seq<char>,
    /// The error code.
    pub code: Code,
    /// The text of the commit message the problem was found in.
    pub commit_message: Seq<char>,
    /// Highlighted spans of the message.
    pub labels: Option<Seq<(Seq<char>, usize, usize)>>,
    /// A link to further reading.
    pub url: Option<Seq<char>>,
}

/// Information about the breaking of the lint
#[derive(Debug, Eq, PartialEq, Clone)]
pub struct Problem {
    error: String,
    tip: String,
    code: Code,
    commit: CommitMessage,
    labels: Option<Vec<Label>>,
    url: Option<String>,
}

impl View for Problem {
    type V = ProblemView;

    closed spec fn view(&self) -> ProblemView {
        ProblemView {
            error: self.error@,
            tip: self.tip@,
            code: self.code,
            commit_message: self.commit.text@,
            labels: self.labels.deep_view(),
            url: self.url.deep_view(),
        }
    }
}

impl Problem {
    /// The commit message the problem was found in.
    pub closed spec fn message(&self) -> CommitMessageView {
        self.commit@
    }

    /// Create a new problem
    pub fn new(
        error: String,
        tip: String,
        code: Code,
        commit_message: &CommitMessage,
        labels: Option<Vec<Label>>,
        url: Option<String>,
    ) -> (p: Problem)
        ensures
            p@ == (ProblemView {
                error: error@,
                tip: tip@,
                code: code,
                commit_message: commit_message.text@,
                labels: labels.deep_view(),
                url: url.deep_view(),
            }),
            p.message() == commit_message@,
    {
        Problem { error, tip, code, commit: commit_message.clone(), labels, url }
    }

    /// Get the code for this problem
    pub fn code(&self) -> (c: &Code)
        ensures
            *c == self@.code,
    {
        &self.code
    }

    /// Get the commit message for this problem
    pub fn commit_message(&self) -> (c: CommitMessage)
        ensures
            c@ == self.message(),
            c@.text == self@.commit_message,
    {
        self.commit.clone()
    }

    /// Get the descriptive title for this error
    pub fn error(&self) -> (e: &str)
        ensures
            e@ == self@.error,
    {
        self.error.as_str()
    }

    /// Get advice on how to fix the problem
    ///
    /// This should be a description of why this is a problem, and how to fix it
    pub fn tip(&self) -> (t: &str)
        ensures
            t@ == self@.tip,
    {
        self.tip.as_str()
    }

    /// The highlighted spans of the commit message: none when there is no
    /// commit message to highlight
    pub fn labels(&self) -> (l: Option<&Vec<Label>>)
        ensures
            match l {
                Some(v) => self@.commit_message.len() > 0 && self@.labels == Some(v.deep_view()),
                None => self@.commit_message.len() == 0 || self@.labels is None,
            },
    {
        if self.commit.text.as_str().is_empty() {
            return None;
        }
        match &self.labels {
            Some(v) => Some(v),
            None => None,
        }
    }

    /// The text the labels point into: none when the commit message is empty
    pub fn source_code(&self) -> (s: Option<&str>)
        ensures
            match s {
                Some(t) => self@.commit_message.len() > 0 && t@ == self@.commit_message,
                None => self@.commit_message.len() == 0,
            },
    {
        if self.commit.text.as_str().is_empty() {
            None
        } else {
            Some(self.commit.text.as_str())
        }
    }

    /// A link to further reading about the problem, if any
    pub fn url(&self) -> (u: &Option<String>)
        ensures
            u.deep_view() == self@.url,
    {
        &self.url
    }
}

/// The contents of a lint's verdict.
pub open spec fn verdict(r: Option<Problem>) -> Option<ProblemView> {
    match r {
        Some(p) => Some(p@),
        None => None,
    }
}

/// The problem a failed lint reports: its title, advice, code, link and
/// labels, about the given commit message text.
pub open spec fn problem_view(
    error: Seq<char>,
    tip: Seq<char>,
    code: Code,
    commit_message: Seq<char>,
    labels: Option<Seq<(Seq<char>, usize, usize)>>,
    url: Option<Seq<char>>,
) -> ProblemView {
    ProblemView { error, tip, code, commit_message, labels, url }
}

/// The label over the last line of `text` that is not blank: it starts at
/// [`last_line_offset`] and runs to the end of the text, less `tail` bytes.
pub open spec fn last_line_label(text: Seq<char>, label: Seq<char>, tail: nat) -> (
    Seq<char>,
    usize,
    usize,
) {
    let start = last_line_offset(text);
    (
        label,
        start as usize,
        if byte_len(text) >= start + tail {
            (byte_len(text) - start - tail) as usize
        } else {
            0usize
        },
    )
}

/// Builds the [`last_line_label`] of `text`.
pub fn label_last_line(text: &String, label: &str, tail: usize) -> (l: Label)
    ensures
        l.deep_view() == last_line_label(text@, label@, tail as nat),
{
    let chars = chars_of(text.as_str());
    let total = byte_length(text.as_str());
    let start = last_line_start(&chars);
    let length = if total >= start && total - start >= tail {
        total - start - tail
    } else {
        0
    };
    (label.to_owned(), start, length)
}

} // verus!
