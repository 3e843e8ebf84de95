//! The parts of a commit message that the lints read.
//!
//! Splitting a commit message into subject, body, trailers, comments and the
//! scissors section is the work of the `mit_commit` crate.  The library calls
//! it once, in [`CommitMessage::parse`], and keeps the parts as plain strings.
use vstd::prelude::*;


verus! {

/// The text `mit_commit` renders a parsed message back to
/// (`String::from(&mit_commit::CommitMessage)`).
pub uninterp spec fn parsed_text(source: Seq<char>) -> Seq<char>;

/// The subject `mit_commit` finds in a message (`CommitMessage::get_subject`).
pub uninterp spec fn parsed_subject(source: Seq<char>) -> Seq<char>;

/// The body `mit_commit` finds in a message (`CommitMessage::get_body`,
/// rendered with `Display`).
pub uninterp spec fn parsed_body(source: Seq<char>) -> Seq<char>;

/// The trailers `mit_commit` finds in a message, as `(key, value)` pairs
/// (`CommitMessage::get_trailers`).
pub uninterp spec fn parsed_trailers(source: Seq<char>) -> Seq<(Seq<char>, Seq<char>)>;

/// The comment character `mit_commit` settles on for a message
/// (`CommitMessage::get_comment_char`).
pub uninterp spec fn parsed_comment_char(source: Seq<char>) -> Option<char>;

/// The scissors section `mit_commit` finds in a message
/// (`CommitMessage::get_scissors`).
pub uninterp spec fn parsed_scissors(source: Seq<char>) -> Option<Seq<char>>;

/// Whether a regular expression finds a match in the non-comment lines of a
/// message (`CommitMessage::matches_pattern` with `regex::Regex::new(pattern)`),
/// or `None` when `pattern` is not a valid regular expression.
pub uninterp spec fn pattern_found(source: Seq<char>, pattern: Seq<char>) -> Option<bool>;

/// `text` ends with a line break followed by `section`.
pub open spec fn ends_with_section(text: Seq<char>, section: Seq<char>) -> bool {
    &&& text.len() > section.len()
    &&& text[text.len() - section.len() - 1] == '\n'
    &&& text.skip(text.len() - section.len()) == section
}

/// Calls `String::from(&mit_commit::CommitMessage::from(source))`.
///
/// Claims: the result is a function of `source` alone, and when the message
/// has a scissors section the rendered text ends with a line break followed
/// by that section (`mit_commit` renders it as `"{body}\n{scissors}"`).
#[verifier::external_body]
fn render_text(source: &str) -> (r: String)
    ensures
        r@ == parsed_text(source@),
        parsed_scissors(source@) matches Some(sc) ==> ends_with_section(r@, sc),
{
    String::from(mit_commit::CommitMessage::from(source))
}

/// Calls `mit_commit::CommitMessage::get_subject` on the parsed `source`.
///
/// Claims only that the result is a function of `source`.
#[verifier::external_body]
fn subject_of(source: &str) -> (r: String)
    ensures
        r@ == parsed_subject(source@),
{
    String::from(mit_commit::CommitMessage::from(source).get_subject())
}

/// Calls `mit_commit::CommitMessage::get_body` on the parsed `source` and
/// renders the bodies with their `Display`.
///
/// Claims only that the result is a function of `source`.
#[verifier::external_body]
fn body_of(source: &str) -> (r: String)
    ensures
        r@ == parsed_body(source@),
{
    mit_commit::CommitMessage::from(source).get_body().to_string()
}

/// Calls `mit_commit::CommitMessage::get_trailers` on the parsed `source`,
/// keeping each trailer's `get_key` and `get_value`.
///
/// Claims only that the result is a function of `source`.
#[verifier::external_body]
fn trailers_of(source: &str) -> (r: Vec<(String, String)>)
    ensures
        r.deep_view() == parsed_trailers(source@),
{
    let mut pairs = Vec::new();
    for trailer in mit_commit::CommitMessage::from(source).get_trailers().iter() {
        pairs.push((trailer.get_key(), trailer.get_value()));
    }
    pairs
}

/// Calls `mit_commit::CommitMessage::get_comment_char` on the parsed `source`.
///
/// Claims only that the result is a function of `source`.
#[verifier::external_body]
fn comment_char_of(source: &str) -> (r: Option<char>)
    ensures
        r == parsed_comment_char(source@),
{
    mit_commit::CommitMessage::from(source).get_comment_char()
}

/// Calls `mit_commit::CommitMessage::get_scissors` on the parsed `source`.
///
/// Claims only that the result is a function of `source`.
#[verifier::external_body]
fn scissors_of(source: &str) -> (r: Option<String>)
    ensures
        r.deep_view() == parsed_scissors(source@),
{
    mit_commit::CommitMessage::from(source).get_scissors().map(String::from)
}

/// Compiles `pattern` with `regex::Regex::new` and, when that succeeds, asks
/// `mit_commit::CommitMessage::matches_pattern` whether it matches the
/// parsed `source`.
///
/// Claims only that the result is a function of `source` and `pattern`.
#[verifier::external_body]
pub(crate) fn find_pattern(source: &str, pattern: &str) -> (r: Option<bool>)
    ensures
        r == pattern_found(source@, pattern@),
{
    match regex::Regex::new(pattern) {
        Ok(re) => Some(mit_commit::CommitMessage::from(source).matches_pattern(&re)),
        Err(_) => None,
    }
}

/// The mathematical content of a [`CommitMessage`].
pub struct CommitMessageView {
    /// The text the message was parsed from.
    pub source: Seq<char>,
    /// The message rendered back to text.
    pub text: Seq<char>,
    /// The subject.
    pub subject: Seq<char>,
    /// The body.
    pub body: Seq<char>,
    /// The trailers, as `(key, value)` pairs in message order.
    pub trailers: Seq<(Seq<char>, Seq<char>)>,
    /// The character that starts a comment line, when there are comments.
    pub comment_char: Option<char>,
    /// The scissors section, when there is one.
    pub scissors: Option<Seq<char>>,
}

/// A commit message, split into the parts the lints read.
#[derive(Debug, PartialEq, Eq)]
pub struct CommitMessage {
    /// The text the message was parsed from.
    pub source: String,
    /// The message rendered back to text.
    pub text: String,
    /// The subject.
    pub subject: String,
    /// The body.
    pub body: String,
    /// The trailers, as `(key, value)` pairs in message order.
    pub trailers: Vec<(String, String)>,
    /// The character that starts a comment line, when there are comments.
    pub comment_char: Option<char>,
    /// The scissors section, when there is one.
    pub scissors: Option<String>,
}

impl View for CommitMessage {
    type V = CommitMessageView;

    open spec fn view(&self) -> CommitMessageView {
        CommitMessageView {
            source: self.source@,
            text: self.text@,
            subject: self.subject@,
            body: self.body@,
            trailers: self.trailers.deep_view(),
            comment_char: self.comment_char,
            scissors: self.scissors.deep_view(),
        }
    }
}

impl Clone for CommitMessage {
    /// A copy with the same parts.
    fn clone(&self) -> (c: Self)
        ensures
            c@ == self@,
    {
        let mut trailers: Vec<(String, String)> = Vec::new();
        let mut i: usize = 0;
        while i < self.trailers.len()
            invariant
                i <= self.trailers.len(),
                trailers.deep_view() == self.trailers.deep_view().take(i as int),
            decreases self.trailers.len() - i,
        {
            let pair = (self.trailers[i].0.clone(), self.trailers[i].1.clone());
            let ghost before = trailers.deep_view();
            trailers.push(pair);
            proof {
                assert(trailers.deep_view() =~= before.push(pair.deep_view()));
                assert(self.trailers.deep_view().take(i + 1) =~= before.push(
                    self.trailers.deep_view()[i as int],
                ));
            }
            i = i + 1;
        }
        assert(self.trailers.deep_view().take(self.trailers.len() as int)
            =~= self.trailers.deep_view());
        let scissors = match &self.scissors {
            Some(sc) => Some(sc.clone()),
            None => None,
        };
        CommitMessage {
            source: self.source.clone(),
            text: self.text.clone(),
            subject: self.subject.clone(),
            body: self.body.clone(),
            trailers,
            comment_char: self.comment_char,
            scissors,
        }
    }
}

impl CommitMessage {
    /// The parts are the ones `mit_commit` finds in `source`.
    pub open spec fn parsed_from(&self, source: Seq<char>) -> bool {
        &&& self.source@ == source
        &&& self.text@ == parsed_text(source)
        &&& self.subject@ == parsed_subject(source)
        &&& self.body@ == parsed_body(source)
        &&& self.trailers.deep_view() == parsed_trailers(source)
        &&& self.comment_char == parsed_comment_char(source)
        &&& self.scissors.deep_view() == parsed_scissors(source)
    }

    /// The rendered text ends with the scissors section, as `mit_commit`
    /// renders it.
    pub open spec fn well_formed(&self) -> bool {
        self.scissors.deep_view() matches Some(sc) ==> ends_with_section(self.text@, sc)
    }

    /// Parses `source` into its parts.
    pub fn parse(source: &str) -> (c: Self)
        ensures
            c.parsed_from(source@),
            c.well_formed(),
    {
        CommitMessage {
            source: source.to_owned(),
            text: render_text(source),
            subject: subject_of(source),
            body: body_of(source),
            trailers: trailers_of(source),
            comment_char: comment_char_of(source),
            scissors: scissors_of(source),
        }
    }
}

} // verus!
