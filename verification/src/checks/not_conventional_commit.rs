//! Lint: the subject does not follow the conventional commit style.
use vstd::prelude::*;

use crate::commit::CommitMessage;
use crate::model::code::Code;
use crate::model::problem::{problem_view, verdict, Label, Problem, ProblemView};
use crate::text::{
    ascii_alphanumeric, byte_len, chars_of, first_index, first_line, first_line_byte_len,
    index_of, is_alphanumeric, is_ascii_alphanumeric, lemma_first_index, char_alphanumeric,
};

verus! {

/// Canonical lint ID
pub const CONFIG: &'static str = "not-conventional-commit";

/// Advice on how to correct the problem
pub const HELP_MESSAGE: &'static str = "It's important to follow the conventional commit style when creating your commit message. By \
using this style we can automatically calculate the version of software using deployment \
pipelines, and also generate changelogs and other useful information without human interaction.

You can fix it by following style

<type>[optional scope]: <description>

[optional body]

[optional footer(s)]";

/// Description of the problem
pub const ERROR: &'static str = "Your commit message isn't in conventional style";

/// Text of the label on the subject line
pub const LABEL: &'static str = "Not conventional";

/// Where to read about the style
pub const URL: &'static str = "https://www.conventionalcommits.org/";

/// Configuration for conventional commit linting
pub struct ConventionalCommitConfig {
    /// Allowed commit types (None means any alphanumeric type is allowed)
    pub allowed_types: Option<Vec<String>>,
    /// Allowed commit scopes (None means any word character is allowed)
    pub allowed_scopes: Option<Vec<String>>,
}

impl ConventionalCommitConfig {
    /// Create a new configuration with custom allowed types and scopes
    pub fn new(allowed_types: Option<Vec<String>>, allowed_scopes: Option<Vec<String>>) -> (c: Self)
        ensures
            c.allowed_types.deep_view() == allowed_types.deep_view(),
            c.allowed_scopes.deep_view() == allowed_scopes.deep_view(),
    {
        Self { allowed_types, allowed_scopes }
    }
}

impl Default for ConventionalCommitConfig {
    /// The configuration that allows any type and any scope.
    fn default() -> (c: Self)
        ensures
            c.allowed_types.deep_view() == None::<Seq<Seq<char>>>,
            c.allowed_scopes.deep_view() == None::<Seq<Seq<char>>>,
    {
        Self { allowed_types: None, allowed_scopes: None }
    }
}

/// The parts of a conventional subject: type, scope, whether it marks a
/// breaking change, and description.
pub type Conventional = (Seq<char>, Option<Seq<char>>, bool, Seq<char>);

/// A character allowed in a scope.
pub open spec fn is_scope_char(c: char) -> bool {
    char_alphanumeric(c) || c == '-'
}

/// A valid commit type: non-empty, ASCII letters and digits.
pub open spec fn valid_type(t: Seq<char>) -> bool {
    t.len() > 0 && forall|i: int| 0 <= i < t.len() ==> ascii_alphanumeric(#[trigger] t[i])
}

/// A valid scope: non-empty, alphanumeric characters and hyphens.
pub open spec fn valid_scope(s: Seq<char>) -> bool {
    s.len() > 0 && forall|i: int| 0 <= i < s.len() ==> is_scope_char(#[trigger] s[i])
}

/// The type-and-scope part before the colon, without a trailing `'!'`.
pub open spec fn type_scope_part(head: Seq<char>) -> Seq<char> {
    if head.len() > 0 && head.last() == '!' {
        head.drop_last()
    } else {
        head
    }
}

/// Parses `<type>[(<scope>)][!]: <description>`.
///
/// The colon is the first one in the subject and must be followed by a
/// space.  When the part before it holds both a `'('` and a `')'`, the first
/// `'('` must come after the type and the first `')'` must end the part.
pub open spec fn parse_conventional(subject: Seq<char>) -> Option<Conventional> {
    let colon = first_index(subject, ':') as int;
    if colon + 1 >= subject.len() || subject[colon + 1] != ' ' {
        None
    } else {
        let head = subject.take(colon);
        let breaking = head.len() > 0 && head.last() == '!';
        let part = type_scope_part(head);
        let open = first_index(part, '(') as int;
        let close = first_index(part, ')') as int;
        let has_parens = open < part.len() && close < part.len();
        if has_parens && !(open > 0 && close > open && close == part.len() - 1) {
            None
        } else {
            let commit_type = if has_parens {
                part.take(open)
            } else {
                part
            };
            if !valid_type(commit_type) {
                None
            } else if has_parens && !valid_scope(part.subrange(open + 1, close)) {
                None
            } else {
                Some(
                    (
                        commit_type,
                        if has_parens {
                            Some(part.subrange(open + 1, close))
                        } else {
                            None
                        },
                        breaking,
                        subject.skip(colon + 2),
                    ),
                )
            }
        }
    }
}

/// `list` allows `item`: it is absent, or holds it.
pub open spec fn allows(list: Option<Seq<Seq<char>>>, item: Seq<char>) -> bool {
    match list {
        None => true,
        Some(items) => items.contains(item),
    }
}

/// The subject breaks the configured conventional style.
pub open spec fn subject_has_problem(
    subject: Seq<char>,
    types: Option<Seq<Seq<char>>>,
    scopes: Option<Seq<Seq<char>>>,
) -> bool {
    match parse_conventional(subject) {
        None => true,
        Some(parsed) => !allows(types, parsed.0) || (parsed.1 matches Some(scope) && !allows(
            scopes,
            scope,
        )),
    }
}

/// What the lint reports about a message with text `text`.
pub open spec fn conventional_problem(text: Seq<char>) -> ProblemView {
    problem_view(
        ERROR@,
        HELP_MESSAGE@,
        Code::NotConventionalCommit,
        text,
        Some(seq![(LABEL@, 0usize, byte_len(first_line(text)) as usize)]),
        Some(URL@),
    )
}

/// Whether every character of `s[from..to]` satisfies the scope rule, or
/// (when `ascii`) is an ASCII letter or digit.
fn all_valid(s: &Vec<char>, from: usize, to: usize, ascii: bool) -> (r: bool)
    requires
        from <= to <= s.len(),
    ensures
        ascii ==> (r == forall|i: int|
            from <= i < to ==> ascii_alphanumeric(#[trigger] s@[i])),
        !ascii ==> (r == forall|i: int| from <= i < to ==> is_scope_char(#[trigger] s@[i])),
{
    let mut i = from;
    while i < to
        invariant
            from <= i <= to <= s.len(),
            ascii ==> forall|j: int| from <= j < i ==> ascii_alphanumeric(#[trigger] s@[j]),
            !ascii ==> forall|j: int| from <= j < i ==> is_scope_char(#[trigger] s@[j]),
        decreases to - i,
    {
        let c = s[i];
        let ok = if ascii {
            is_ascii_alphanumeric(c)
        } else {
            is_alphanumeric(c) || c == '-'
        };
        if !ok {
            return false;
        }
        i = i + 1;
    }
    true
}

/// Parse a conventional commit subject line
///
/// Returns (type, scope, `breaking_change`, description) if successful
pub fn parse_conventional_commit(subject: &str) -> (r: Option<(String, Option<String>, bool, String)>)
    ensures
        r.deep_view() == parse_conventional(subject@),
{
    let s = chars_of(subject);
    let colon = index_of(&s, ':');
    proof {
        lemma_first_index(s@, ':');
    }
    if colon >= s.len() || colon + 1 >= s.len() || s[colon + 1] != ' ' {
        return None;
    }
    let ghost head = s@.take(colon as int);
    let breaking = colon > 0 && s[colon - 1] == '!';
    let end = if breaking {
        colon - 1
    } else {
        colon
    };
    let ghost part = type_scope_part(head);
    assert(part =~= s@.take(end as int));
    let mut part_chars: Vec<char> = Vec::new();
    let mut i: usize = 0;
    while i < end
        invariant
            i <= end <= s.len(),
            part_chars@ == s@.take(i as int),
        decreases end - i,
    {
        part_chars.push(s[i]);
        proof {
            assert(s@.take(i + 1) =~= s@.take(i as int).push(s@[i as int]));
        }
        i = i + 1;
    }
    assert(part_chars@ =~= part);
    let open = index_of(&part_chars, '(');
    let close = index_of(&part_chars, ')');
    let has_parens = open < end && close < end;
    if has_parens && !(open > 0 && close > open && close == end - 1) {
        return None;
    }
    let type_end = if has_parens {
        open
    } else {
        end
    };
    assert(s@.take(type_end as int) =~= if has_parens {
        part.take(open as int)
    } else {
        part
    });
    if type_end == 0 || !all_valid(&s, 0, type_end, true) {
        proof {
            if type_end > 0 {
                let t = s@.take(type_end as int);
                if valid_type(t) {
                    assert forall|x: int| 0 <= x < type_end implies ascii_alphanumeric(
                        #[trigger] s@[x],
                    ) by {
                        assert(t[x] == s@[x]);
                    }
                }
            }
        }
        return None;
    }
    proof {
        let t = s@.take(type_end as int);
        assert forall|x: int| 0 <= x < t.len() implies ascii_alphanumeric(#[trigger] t[x]) by {
            assert(t[x] == s@[x]);
        }
    }
    if has_parens && (close == open + 1 || !all_valid(&s, open + 1, close, false)) {
        proof {
            let sc = part.subrange(open + 1, close as int);
            if close > open + 1 && valid_scope(sc) {
                assert forall|x: int| open + 1 <= x < close implies is_scope_char(#[trigger] s@[x]) by {
                    assert(sc[x - open - 1] == s@[x]);
                }
            }
        }
        return None;
    }
    proof {
        if has_parens {
            let sc = part.subrange(open + 1, close as int);
            assert forall|x: int| 0 <= x < sc.len() implies is_scope_char(#[trigger] sc[x]) by {
                assert(sc[x] == s@[x + open + 1]);
            }
        }
    }
    let commit_type = subject.substring_char(0, type_end).to_owned();
    let scope = if has_parens {
        Some(subject.substring_char(open + 1, close).to_owned())
    } else {
        None
    };
    let description = subject.substring_char(colon + 2, s.len()).to_owned();
    proof {
        assert(s@.subrange(0, type_end as int) =~= s@.take(type_end as int));
        assert(s@.subrange(colon + 2, s.len() as int) =~= s@.skip(colon + 2));
        if has_parens {
            assert(s@.subrange(open + 1, close as int) =~= part.subrange(open + 1, close as int));
        }
    }
    Some((commit_type, scope, breaking, description))
}

/// Whether `list` holds `item`.
fn list_contains(list: &Vec<String>, item: &String) -> (r: bool)
    ensures
        r == list.deep_view().contains(item@),
{
    let mut i: usize = 0;
    while i < list.len()
        invariant
            i <= list.len(),
            forall|j: int| 0 <= j < i ==> list.deep_view()[j] != item@,
        decreases list.len() - i,
    {
        if list[i] == *item {
            assert(list.deep_view()[i as int] == item@);
            return true;
        }
        i = i + 1;
    }
    false
}

/// Whether `list` allows `item`.
fn list_allows(list: &Option<Vec<String>>, item: &String) -> (r: bool)
    ensures
        r == allows(list.deep_view(), item@),
{
    match list {
        None => true,
        Some(items) => list_contains(items, item),
    }
}

/// Whether the subject breaks the configured conventional style: it does
/// not parse, its type is not allowed, or it has a scope that is not
/// allowed (a subject without a scope passes any allowed scopes).
pub fn has_problem(commit_message: &CommitMessage, config: &ConventionalCommitConfig) -> (r: bool)
    ensures
        r == subject_has_problem(
            commit_message.subject@,
            config.allowed_types.deep_view(),
            config.allowed_scopes.deep_view(),
        ),
{
    match parse_conventional_commit(commit_message.subject.as_str()) {
        None => true,
        Some((commit_type, scope, _, _)) => {
            if !list_allows(&config.allowed_types, &commit_type) {
                return true;
            }
            match scope {
                Some(scope) => !list_allows(&config.allowed_scopes, &scope),
                None => false,
            }
        },
    }
}

/// Checks the subject against the conventional commit style, allowing only
/// the configured types and scopes.
pub fn lint_with_config(commit_message: &CommitMessage, config: &ConventionalCommitConfig) -> (r:
    Option<Problem>)
    ensures
        r matches Some(p) ==> p.message() == commit_message@,
        verdict(r) == if subject_has_problem(
            commit_message.subject@,
            config.allowed_types.deep_view(),
            config.allowed_scopes.deep_view(),
        ) {
            Some(conventional_problem(commit_message.text@))
        } else {
            None
        },
{
    if !has_problem(commit_message, config) {
        return None;
    }
    let first_line_length = first_line_byte_len(&commit_message.text);
    let mut labels: Vec<Label> = Vec::new();
    labels.push((LABEL.to_owned(), 0, first_line_length));
    let p = Problem::new(
        ERROR.to_owned(),
        HELP_MESSAGE.to_owned(),
        Code::NotConventionalCommit,
        commit_message,
        Some(labels),
        Some(URL.to_owned()),
    );
    proof {
        assert(p@.labels =~~= conventional_problem(commit_message.text@).labels);
    }
    Some(p)
}

/// Checks if the commit message follows the conventional commit format
pub fn lint(commit_message: &CommitMessage) -> (r: Option<Problem>)
    ensures
        r matches Some(p) ==> p.message() == commit_message@,
        verdict(r) == if subject_has_problem(commit_message.subject@, None, None) {
            Some(conventional_problem(commit_message.text@))
        } else {
            None
        },
{
    lint_with_config(commit_message, &ConventionalCommitConfig::default())
}

/// The subject `<type>[(<scope>)][!]: <description>` spelled out.
pub open spec fn conventional_subject(
    commit_type: Seq<char>,
    scope: Option<Seq<char>>,
    breaking: bool,
    description: Seq<char>,
) -> Seq<char> {
    commit_type + match scope {
        Some(s) => seq!['('] + s + seq![')'],
        None => Seq::<char>::empty(),
    } + if breaking {
        seq!['!']
    } else {
        Seq::<char>::empty()
    } + seq![':', ' '] + description
}

/// A subject spelled in the conventional style parses back into its parts:
/// any valid type, an optional valid scope, an optional `'!'` and any
/// description.
pub proof fn lemma_conventional_round_trip(
    commit_type: Seq<char>,
    scope: Option<Seq<char>>,
    breaking: bool,
    description: Seq<char>,
)
    requires
        valid_type(commit_type),
        scope matches Some(s) ==> valid_scope(s),
    ensures
        parse_conventional(conventional_subject(commit_type, scope, breaking, description)) == Some(
            (commit_type, scope, breaking, description),
        ),
{
    let t = commit_type;
    if let Some(s) = scope {
        assert forall|i: int| 0 <= i < s.len() implies #[trigger] s[i] != ':' && s[i] != ')' by {
            assert(is_scope_char(s[i]));
        }
    }
    let paren = match scope {
        Some(s) => seq!['('] + s + seq![')'],
        None => Seq::<char>::empty(),
    };
    let bang = if breaking {
        seq!['!']
    } else {
        Seq::<char>::empty()
    };
    let part = t + paren;
    let head = part + bang;
    let subject = conventional_subject(commit_type, scope, breaking, description);
    assert(subject =~= head + seq![':', ' '] + description);
    let h = head.len() as int;
    assert forall|j: int| 0 <= j < h implies #[trigger] subject[j] != ':' by {
        assert(subject[j] == head[j]);
        if j < t.len() {
            assert(ascii_alphanumeric(t[j]));
        } else if j < part.len() {
            if let Some(s) = scope {
                if j > t.len() && j < t.len() + 1 + s.len() {
                    assert(part[j] == s[j - t.len() - 1]);
                }
            }
        }
    }
    crate::text::lemma_first_index_unique(subject, ':', h);
    assert(subject.take(h) =~= head);
    assert(subject[h + 1] == ' ');
    assert(subject.skip(h + 2) =~= description);
    assert((head.len() > 0 && head.last() == '!') == breaking) by {
        if !breaking {
            assert(head =~= part);
            if scope is None {
                assert(part.last() == t.last());
                assert(ascii_alphanumeric(t[t.len() - 1]));
            }
        }
    }
    assert(type_scope_part(head) =~= part);
    assert forall|j: int| 0 <= j < t.len() implies #[trigger] part[j] != '(' && part[j] != ')' by {
        assert(part[j] == t[j]);
        assert(ascii_alphanumeric(t[j]));
    }
    match scope {
        Some(s) => {
            let open = t.len() as int;
            let close = (t.len() + 1 + s.len()) as int;
            crate::text::lemma_first_index_unique(part, '(', open);
            assert forall|j: int| 0 <= j < close implies #[trigger] part[j] != ')' by {
                if j > open {
                    assert(part[j] == s[j - open - 1]);
                }
            }
            crate::text::lemma_first_index_unique(part, ')', close);
            assert(part.take(open) =~= t);
            assert(part.subrange(open + 1, close) =~= s);
        },
        None => {
            assert(part =~= t);
            crate::text::lemma_first_index_unique(part, '(', part.len() as int);
        },
    }
}

/// What a parse gives back spells the subject: the type is non-empty and
/// made only of ASCII letters and digits, a scope is non-empty, and the
/// subject is exactly `<type>[(<scope>)][!]: <description>` of the parts.
/// A subject whose part before the first colon holds any other character
/// (a space, say) does not parse.
pub proof fn lemma_parse_spells_subject(subject: Seq<char>)
    ensures
        parse_conventional(subject) matches Some(parts) ==> {
            &&& parts.0.len() > 0
            &&& forall|i: int|
                0 <= i < parts.0.len() ==> ('0' <= #[trigger] parts.0[i] && parts.0[i] <= '9')
                    || ('A' <= parts.0[i] && parts.0[i] <= 'Z') || ('a' <= parts.0[i]
                    && parts.0[i] <= 'z')
            &&& parts.1 matches Some(scope) ==> scope.len() > 0
            &&& subject == conventional_subject(parts.0, parts.1, parts.2, parts.3)
        },
{
    if let Some(parts) = parse_conventional(subject) {
        let colon = first_index(subject, ':') as int;
        lemma_first_index(subject, ':');
        let head = subject.take(colon);
        let breaking = head.len() > 0 && head.last() == '!';
        let part = type_scope_part(head);
        let open = first_index(part, '(') as int;
        let close = first_index(part, ')') as int;
        lemma_first_index(part, '(');
        lemma_first_index(part, ')');
        let has_parens = open < part.len() && close < part.len();
        let bang = if breaking {
            seq!['!']
        } else {
            Seq::<char>::empty()
        };
        assert(head =~= part + bang);
        assert(subject =~= head + seq![':', ' '] + subject.skip(colon + 2));
        if has_parens {
            let t = part.take(open);
            let sc = part.subrange(open + 1, close);
            assert(part =~= t + seq!['('] + sc + seq![')']);
        } else {
            assert(part =~= part + Seq::<char>::empty());
        }
    }
}

} // verus!
