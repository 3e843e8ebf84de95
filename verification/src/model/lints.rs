//! A collection of lints.
use vstd::prelude::*;

use crate::model::lint::{config_key_of, lint_name, lint_named, Lint, LintError};
use crate::model::toml_output::{toml_document, toml_table};
use crate::text::{chars_lt, lemma_chars_lt_at, lemma_chars_lt_chain};

verus! {

/// Errors
#[derive(Debug)]
pub enum LintsError {
    /// A name that is not the name of any lint.
    LintNameUnknown(LintError),
    /// A lint configuration file could not be read as TOML.
    TomlParse(toml::de::Error),
    /// The configuration could not be written as TOML.
    TomlSerialize(toml::ser::Error),
}

/// The place of a lint in the order lints are declared in, which is the
/// order a collection of lints is kept in.
pub open spec fn lint_rank(lint: Lint) -> int {
    match lint {
        Lint::DuplicatedTrailers => 0,
        Lint::PivotalTrackerIdMissing => 1,
        Lint::JiraIssueKeyMissing => 2,
        Lint::GitHubIdMissing => 3,
        Lint::SubjectNotSeparateFromBody => 4,
        Lint::SubjectLongerThan72Characters => 5,
        Lint::SubjectNotCapitalized => 6,
        Lint::SubjectEndsWithPeriod => 7,
        Lint::BodyWiderThan72Characters => 8,
        Lint::NotConventionalCommit => 9,
        Lint::NotEmojiLog => 10,
    }
}

/// Every lint, in declaration order.
pub open spec fn ranked_lints() -> Seq<Lint> {
    seq![
        Lint::DuplicatedTrailers,
        Lint::PivotalTrackerIdMissing,
        Lint::JiraIssueKeyMissing,
        Lint::GitHubIdMissing,
        Lint::SubjectNotSeparateFromBody,
        Lint::SubjectLongerThan72Characters,
        Lint::SubjectNotCapitalized,
        Lint::SubjectEndsWithPeriod,
        Lint::BodyWiderThan72Characters,
        Lint::NotConventionalCommit,
        Lint::NotEmojiLog,
    ]
}

/// The lints of `order` that are in `s`, in the order of `order`.
pub open spec fn keep_members(order: Seq<Lint>, s: Set<Lint>) -> Seq<Lint>
    decreases order.len(),
{
    if order.len() == 0 {
        seq![]
    } else {
        let rest = keep_members(order.drop_last(), s);
        if s.contains(order.last()) {
            rest.push(order.last())
        } else {
            rest
        }
    }
}

/// The lints of `s` in declaration order.
pub open spec fn in_order(s: Set<Lint>) -> Seq<Lint> {
    keep_members(ranked_lints(), s)
}

/// `ranked_lints` lists each lint at its rank.
pub proof fn lemma_rank(lint: Lint)
    ensures
        0 <= lint_rank(lint) < ranked_lints().len(),
        ranked_lints()[lint_rank(lint)] == lint,
{
}

/// Keeping the members of `s` keeps exactly the lints of `order` in `s`.
pub proof fn lemma_keep_members(order: Seq<Lint>, s: Set<Lint>)
    ensures
        keep_members(order, s).to_set() == order.to_set().intersect(s),
    decreases order.len(),
{
    if order.len() > 0 {
        lemma_keep_members(order.drop_last(), s);
        let rest = keep_members(order.drop_last(), s);
        assert(order =~= order.drop_last().push(order.last()));
        order.drop_last().lemma_push_to_set_commute(order.last());
        if s.contains(order.last()) {
            rest.lemma_push_to_set_commute(order.last());
        }
        assert(keep_members(order, s).to_set() =~= order.to_set().intersect(s));
    } else {
        assert(keep_members(order, s).to_set() =~= Set::<Lint>::empty());
        assert(order.to_set() =~= Set::<Lint>::empty());
        assert(order.to_set().intersect(s) =~= Set::<Lint>::empty());
    }
}

/// The lints of a set, in declaration order, are the set.
pub proof fn lemma_in_order_to_set(s: Set<Lint>)
    ensures
        in_order(s).to_set() == s,
{
    lemma_keep_members(ranked_lints(), s);
    assert forall|l: Lint| s.contains(l) implies ranked_lints().to_set().contains(l) by {
        lemma_rank(l);
    }
    assert(in_order(s).to_set() =~= s);
}

/// Every lint, in the alphabetical order of their names: the order a
/// configuration document lists them in.
pub open spec fn lints_by_name() -> Seq<Lint> {
    seq![
        Lint::BodyWiderThan72Characters,
        Lint::DuplicatedTrailers,
        Lint::GitHubIdMissing,
        Lint::JiraIssueKeyMissing,
        Lint::NotConventionalCommit,
        Lint::NotEmojiLog,
        Lint::PivotalTrackerIdMissing,
        Lint::SubjectEndsWithPeriod,
        Lint::SubjectNotCapitalized,
        Lint::SubjectLongerThan72Characters,
        Lint::SubjectNotSeparateFromBody,
    ]
}

/// The entries of the configuration document for the enabled lints `s`:
/// every lint's name, with whether it is enabled.
pub open spec fn config_entries(s: Set<Lint>) -> Seq<(Seq<char>, bool)> {
    lints_by_name().map_values(|l: Lint| (lint_name(l), s.contains(l)))
}

/// Every name in `names` is the name of a lint.
pub open spec fn all_named(names: Seq<Seq<char>>) -> bool {
    forall|i: int| 0 <= i < names.len() ==> lint_named(#[trigger] names[i]) is Some
}

/// The lints named in `names`.
pub open spec fn named_set(names: Seq<Seq<char>>) -> Set<Lint> {
    Set::new(|l: Lint| exists|i: int| 0 <= i < names.len() && lint_named(names[i]) == Some(l))
}

/// `names[k]` is the first name that is not the name of a lint.
pub open spec fn first_unnamed(names: Seq<Seq<char>>, k: int) -> bool {
    &&& 0 <= k < names.len()
    &&& lint_named(names[k]) is None
    &&& forall|j: int| 0 <= j < k ==> lint_named(#[trigger] names[j]) is Some
}

/// The views of a list of names.
pub open spec fn name_views(names: Seq<&str>) -> Seq<Seq<char>> {
    names.map_values(|s: &str| s@)
}

/// A collection of lints
#[derive(Debug, Eq, PartialEq)]
pub struct Lints {
    lints: Vec<Lint>,
}

impl Clone for Lints {
    fn clone(&self) -> (r: Self)
        ensures
            r@ == self@,
    {
        proof {
            use_type_invariant(self);
        }
        let mut lints: Vec<Lint> = Vec::new();
        let mut i: usize = 0;
        while i < self.lints.len()
            invariant
                i <= self.lints.len(),
                lints@ == self.lints@.take(i as int),
            decreases self.lints.len() - i,
        {
            lints.push(self.lints[i]);
            proof {
                assert(lints@ =~= self.lints@.take(i + 1));
            }
            i = i + 1;
        }
        assert(lints@ =~= self.lints@);
        Lints { lints }
    }
}

impl View for Lints {
    type V = Set<Lint>;

    closed spec fn view(&self) -> Set<Lint> {
        self.lints@.to_set()
    }
}

/// Every lint of declaration order, in declaration order.
fn ranked() -> (v: Vec<Lint>)
    ensures
        v@ == ranked_lints(),
{
    let v = vec![
        Lint::DuplicatedTrailers,
        Lint::PivotalTrackerIdMissing,
        Lint::JiraIssueKeyMissing,
        Lint::GitHubIdMissing,
        Lint::SubjectNotSeparateFromBody,
        Lint::SubjectLongerThan72Characters,
        Lint::SubjectNotCapitalized,
        Lint::SubjectEndsWithPeriod,
        Lint::BodyWiderThan72Characters,
        Lint::NotConventionalCommit,
        Lint::NotEmojiLog,
    ];
    assert(v@ =~= ranked_lints());
    v
}

/// Whether `lint` is in `v`.
fn holds(v: &Vec<Lint>, lint: Lint) -> (b: bool)
    ensures
        b == v@.contains(lint),
{
    let mut i: usize = 0;
    while i < v.len()
        invariant
            i <= v.len(),
            forall|j: int| 0 <= j < i ==> v@[j] != lint,
        decreases v.len() - i,
    {
        if v[i] == lint {
            return true;
        }
        i = i + 1;
    }
    false
}

impl Lints {
    /// The lints are kept in declaration order.
    #[verifier::type_invariant]
    spec fn ordered(self) -> bool {
        self.lints@ == in_order(self.lints@.to_set())
    }

    /// The collection of the lints `member` marks, by rank.
    fn from_marks(member: &Vec<bool>) -> (r: Lints)
        requires
            member.len() == ranked_lints().len(),
        ensures
            forall|l: Lint| #[trigger] r@.contains(l) == member@[lint_rank(l)],
    {
        let order = ranked();
        let ghost s = Set::new(|l: Lint| member@[lint_rank(l)]);
        let mut out: Vec<Lint> = Vec::new();
        let mut i: usize = 0;
        while i < order.len()
            invariant
                i <= order.len(),
                order@ == ranked_lints(),
                member.len() == ranked_lints().len(),
                s == Set::new(|l: Lint| member@[lint_rank(l)]),
                out@ == keep_members(order@.take(i as int), s),
            decreases order.len() - i,
        {
            let lint = order[i];
            proof {
                let t = order@.take(i + 1);
                assert(t.drop_last() =~= order@.take(i as int));
                assert(t.last() == lint);
                lemma_rank(lint);
                assert(lint_rank(lint) == i as int) by {
                    assert(ranked_lints()[lint_rank(lint)] == ranked_lints()[i as int]);
                    assert(ranked_lints().no_duplicates()) by {
                        assert forall|a: int, b: int|
                            0 <= a < b < ranked_lints().len() implies ranked_lints()[a]
                            != ranked_lints()[b] by {}
                    }
                }
            }
            if member[i] {
                out.push(lint);
            }
            i = i + 1;
        }
        proof {
            assert(order@.take(order.len() as int) =~= order@);
            lemma_in_order_to_set(s);
        }
        let r = Lints { lints: out };
        proof {
            assert(r@ == s);
        }
        r
    }

    /// Create a collection of the given lints
    pub fn new(lints: Vec<Lint>) -> (r: Self)
        ensures
            r@ == lints@.to_set(),
    {
        let order = ranked();
        let mut member: Vec<bool> = Vec::new();
        let mut i: usize = 0;
        while i < order.len()
            invariant
                i <= order.len(),
                order@ == ranked_lints(),
                member.len() == i,
                forall|j: int| 0 <= j < i ==> member@[j] == lints@.contains(#[trigger] order@[j]),
            decreases order.len() - i,
        {
            member.push(holds(&lints, order[i]));
            i = i + 1;
        }
        let r = Lints::from_marks(&member);
        proof {
            assert forall|l: Lint| r@.contains(l) == lints@.to_set().contains(l) by {
                lemma_rank(l);
                assert(order@[lint_rank(l)] == l);
            }
            assert(r@ =~= lints@.to_set());
        }
        r
    }

    /// Get the available lints
    pub fn available() -> (r: Self)
        ensures
            forall|l: Lint| #[trigger] r@.contains(l),
    {
        let count = ranked().len();
        let mut member: Vec<bool> = Vec::new();
        let mut i: usize = 0;
        while i < count
            invariant
                i <= count,
                count == ranked_lints().len(),
                member.len() == i,
                forall|j: int| 0 <= j < i ==> member@[j],
            decreases count - i,
        {
            member.push(true);
            i = i + 1;
        }
        let r = Lints::from_marks(&member);
        proof {
            assert forall|l: Lint| #[trigger] r@.contains(l) by {
                lemma_rank(l);
            }
        }
        r
    }

    /// Whether `lint` is one of these lints.
    fn has(&self, lint: Lint) -> (b: bool)
        ensures
            b == self@.contains(lint),
    {
        holds(&self.lints, lint)
    }

    /// Get all the names of these lints, in declaration order
    pub fn names(self) -> (r: Vec<&'static str>)
        ensures
            r.len() == in_order(self@).len(),
            forall|i: int| 0 <= i < r.len() ==> (#[trigger] r@[i])@ == lint_name(in_order(self@)[i]),
    {
        proof {
            use_type_invariant(&self);
        }
        let mut r: Vec<&'static str> = Vec::new();
        let mut i: usize = 0;
        while i < self.lints.len()
            invariant
                i <= self.lints.len(),
                r.len() == i,
                forall|j: int| 0 <= j < i ==> (#[trigger] r@[j])@ == lint_name(self.lints@[j]),
            decreases self.lints.len() - i,
        {
            r.push(self.lints[i].name());
            i = i + 1;
        }
        r
    }

    /// Get all the config keys of these lints, in declaration order
    pub fn config_keys(self) -> (r: Vec<String>)
        ensures
            r.len() == in_order(self@).len(),
            forall|i: int| 0 <= i < r.len() ==> (#[trigger] r@[i])@ == config_key_of(in_order(self@)[i]),
    {
        proof {
            use_type_invariant(&self);
        }
        let mut r: Vec<String> = Vec::new();
        let mut i: usize = 0;
        while i < self.lints.len()
            invariant
                i <= self.lints.len(),
                r.len() == i,
                forall|j: int| 0 <= j < i ==> (#[trigger] r@[j])@ == config_key_of(self.lints@[j]),
            decreases self.lints.len() - i,
        {
            r.push(self.lints[i].config_key());
            i = i + 1;
        }
        r
    }

    /// Create the union of two collections of lints
    pub fn merge(&self, other: &Self) -> (r: Self)
        ensures
            r@ == self@.union(other@),
    {
        let order = ranked();
        let mut member: Vec<bool> = Vec::new();
        let mut i: usize = 0;
        while i < order.len()
            invariant
                i <= order.len(),
                order@ == ranked_lints(),
                member.len() == i,
                forall|j: int|
                    0 <= j < i ==> member@[j] == (self@.contains(#[trigger] order@[j])
                        || other@.contains(order@[j])),
            decreases order.len() - i,
        {
            member.push(self.has(order[i]) || other.has(order[i]));
            i = i + 1;
        }
        let r = Lints::from_marks(&member);
        proof {
            assert forall|l: Lint| r@.contains(l) == self@.union(other@).contains(l) by {
                lemma_rank(l);
                assert(order@[lint_rank(l)] == l);
            }
            assert(r@ =~= self@.union(other@));
        }
        r
    }

    /// Get the lints that are in self, but not in other
    pub fn subtract(&self, other: &Self) -> (r: Self)
        ensures
            r@ == self@.difference(other@),
    {
        let order = ranked();
        let mut member: Vec<bool> = Vec::new();
        let mut i: usize = 0;
        while i < order.len()
            invariant
                i <= order.len(),
                order@ == ranked_lints(),
                member.len() == i,
                forall|j: int|
                    0 <= j < i ==> member@[j] == (self@.contains(#[trigger] order@[j])
                        && !other@.contains(order@[j])),
            decreases order.len() - i,
        {
            member.push(self.has(order[i]) && !other.has(order[i]));
            i = i + 1;
        }
        let r = Lints::from_marks(&member);
        proof {
            assert forall|l: Lint| r@.contains(l) == self@.difference(other@).contains(l) by {
                lemma_rank(l);
                assert(order@[lint_rank(l)] == l);
            }
            assert(r@ =~= self@.difference(other@));
        }
        r
    }

    /// The lints with the given names; fails on the first name that is not
    /// the name of a lint.
    pub fn try_from(names: Vec<&str>) -> (r: Result<Self, LintsError>)
        ensures
            match r {
                Ok(lints) => all_named(name_views(names@)) && lints@ == named_set(name_views(names@)),
                Err(LintsError::LintNameUnknown(LintError::LintNotFound(name))) => exists|k: int|
                    first_unnamed(name_views(names@), k) && name@ == names@[k]@,
                Err(_) => false,
            },
    {
        let ghost views = name_views(names@);
        let mut found: Vec<Lint> = Vec::new();
        let mut i: usize = 0;
        while i < names.len()
            invariant
                i <= names.len(),
                views == name_views(names@),
                found.len() == i,
                forall|j: int| 0 <= j < i ==> lint_named(#[trigger] views[j]) == Some(found@[j]),
            decreases names.len() - i,
        {
            match Lint::try_from(names[i]) {
                Ok(lint) => {
                    found.push(lint);
                },
                Err(e) => {
                    proof {
                        assert(first_unnamed(views, i as int));
                    }
                    return Err(LintsError::LintNameUnknown(e));
                },
            }
            i = i + 1;
        }
        let r = Lints::new(found);
        proof {
            assert forall|l: Lint| r@.contains(l) == named_set(views).contains(l) by {
                if r@.contains(l) {
                    let j = choose|j: int| 0 <= j < found.len() && found@[j] == l;
                    assert(lint_named(views[j]) == Some(l));
                }
                if named_set(views).contains(l) {
                    let j = choose|j: int| 0 <= j < views.len() && lint_named(views[j]) == Some(l);
                    assert(found@[j] == l);
                    assert(found@.contains(l));
                }
            }
            assert(r@ =~= named_set(views));
        }
        Ok(r)
    }

    /// The configuration document that enables these lints and disables the
    /// others, as TOML: a table `mit.lint` with each lint's name set to
    /// whether it is enabled.
    pub fn to_toml(self) -> (r: Result<String, LintsError>)
        ensures
            match r {
                Ok(s) => toml_table("mit"@, "lint"@, config_entries(self@)) == Some(s@),
                Err(LintsError::TomlSerialize(_)) => toml_table(
                    "mit"@,
                    "lint"@,
                    config_entries(self@),
                ) is None,
                Err(_) => false,
            },
    {
        let order: Vec<Lint> = vec![
            Lint::BodyWiderThan72Characters,
            Lint::DuplicatedTrailers,
            Lint::GitHubIdMissing,
            Lint::JiraIssueKeyMissing,
            Lint::NotConventionalCommit,
            Lint::NotEmojiLog,
            Lint::PivotalTrackerIdMissing,
            Lint::SubjectEndsWithPeriod,
            Lint::SubjectNotCapitalized,
            Lint::SubjectLongerThan72Characters,
            Lint::SubjectNotSeparateFromBody,
        ];
        assert(order@ =~= lints_by_name());
        let mut entries: Vec<(String, bool)> = Vec::new();
        let mut i: usize = 0;
        while i < order.len()
            invariant
                i <= order.len(),
                order@ == lints_by_name(),
                entries.deep_view() == config_entries(self@).take(i as int),
            decreases order.len() - i,
        {
            let lint = order[i];
            let ghost before = entries.deep_view();
            let entry = (lint.to_string(), self.has(lint));
            entries.push(entry);
            proof {
                assert(entries.deep_view() =~= before.push(entry.deep_view()));
                assert(config_entries(self@).take(i + 1) =~= before.push(entry.deep_view()));
            }
            i = i + 1;
        }
        assert(config_entries(self@).take(order.len() as int) =~= config_entries(self@));
        match toml_document("mit", "lint", &entries) {
            Ok(s) => Ok(s),
            Err(e) => Err(LintsError::TomlSerialize(e)),
        }
    }

    /// The lints, in declaration order
    pub fn into_vec(self) -> (r: Vec<Lint>)
        ensures
            r@ == in_order(self@),
    {
        proof {
            use_type_invariant(&self);
        }
        self.lints
    }
}

/// Keeping members preserves the order of the ranks: a strictly increasing
/// order stays strictly increasing.
proof fn lemma_keep_members_sorted(order: Seq<Lint>, s: Set<Lint>)
    requires
        forall|i: int, j: int|
            0 <= i < j < order.len() ==> lint_rank(#[trigger] order[i]) < lint_rank(
                #[trigger] order[j],
            ),
    ensures
        forall|i: int, j: int|
            0 <= i < j < keep_members(order, s).len() ==> lint_rank(
                #[trigger] keep_members(order, s)[i],
            ) < lint_rank(#[trigger] keep_members(order, s)[j]),
        forall|i: int|
            0 <= i < keep_members(order, s).len() ==> order.contains(
                #[trigger] keep_members(order, s)[i],
            ),
    decreases order.len(),
{
    if order.len() > 0 {
        let init = order.drop_last();
        lemma_keep_members_sorted(init, s);
        let rest = keep_members(init, s);
        assert forall|i: int| 0 <= i < rest.len() implies lint_rank(#[trigger] rest[i]) < lint_rank(
            order.last(),
        ) by {
            let k = choose|k: int| 0 <= k < init.len() && init[k] == rest[i];
            assert(order[k] == rest[i]);
            assert(order[order.len() - 1] == order.last());
        }
        assert forall|i: int| 0 <= i < rest.len() implies order.contains(#[trigger] rest[i]) by {
            let k = choose|k: int| 0 <= k < init.len() && init[k] == rest[i];
            assert(order[k] == rest[i]);
        }
        assert(order[order.len() - 1] == order.last());
    }
}

/// A collection's lints come in declaration order, each once: what
/// [`Lints::names`], [`Lints::config_keys`] and [`Lints::into_vec`] list is
/// strictly increasing in rank.
pub proof fn lemma_in_order_sorted(s: Set<Lint>)
    ensures
        forall|i: int, j: int|
            0 <= i < j < in_order(s).len() ==> lint_rank(#[trigger] in_order(s)[i]) < lint_rank(
                #[trigger] in_order(s)[j],
            ),
        in_order(s).no_duplicates(),
{
    lemma_keep_members_sorted(ranked_lints(), s);
}

/// The configuration document lists the lints in the alphabetical order of
/// their names, each once: the order in which `toml` writes the keys of a
/// table, so the entries handed to it are already in their final order.
pub proof fn lemma_config_names_sorted()
    ensures
        forall|i: int, j: int|
            0 <= i < j < lints_by_name().len() ==> chars_lt(
                #[trigger] lint_name(lints_by_name()[i]),
                #[trigger] lint_name(lints_by_name()[j]),
            ),
{
    reveal_strlit("duplicated-trailers");
    reveal_strlit("pivotal-tracker-id-missing");
    reveal_strlit("jira-issue-key-missing");
    reveal_strlit("github-id-missing");
    reveal_strlit("subject-not-separated-from-body");
    reveal_strlit("subject-longer-than-72-characters");
    reveal_strlit("subject-line-not-capitalized");
    reveal_strlit("subject-line-ends-with-period");
    reveal_strlit("body-wider-than-72-characters");
    reveal_strlit("not-conventional-commit");
    reveal_strlit("not-emoji-log");
    let names = lints_by_name().map_values(|l: Lint| lint_name(l));
    let n = |i: int| names[i];
    lemma_chars_lt_at(n(0), n(1), 0);
    lemma_chars_lt_at(n(1), n(2), 0);
    lemma_chars_lt_at(n(2), n(3), 0);
    lemma_chars_lt_at(n(3), n(4), 0);
    lemma_chars_lt_at(n(4), n(5), 4);
    lemma_chars_lt_at(n(5), n(6), 0);
    lemma_chars_lt_at(n(6), n(7), 0);
    lemma_chars_lt_at(n(7), n(8), 13);
    lemma_chars_lt_at(n(8), n(9), 9);
    lemma_chars_lt_at(n(9), n(10), 8);
    lemma_chars_lt_chain(names);
    assert forall|i: int, j: int| 0 <= i < j < lints_by_name().len() implies chars_lt(
        #[trigger] lint_name(lints_by_name()[i]),
        #[trigger] lint_name(lints_by_name()[j]),
    ) by {
        assert(names[i] == lint_name(lints_by_name()[i]));
        assert(names[j] == lint_name(lints_by_name()[j]));
    }
}

} // verus!
