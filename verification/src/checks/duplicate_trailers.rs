//! Lint: a trailer such as `Signed-off-by` appears twice with the same value.
use vstd::prelude::*;

use crate::commit::{ends_with_section, CommitMessage};
use crate::model::code::Code;
use crate::model::problem::{problem_view, verdict, Label, Problem, ProblemView};
use crate::text::{
    byte_len, byte_length, chars_equal, chars_lt, chars_of, first_newline, has_prefix,
    lemma_byte_len_subrange, lemma_chars_lt_order, lemma_first_newline_unique, range_byte_len,
    starts_with, str_less,
};

verus! {

/// Canonical lint ID
pub const CONFIG: &'static str = "duplicated-trailers";

/// Description of the problem
pub const ERROR: &'static str = "Your commit message has duplicated trailers";

/// A trailer whose duplicates are reported
pub const SIGNED_OFF_BY: &'static str = "Signed-off-by";

/// A trailer whose duplicates are reported
pub const CO_AUTHORED_BY: &'static str = "Co-authored-by";

/// A trailer whose duplicates are reported
pub const RELATES_TO: &'static str = "Relates-to";

/// How the advice names one duplicated trailer
pub const FIELD_SINGULAR: &'static str = "field";

/// How the advice names several duplicated trailers
pub const FIELD_PLURAL: &'static str = "fields";

/// The advice up to the first duplicated key
pub const WARNING_START: &'static str = "These are normally added accidentally when you're rebasing or amending to a commit, sometimes in the text editor, but often by git hooks.\n\nYou can fix this by deleting the duplicated \"";

/// What separates the duplicated keys in the advice
pub const KEY_SEPARATOR: &'static str = "\", \"";

/// What follows the last duplicated key in the advice
pub const WARNING_KEYS_END: &'static str = "\" ";

/// Text of a label before the key
pub const LABEL_START: &'static str = "Duplicated `";

/// Text of a label after the key
pub const LABEL_END: &'static str = "`";

/// Where to read about the hooks that add trailers
pub const URL: &'static str = "https://git-scm.com/docs/githooks#_commit_msg";

/// A trailer as `(key, value)`.
pub type Pair = (Seq<char>, Seq<char>);

/// The trailers whose duplicates are reported.
pub open spec fn is_checked_key(key: Seq<char>) -> bool {
    key == SIGNED_OFF_BY@ || key == CO_AUTHORED_BY@ || key == RELATES_TO@
}

/// How often `t` occurs in `ts`.
pub open spec fn count_of(ts: Seq<Pair>, t: Pair) -> nat
    decreases ts.len(),
{
    if ts.len() == 0 {
        0
    } else {
        count_of(ts.drop_last(), t) + if ts.last() == t {
            1nat
        } else {
            0nat
        }
    }
}

/// `t` is a checked trailer that occurs more than once with the same value.
pub open spec fn is_duplicated(ts: Seq<Pair>, t: Pair) -> bool {
    is_checked_key(t.0) && count_of(ts, t) >= 2
}

/// The order in which duplicated trailers are reported: by key, then by
/// value.
pub open spec fn pair_lt(p: Pair, q: Pair) -> bool {
    chars_lt(p.0, q.0) || (p.0 == q.0 && chars_lt(p.1, q.1))
}

/// `d` is strictly increasing in [`pair_lt`].
pub open spec fn sorted_pairs(d: Seq<Pair>) -> bool {
    forall|i: int, j: int| 0 <= i < j < d.len() ==> pair_lt(#[trigger] d[i], #[trigger] d[j])
}

/// `d` lists every duplicated trailer of `ts` once, in report order.
pub open spec fn lists_duplicates(ts: Seq<Pair>, d: Seq<Pair>) -> bool {
    &&& sorted_pairs(d)
    &&& forall|t: Pair| #![trigger d.contains(t)] d.contains(t) <==> is_duplicated(ts, t)
}

/// The list of duplicated trailers of `ts` (there is exactly one, see
/// [`lemma_duplicates_unique`]).
pub open spec fn duplicates_of(ts: Seq<Pair>) -> Seq<Pair> {
    choose|d: Seq<Pair>| lists_duplicates(ts, d)
}

/// The keys of the listed trailers.
pub open spec fn keys_of(d: Seq<Pair>) -> Seq<Seq<char>> {
    Seq::new(d.len(), |i: int| d[i].0)
}

/// `pair_lt` is a strict total order.
pub proof fn lemma_pair_lt_order(p: Pair, q: Pair, r: Pair)
    ensures
        !pair_lt(p, p),
        pair_lt(p, q) && pair_lt(q, r) ==> pair_lt(p, r),
        p != q ==> pair_lt(p, q) || pair_lt(q, p),
        pair_lt(p, q) ==> !pair_lt(q, p),
{
    lemma_chars_lt_order(p.0, q.0, r.0);
    lemma_chars_lt_order(p.1, q.1, r.1);
    lemma_chars_lt_order(q.0, p.0, r.0);
    lemma_chars_lt_order(q.1, p.1, r.1);
}

/// Two strictly increasing sequences with the same elements are equal.
pub proof fn lemma_sorted_pairs_unique(a: Seq<Pair>, b: Seq<Pair>)
    requires
        sorted_pairs(a),
        sorted_pairs(b),
        forall|t: Pair| a.contains(t) <==> b.contains(t),
    ensures
        a == b,
    decreases a.len(),
{
    if a.len() == 0 {
        if b.len() > 0 {
            assert(b.contains(b[0]));
        }
        assert(a =~= b);
    } else {
        assert(a.contains(a[0]));
        assert(b.len() > 0);
        assert(b.contains(b[0]));
        let j = choose|j: int| 0 <= j < b.len() && b[j] == a[0];
        let i = choose|i: int| 0 <= i < a.len() && a[i] == b[0];
        if j > 0 {
            assert(pair_lt(b[0], b[j]));
            if i > 0 {
                assert(pair_lt(a[0], a[i]));
            }
            lemma_pair_lt_order(a[0], b[0], a[0]);
        }
        assert(a[0] == b[0]);
        let a1 = a.drop_first();
        let b1 = b.drop_first();
        assert forall|t: Pair| a1.contains(t) <==> b1.contains(t) by {
            if a1.contains(t) {
                let k = choose|k: int| 0 <= k < a1.len() && a1[k] == t;
                assert(a[k + 1] == t);
                assert(pair_lt(a[0], a[k + 1]));
                lemma_pair_lt_order(a[0], t, t);
                assert(b.contains(t));
                let m = choose|m: int| 0 <= m < b.len() && b[m] == t;
                assert(m != 0);
                assert(b1[m - 1] == t);
            }
            if b1.contains(t) {
                let k = choose|k: int| 0 <= k < b1.len() && b1[k] == t;
                assert(b[k + 1] == t);
                assert(pair_lt(b[0], b[k + 1]));
                lemma_pair_lt_order(b[0], t, t);
                assert(a.contains(t));
                let m = choose|m: int| 0 <= m < a.len() && a[m] == t;
                assert(m != 0);
                assert(a1[m - 1] == t);
            }
        }
        assert(sorted_pairs(a1)) by {
            assert forall|x: int, y: int| 0 <= x < y < a1.len() implies pair_lt(
                #[trigger] a1[x],
                #[trigger] a1[y],
            ) by {
                assert(a1[x] == a[x + 1] && a1[y] == a[y + 1]);
            }
        }
        assert(sorted_pairs(b1)) by {
            assert forall|x: int, y: int| 0 <= x < y < b1.len() implies pair_lt(
                #[trigger] b1[x],
                #[trigger] b1[y],
            ) by {
                assert(b1[x] == b[x + 1] && b1[y] == b[y + 1]);
            }
        }
        lemma_sorted_pairs_unique(a1, b1);
        assert(a =~= seq![a[0]] + a1);
        assert(b =~= seq![b[0]] + b1);
    }
}

/// The list of duplicated trailers is unique.
pub proof fn lemma_duplicates_unique(ts: Seq<Pair>, d1: Seq<Pair>, d2: Seq<Pair>)
    requires
        lists_duplicates(ts, d1),
        lists_duplicates(ts, d2),
    ensures
        d1 == d2,
{
    assert forall|t: Pair| d1.contains(t) <==> d2.contains(t) by {
        if d1.contains(t) {
            assert(is_duplicated(ts, t));
        }
        if d2.contains(t) {
            assert(is_duplicated(ts, t));
        }
    }
    lemma_sorted_pairs_unique(d1, d2);
}

/// A trailer that occurs is contained.
proof fn lemma_count_contains(ts: Seq<Pair>, t: Pair)
    ensures
        count_of(ts, t) > 0 ==> ts.contains(t),
        count_of(ts, t) <= ts.len(),
    decreases ts.len(),
{
    if ts.len() > 0 {
        lemma_count_contains(ts.drop_last(), t);
        if count_of(ts.drop_last(), t) > 0 {
            let k = choose|k: int| 0 <= k < ts.drop_last().len() && ts.drop_last()[k] == t;
            assert(ts[k] == t);
        }
        if ts.last() == t {
            assert(ts[ts.len() - 1] == t);
        }
    }
}

/// A trailer at some position is counted.
proof fn lemma_count_at(ts: Seq<Pair>, t: Pair, i: int)
    requires
        0 <= i < ts.len(),
        ts[i] == t,
    ensures
        count_of(ts, t) >= 1,
    decreases ts.len(),
{
    if i < ts.len() - 1 {
        lemma_count_at(ts.drop_last(), t, i);
    }
}

/// A trailer is counted twice exactly when it stands at two positions.
proof fn lemma_count_two(ts: Seq<Pair>, t: Pair)
    ensures
        count_of(ts, t) >= 2 <==> exists|i: int, j: int|
            0 <= i < j < ts.len() && ts[i] == t && ts[j] == t,
    decreases ts.len(),
{
    if ts.len() > 0 {
        let init = ts.drop_last();
        lemma_count_two(init, t);
        lemma_count_contains(init, t);
        if count_of(ts, t) >= 2 {
            if ts.last() == t && count_of(init, t) >= 1 {
                let i = choose|i: int| 0 <= i < init.len() && init[i] == t;
                assert(ts[i] == t && ts[ts.len() - 1] == t);
            } else {
                let (i, j) = choose|i: int, j: int|
                    0 <= i < j < init.len() && init[i] == t && init[j] == t;
                assert(ts[i] == t && ts[j] == t);
            }
        }
        if exists|i: int, j: int| 0 <= i < j < ts.len() && ts[i] == t && ts[j] == t {
            let (i, j) = choose|i: int, j: int| 0 <= i < j < ts.len() && ts[i] == t && ts[j] == t;
            if j == ts.len() - 1 {
                lemma_count_at(init, t, i);
            } else {
                assert(init[i] == t && init[j] == t);
            }
        }
    }
}

/// The duplicates reported are exactly the `Signed-off-by`,
/// `Co-authored-by` and `Relates-to` trailers whose key and value both
/// occur at two positions of the message's trailers: two trailers with the
/// same key but different values are not duplicates.
pub proof fn lemma_duplicates_are_repeated_pairs(ts: Seq<Pair>, d: Seq<Pair>, t: Pair)
    requires
        lists_duplicates(ts, d),
    ensures
        d.contains(t) <==> ((t.0 == SIGNED_OFF_BY@ || t.0 == CO_AUTHORED_BY@ || t.0 == RELATES_TO@)
            && exists|i: int, j: int| 0 <= i < j < ts.len() && ts[i] == t && ts[j] == t),
{
    lemma_count_two(ts, t);
}

/// Compares two trailers in report order.
fn trailer_less(a: &(String, String), b: &(String, String)) -> (r: bool)
    ensures
        r == pair_lt(a.deep_view(), b.deep_view()),
{
    if str_less(a.0.as_str(), b.0.as_str()) {
        true
    } else {
        a.0 == b.0 && str_less(a.1.as_str(), b.1.as_str())
    }
}

/// Whether two trailers are equal.
fn trailer_equal(a: &(String, String), b: &(String, String)) -> (r: bool)
    ensures
        r == (a.deep_view() == b.deep_view()),
{
    a.0 == b.0 && a.1 == b.1
}

/// How often `ts[i]` occurs in `ts`.
fn occurrences(ts: &Vec<(String, String)>, i: usize) -> (n: usize)
    requires
        i < ts.len(),
    ensures
        n == count_of(ts.deep_view(), ts.deep_view()[i as int]),
{
    let ghost all = ts.deep_view();
    let ghost t = all[i as int];
    let mut n: usize = 0;
    let mut j: usize = 0;
    while j < ts.len()
        invariant
            j <= ts.len(),
            i < ts.len(),
            all == ts.deep_view(),
            t == all[i as int],
            n == count_of(all.take(j as int), t),
            n <= j,
        decreases ts.len() - j,
    {
        proof {
            assert(all.take(j + 1).drop_last() =~= all.take(j as int));
            assert(all.take(j + 1).last() == ts@[j as int].deep_view());
        }
        if trailer_equal(&ts[j], &ts[i]) {
            n = n + 1;
        }
        j = j + 1;
    }
    assert(all.take(ts.len() as int) =~= all);
    n
}

/// The trailers of `ts` at the positions `picked`.
pub open spec fn at_positions(ts: Seq<Pair>, picked: Seq<usize>) -> Seq<Pair> {
    Seq::new(picked.len(), |k: int| ts[picked[k] as int])
}

/// Whether the trailer `ts[i]` is among those at `picked`.
fn is_picked(ts: &Vec<(String, String)>, picked: &Vec<usize>, i: usize) -> (r: bool)
    requires
        i < ts.len(),
        forall|k: int| 0 <= k < picked.len() ==> picked@[k] < ts.len(),
    ensures
        r == at_positions(ts.deep_view(), picked@).contains(ts.deep_view()[i as int]),
{
    let ghost chosen = at_positions(ts.deep_view(), picked@);
    let mut k: usize = 0;
    while k < picked.len()
        invariant
            k <= picked.len(),
            i < ts.len(),
            chosen == at_positions(ts.deep_view(), picked@),
            forall|m: int| 0 <= m < picked.len() ==> picked@[m] < ts.len(),
            forall|m: int| 0 <= m < k ==> chosen[m] != ts.deep_view()[i as int],
        decreases picked.len() - k,
    {
        if trailer_equal(&ts[picked[k]], &ts[i]) {
            assert(chosen[k as int] == ts.deep_view()[i as int]);
            return true;
        }
        k = k + 1;
    }
    false
}

/// Inserts position `i` into `picked` so that the trailers stay in report
/// order.
fn insert_in_order(ts: &Vec<(String, String)>, picked: &mut Vec<usize>, i: usize)
    requires
        i < ts.len(),
        forall|k: int| 0 <= k < old(picked).len() ==> old(picked)@[k] < ts.len(),
        sorted_pairs(at_positions(ts.deep_view(), old(picked)@)),
        !at_positions(ts.deep_view(), old(picked)@).contains(ts.deep_view()[i as int]),
    ensures
        forall|k: int| 0 <= k < final(picked).len() ==> final(picked)@[k] < ts.len(),
        sorted_pairs(at_positions(ts.deep_view(), final(picked)@)),
        forall|t: Pair|
            #![trigger at_positions(ts.deep_view(), final(picked)@).contains(t)]
            at_positions(ts.deep_view(), final(picked)@).contains(t) <==> (at_positions(
                ts.deep_view(),
                old(picked)@,
            ).contains(t) || t == ts.deep_view()[i as int]),
{
    let ghost all = ts.deep_view();
    let ghost before = at_positions(all, picked@);
    let ghost t = all[i as int];
    let mut p: usize = 0;
    while p < picked.len() && trailer_less(&ts[picked[p]], &ts[i])
        invariant
            p <= picked.len(),
            i < ts.len(),
            all == ts.deep_view(),
            t == all[i as int],
            picked@ == old(picked)@,
            before == at_positions(all, picked@),
            forall|k: int| 0 <= k < picked.len() ==> picked@[k] < ts.len(),
            forall|k: int| 0 <= k < p ==> pair_lt(#[trigger] before[k], t),
        decreases picked.len() - p,
    {
        p = p + 1;
    }
    proof {
        if p < picked.len() {
            assert(before[p as int] != t);
            lemma_pair_lt_order(before[p as int], t, t);
            assert(pair_lt(t, before[p as int]));
        }
    }
    picked.insert(p, i);
    proof {
        let after = at_positions(all, picked@);
        assert(after =~= before.insert(p as int, t));
        assert forall|x: int, y: int| 0 <= x < y < after.len() implies pair_lt(
            #[trigger] after[x],
            #[trigger] after[y],
        ) by {
            if y < p {
            } else if y == p {
                assert(after[x] == before[x]);
            } else if x < p {
                assert(after[y] == before[y - 1]);
                assert(pair_lt(before[x], t));
                assert(pair_lt(t, before[p as int]));
                lemma_pair_lt_order(before[x], t, before[p as int]);
                if y - 1 > p {
                    assert(pair_lt(before[p as int], before[y - 1]));
                    lemma_pair_lt_order(before[x], before[p as int], before[y - 1]);
                }
            } else if x == p {
                assert(after[y] == before[y - 1]);
                if y - 1 > p {
                    assert(pair_lt(before[p as int], before[y - 1]));
                    lemma_pair_lt_order(t, before[p as int], before[y - 1]);
                }
            } else {
                assert(after[x] == before[x - 1]);
                assert(after[y] == before[y - 1]);
            }
        }
        assert forall|u: Pair| after.contains(u) <==> (before.contains(u) || u == t) by {
            if after.contains(u) {
                let k = choose|k: int| 0 <= k < after.len() && after[k] == u;
                if k < p {
                    assert(before[k] == u);
                } else if k > p {
                    assert(before[k - 1] == u);
                }
            }
            if before.contains(u) {
                let k = choose|k: int| 0 <= k < before.len() && before[k] == u;
                if k < p {
                    assert(after[k] == u);
                } else {
                    assert(after[k + 1] == u);
                }
            }
            if u == t {
                assert(after[p as int] == u);
            }
        }
    }
}

/// Whether `key` is one of the trailers whose duplicates are reported.
fn checked_key(key: &String) -> (r: bool)
    ensures
        r == is_checked_key(key@),
{
    let signed = SIGNED_OFF_BY.to_owned();
    let co_authored = CO_AUTHORED_BY.to_owned();
    let relates = RELATES_TO.to_owned();
    *key == signed || *key == co_authored || *key == relates
}

/// The duplicated trailers of `ts`, each once, in report order.
fn duplicated_trailers(ts: &Vec<(String, String)>) -> (d: Vec<(String, String)>)
    ensures
        lists_duplicates(ts.deep_view(), d.deep_view()),
{
    let ghost all = ts.deep_view();
    let mut picked: Vec<usize> = Vec::new();
    let mut i: usize = 0;
    while i < ts.len()
        invariant
            i <= ts.len(),
            all == ts.deep_view(),
            forall|k: int| 0 <= k < picked.len() ==> picked@[k] < ts.len(),
            sorted_pairs(at_positions(all, picked@)),
            forall|t: Pair|
                #![trigger at_positions(all, picked@).contains(t)]
                at_positions(all, picked@).contains(t) <==> (all.take(i as int).contains(t)
                    && is_duplicated(all, t)),
        decreases ts.len() - i,
    {
        let ghost before = at_positions(all, picked@);
        let wanted = checked_key(&ts[i].0) && occurrences(ts, i) >= 2 && !is_picked(
            ts,
            &picked,
            i,
        );
        if wanted {
            insert_in_order(ts, &mut picked, i);
        }
        proof {
            let t_i = all[i as int];
            let after = at_positions(all, picked@);
            let next = all.take(i + 1);
            assert forall|t: Pair| after.contains(t) <==> (next.contains(t)
                && is_duplicated(all, t)) by {
                if next.contains(t) {
                    let k = choose|k: int| 0 <= k < i + 1 && next[k] == t;
                    if k < i {
                        assert(all.take(i as int)[k] == t);
                    }
                }
                let prev = all.take(i as int);
                if prev.contains(t) {
                    let k = choose|k: int| 0 <= k < i && prev[k] == t;
                    assert(next[k] == t);
                }
                assert(next[i as int] == t_i);
            }
        }
        i = i + 1;
    }
    let mut d: Vec<(String, String)> = Vec::new();
    let mut k: usize = 0;
    while k < picked.len()
        invariant
            k <= picked.len(),
            all == ts.deep_view(),
            forall|m: int| 0 <= m < picked.len() ==> picked@[m] < ts.len(),
            d.deep_view() == at_positions(all, picked@).take(k as int),
        decreases picked.len() - k,
    {
        let t = &ts[picked[k]];
        let ghost before = d.deep_view();
        d.push((t.0.clone(), t.1.clone()));
        proof {
            assert(d.deep_view() =~= before.push(all[picked@[k as int] as int]));
            assert(at_positions(all, picked@).take(k + 1) =~= before.push(
                all[picked@[k as int] as int],
            ));
        }
        k = k + 1;
    }
    proof {
        let chosen = at_positions(all, picked@);
        assert(chosen.take(picked.len() as int) =~= chosen);
        assert(all.take(ts.len() as int) =~= all);
        assert forall|t: Pair| #![trigger chosen.contains(t)] chosen.contains(t) <==> is_duplicated(
            all,
            t,
        ) by {
            lemma_count_contains(all, t);
        }
    }
    d
}

/// `line` is a trailer line for `key`: it starts with the key and a colon,
/// and is not a comment.
pub open spec fn is_trailer_line(line: Seq<char>, key: Seq<char>, comment_char: Option<char>) -> bool {
    &&& starts_with(line, key.push(':'))
    &&& match comment_char {
        Some(c) => !(line.len() > 0 && line[0] == c),
        None => true,
    }
}

/// The trailer lines for `key` among the lines of `s` (split at each
/// `'\n'`, nothing dropped), as their byte offset and byte length, where
/// `s` starts at byte offset `base`.
pub open spec fn trailer_lines(
    s: Seq<char>,
    key: Seq<char>,
    comment_char: Option<char>,
    base: nat,
) -> Seq<(nat, nat)>
    decreases s.len(),
{
    let k = first_newline(s) as int;
    let line = s.take(k);
    let here = if is_trailer_line(line, key, comment_char) {
        seq![(base, byte_len(line))]
    } else {
        Seq::<(nat, nat)>::empty()
    };
    if k >= s.len() {
        here
    } else {
        here + trailer_lines(s.skip(k + 1), key, comment_char, base + byte_len(line) + 1)
    }
}

/// The text before the scissors section: all of `text` when there is none.
pub open spec fn before_scissors(text: Seq<char>, scissors: Option<Seq<char>>) -> Seq<char> {
    match scissors {
        Some(sc) => if ends_with_section(text, sc) {
            text.take(text.len() - sc.len())
        } else {
            text
        },
        None => text,
    }
}

/// The label for a repeated `key` on the trailer line at byte offset
/// `offset` with byte length `length`.
pub open spec fn trailer_label(key: Seq<char>, line: (nat, nat)) -> (Seq<char>, usize, usize) {
    (LABEL_START@ + key + LABEL_END@, line.0 as usize, line.1 as usize)
}

/// The labels for `key`: every trailer line for it, before the scissors
/// section, after the first.
pub open spec fn key_labels(
    text: Seq<char>,
    key: Seq<char>,
    comment_char: Option<char>,
    scissors: Option<Seq<char>>,
) -> Seq<(Seq<char>, usize, usize)> {
    let ls = trailer_lines(before_scissors(text, scissors), key, comment_char, 0);
    if ls.len() <= 1 {
        seq![]
    } else {
        Seq::new((ls.len() - 1) as nat, |k: int| trailer_label(key, ls[k + 1]))
    }
}

/// The labels for every key, key by key.
pub open spec fn all_labels(
    text: Seq<char>,
    keys: Seq<Seq<char>>,
    comment_char: Option<char>,
    scissors: Option<Seq<char>>,
) -> Seq<(Seq<char>, usize, usize)>
    decreases keys.len(),
{
    if keys.len() == 0 {
        seq![]
    } else {
        all_labels(text, keys.drop_last(), comment_char, scissors) + key_labels(
            text,
            keys.last(),
            comment_char,
            scissors,
        )
    }
}

/// The keys joined with `sep` between them.
pub open spec fn join(keys: Seq<Seq<char>>, sep: Seq<char>) -> Seq<char>
    decreases keys.len(),
{
    if keys.len() == 0 {
        seq![]
    } else if keys.len() == 1 {
        keys[0]
    } else {
        join(keys.drop_last(), sep) + sep + keys.last()
    }
}

/// The advice given for the duplicated keys.
pub open spec fn warning_text(keys: Seq<Seq<char>>) -> Seq<char> {
    WARNING_START@ + join(keys, KEY_SEPARATOR@) + WARNING_KEYS_END@ + if keys.len() > 1 {
        FIELD_PLURAL@
    } else {
        FIELD_SINGULAR@
    }
}

/// What the lint reports for the duplicated `keys` of a message with text
/// `text`, comment character `comment_char` and scissors section `scissors`.
pub open spec fn duplicate_verdict(
    text: Seq<char>,
    keys: Seq<Seq<char>>,
    comment_char: Option<char>,
    scissors: Option<Seq<char>>,
) -> Option<ProblemView> {
    if keys.len() == 0 {
        None
    } else {
        Some(
            problem_view(
                ERROR@,
                warning_text(keys),
                Code::DuplicatedTrailers,
                text,
                Some(all_labels(text, keys, comment_char, scissors)),
                Some(URL@),
            ),
        )
    }
}

/// The characters `s[from..to]`.
fn copy_range(s: &Vec<char>, from: usize, to: usize) -> (v: Vec<char>)
    requires
        from <= to <= s.len(),
    ensures
        v@ == s@.subrange(from as int, to as int),
{
    let mut v: Vec<char> = Vec::new();
    let mut i = from;
    while i < to
        invariant
            from <= i <= to <= s.len(),
            v@ == s@.subrange(from as int, i as int),
        decreases to - i,
    {
        v.push(s[i]);
        proof {
            assert(v@ =~= s@.subrange(from as int, i + 1));
        }
        i = i + 1;
    }
    v
}

/// Whether `line` is a trailer line for the key whose characters followed
/// by a colon are `marker`.
fn trailer_line(line: &Vec<char>, marker: &Vec<char>, comment_char: Option<char>) -> (r: bool)
    ensures
        r == (starts_with(line@, marker@) && match comment_char {
            Some(c) => !(line@.len() > 0 && line@[0] == c),
            None => true,
        }),
{
    let comment = match comment_char {
        Some(c) => line.len() > 0 && line[0] == c,
        None => false,
    };
    has_prefix(line, marker) && !comment
}

/// Computes [`before_scissors`].
fn text_before_scissors(text: &Vec<char>, scissors: &Option<String>) -> (r: Vec<char>)
    ensures
        r@ == before_scissors(text@, scissors.deep_view()),
{
    match scissors {
        Some(sc) => {
            let section = chars_of(sc.as_str());
            if text.len() > section.len() && text[text.len() - section.len() - 1] == '\n' {
                let cut = text.len() - section.len();
                let tail = copy_range(text, cut, text.len());
                proof {
                    assert(tail@ =~= text@.skip(cut as int));
                }
                if chars_equal(&tail, &section) {
                    let head = copy_range(text, 0, cut);
                    proof {
                        assert(head@ =~= text@.take(cut as int));
                    }
                    return head;
                }
            }
            copy_range(text, 0, text.len())
        },
        None => copy_range(text, 0, text.len()),
    }
}

/// Computes [`trailer_lines`] of `s` from byte offset 0.
fn find_trailer_lines(s: &Vec<char>, key: &String, comment_char: Option<char>) -> (r: Vec<(usize, usize)>)
    requires
        byte_len(s@) <= usize::MAX,
    ensures
        r@.len() == trailer_lines(s@, key@, comment_char, 0).len(),
        forall|k: int|
            0 <= k < r@.len() ==> r@[k].0 as nat == trailer_lines(s@, key@, comment_char, 0)[k].0
                && r@[k].1 as nat == trailer_lines(s@, key@, comment_char, 0)[k].1,
{
    let mut marker = chars_of(key.as_str());
    marker.push(':');
    let ghost all = trailer_lines(s@, key@, comment_char, 0);
    let mut out: Vec<(usize, usize)> = Vec::new();
    let mut i: usize = 0;
    let mut off: usize = 0;
    let mut done = false;
    assert(s@.skip(0) =~= s@);
    assert(s@.take(0) =~= Seq::<char>::empty());
    while !done
        invariant
            i <= s.len(),
            marker@ == key@.push(':'),
            byte_len(s@) <= usize::MAX,
            off == byte_len(s@.take(i as int)),
            all == trailer_lines(s@, key@, comment_char, 0),
            !done ==> all == out@.map_values(|p: (usize, usize)| (p.0 as nat, p.1 as nat))
                + trailer_lines(s@.skip(i as int), key@, comment_char, off as nat),
            done ==> all == out@.map_values(|p: (usize, usize)| (p.0 as nat, p.1 as nat)),
        decreases s.len() - i + if done { 0int } else { 1int },
    {
        let mut j = i;
        while j < s.len() && s[j] != '\n'
            invariant
                i <= j <= s.len(),
                forall|m: int| i <= m < j ==> #[trigger] s@[m] != '\n',
            decreases s.len() - j,
        {
            j = j + 1;
        }
        let ghost rest = s@.skip(i as int);
        proof {
            assert forall|m: int| 0 <= m < j - i implies #[trigger] rest[m] != '\n' by {
                assert(rest[m] == s@[i + m]);
            }
            lemma_first_newline_unique(rest, (j - i) as int);
            assert(rest.take((j - i) as int) =~= s@.subrange(i as int, j as int));
            lemma_byte_len_subrange(s@, 0, j as int);
            lemma_byte_len_subrange(s@, i as int, j as int);
            lemma_byte_len_subrange(s@, 0, i as int);
            assert(s@.take(i as int) =~= s@.subrange(0, i as int));
        }
        let line = copy_range(s, i, j);
        let length = range_byte_len(s, i, j);
        let ghost before = out@.map_values(|p: (usize, usize)| (p.0 as nat, p.1 as nat));
        let ghost here = if is_trailer_line(line@, key@, comment_char) {
            seq![(off as nat, length as nat)]
        } else {
            Seq::<(nat, nat)>::empty()
        };
        if trailer_line(&line, &marker, comment_char) {
            out.push((off, length));
        }
        proof {
            assert(out@.map_values(|p: (usize, usize)| (p.0 as nat, p.1 as nat)) =~= before + here);
        }
        if j == s.len() {
            proof {
                assert(trailer_lines(rest, key@, comment_char, off as nat) == here);
            }
            done = true;
        } else {
            proof {
                assert(rest.skip((j - i) + 1) =~= s@.skip(j + 1));
                lemma_byte_len_subrange(s@, 0, j + 1);
                lemma_byte_len_subrange(s@, j as int, j + 1);
                lemma_byte_len_subrange(s@, 0, s@.len() as int);
                assert(s@.subrange(0, s@.len() as int) =~= s@);
                assert(s@.subrange(j as int, j + 1) =~= seq!['\n']);
                assert(byte_len(seq!['\n']) == 1) by {
                    assert(seq!['\n'].drop_first() =~= Seq::<char>::empty());
                    assert(byte_len(Seq::<char>::empty()) == 0);
                    assert(('\n' as u32) == 10);
                }
                assert(s@.take(j + 1) =~= s@.subrange(0, j + 1));
                assert(trailer_lines(rest, key@, comment_char, off as nat) == here
                    + trailer_lines(s@.skip(j + 1), key@, comment_char, (off + length + 1) as nat));
            }
            off = off + length + 1;
            i = j + 1;
        }
    }
    out
}

/// The labels for the repeats of `key` on trailer lines of the message text
/// `text`.
fn labels_for_key(
    text: &Vec<char>,
    key: &String,
    comment_char: Option<char>,
    scissors: &Option<String>,
    out: &mut Vec<Label>,
)
    requires
        byte_len(text@) <= usize::MAX,
    ensures
        final(out).deep_view() == old(out).deep_view() + key_labels(
            text@,
            key@,
            comment_char,
            scissors.deep_view(),
        ),
{
    let region = text_before_scissors(text, scissors);
    proof {
        if region@ != text@ {
            let cut = region@.len();
            lemma_byte_len_subrange(text@, 0, cut as int);
            lemma_byte_len_subrange(text@, 0, text@.len() as int);
            assert(text@.subrange(0, text@.len() as int) =~= text@);
            assert(region@ =~= text@.subrange(0, cut as int));
        }
    }
    let found = find_trailer_lines(&region, key, comment_char);
    let ghost ls = trailer_lines(region@, key@, comment_char, 0);
    let ghost start = out.deep_view();
    if found.len() <= 1 {
        assert(key_labels(text@, key@, comment_char, scissors.deep_view()) =~= Seq::<
            (Seq<char>, usize, usize),
        >::empty());
        assert(start + key_labels(text@, key@, comment_char, scissors.deep_view()) =~= out.deep_view());
        return;
    }
    let mut k: usize = 1;
    while k < found.len()
        invariant
            1 <= k <= found.len(),
            found@.len() == ls.len(),
            forall|x: int|
                0 <= x < found@.len() ==> found@[x].0 as nat == ls[x].0 && found@[x].1 as nat
                    == ls[x].1,
            out.deep_view() == start + Seq::new((k - 1) as nat, |x: int| trailer_label(key@, ls[x + 1])),
        decreases found.len() - k,
    {
        let mut label = LABEL_START.to_owned();
        label.append(key.as_str());
        label.append(LABEL_END);
        let ghost before = out.deep_view();
        let entry = (label, found[k].0, found[k].1);
        out.push(entry);
        proof {
            assert(entry.deep_view() == trailer_label(key@, ls[k as int]));
            assert(out.deep_view() =~= before.push(trailer_label(key@, ls[k as int])));
            assert(Seq::new(k as nat, |x: int| trailer_label(key@, ls[x + 1])) =~= Seq::new(
                (k - 1) as nat,
                |x: int| trailer_label(key@, ls[x + 1]),
            ).push(trailer_label(key@, ls[k as int])));
        }
        k = k + 1;
    }
    assert(out.deep_view() =~= start + key_labels(text@, key@, comment_char, scissors.deep_view()));
}

/// The advice given for the duplicated `duplicated_trailers` keys.
pub fn warning(duplicated_trailers: &Vec<String>) -> (w: String)
    ensures
        w@ == warning_text(duplicated_trailers.deep_view()),
{
    let ghost keys = duplicated_trailers.deep_view();
    let mut joined = String::new();
    if duplicated_trailers.len() > 0 {
        joined.append(duplicated_trailers[0].as_str());
        assert(keys.take(1).drop_last() =~= Seq::<Seq<char>>::empty());
    }
    let mut i: usize = 1;
    while i < duplicated_trailers.len()
        invariant
            1 <= i,
            i <= duplicated_trailers.len() || duplicated_trailers.len() == 0,
            keys == duplicated_trailers.deep_view(),
            duplicated_trailers.len() > 0 ==> joined@ == join(keys.take(i as int), KEY_SEPARATOR@),
            duplicated_trailers.len() == 0 ==> joined@ == Seq::<char>::empty(),
        decreases duplicated_trailers.len() - i,
    {
        joined.append(KEY_SEPARATOR);
        joined.append(duplicated_trailers[i].as_str());
        proof {
            assert(keys.take(i + 1).drop_last() =~= keys.take(i as int));
        }
        i = i + 1;
    }
    proof {
        if keys.len() > 0 {
            assert(keys.take(keys.len() as int) =~= keys);
        }
    }
    let mut w = WARNING_START.to_owned();
    w.append(joined.as_str());
    w.append(WARNING_KEYS_END);
    if duplicated_trailers.len() > 1 {
        w.append(FIELD_PLURAL);
    } else {
        w.append(FIELD_SINGULAR);
    }
    w
}

/// Checks if the commit message contains duplicated trailers
///
/// Reports each duplicated `Signed-off-by`, `Co-authored-by` or `Relates-to`
/// trailer, and highlights every repeat of its key in the message.
pub fn lint(commit: &CommitMessage) -> (r: Option<Problem>)
    ensures
        r matches Some(p) ==> p.message() == commit@,
        exists|d: Seq<Pair>|
            lists_duplicates(commit.trailers.deep_view(), d) && verdict(r) == duplicate_verdict(
                commit.text@,
                keys_of(d),
                commit.comment_char,
                commit.scissors.deep_view(),
            ),
        verdict(r) == duplicate_verdict(
            commit.text@,
            keys_of(duplicates_of(commit.trailers.deep_view())),
            commit.comment_char,
            commit.scissors.deep_view(),
        ),
        r is Some <==> exists|t: Pair| is_duplicated(commit.trailers.deep_view(), t),
        r is Some <==> exists|i: int, j: int|
            0 <= i < j < commit.trailers.deep_view().len() && commit.trailers.deep_view()[i]
                == commit.trailers.deep_view()[j] && (commit.trailers.deep_view()[i].0
                == SIGNED_OFF_BY@ || commit.trailers.deep_view()[i].0 == CO_AUTHORED_BY@
                || commit.trailers.deep_view()[i].0 == RELATES_TO@),
{
    let d = duplicated_trailers(&commit.trailers);
    let ghost dv = d.deep_view();
    proof {
        let ts = commit.trailers.deep_view();
        assert(lists_duplicates(ts, dv));
        lemma_duplicates_unique(ts, dv, duplicates_of(ts));
    }
    let mut keys: Vec<String> = Vec::new();
    let mut i: usize = 0;
    while i < d.len()
        invariant
            i <= d.len(),
            dv == d.deep_view(),
            keys.deep_view() == keys_of(dv).take(i as int),
        decreases d.len() - i,
    {
        let ghost before = keys.deep_view();
        let key = d[i].0.clone();
        assert(key@ == dv[i as int].0);
        keys.push(key);
        proof {
            assert(keys.deep_view() =~= before.push(dv[i as int].0));
            assert(keys.deep_view() =~= keys_of(dv).take(i + 1));
        }
        i = i + 1;
    }
    let ghost kv = keys_of(dv);
    assert(keys.deep_view() =~= kv);
    proof {
        let ts = commit.trailers.deep_view();
        if dv.len() > 0 {
            assert(dv.contains(dv[0]));
            assert(is_duplicated(ts, dv[0]));
        }
        assert forall|t: Pair| is_duplicated(ts, t) implies dv.len() > 0 by {
            assert(dv.contains(t));
        }
        if dv.len() > 0 {
            lemma_duplicates_are_repeated_pairs(ts, dv, dv[0]);
            let (i, j) = choose|i: int, j: int|
                0 <= i < j < ts.len() && ts[i] == dv[0] && ts[j] == dv[0];
            assert(ts[i] == ts[j]);
        }
        if exists|i: int, j: int|
            0 <= i < j < ts.len() && ts[i] == ts[j] && (ts[i].0 == SIGNED_OFF_BY@ || ts[i].0
                == CO_AUTHORED_BY@ || ts[i].0 == RELATES_TO@) {
            let (i, j) = choose|i: int, j: int|
                0 <= i < j < ts.len() && ts[i] == ts[j] && (ts[i].0 == SIGNED_OFF_BY@ || ts[i].0
                    == CO_AUTHORED_BY@ || ts[i].0 == RELATES_TO@);
            lemma_duplicates_are_repeated_pairs(ts, dv, ts[i]);
            assert(dv.contains(ts[i]));
        }
    }
    if keys.len() == 0 {
        return None;
    }
    let text = chars_of(commit.text.as_str());
    let _ = byte_length(commit.text.as_str());
    let mut labels: Vec<Label> = Vec::new();
    let mut k: usize = 0;
    assert(all_labels(text@, kv.take(0), commit.comment_char, commit.scissors.deep_view()) =~= Seq::<
        (Seq<char>, usize, usize),
    >::empty());
    while k < keys.len()
        invariant
            k <= keys.len(),
            kv == keys.deep_view(),
            text@ == commit.text@,
            byte_len(text@) <= usize::MAX,
            labels.deep_view() == all_labels(
                text@,
                kv.take(k as int),
                commit.comment_char,
                commit.scissors.deep_view(),
            ),
        decreases keys.len() - k,
    {
        labels_for_key(&text, &keys[k], commit.comment_char, &commit.scissors, &mut labels);
        proof {
            assert(kv.take(k + 1).drop_last() =~= kv.take(k as int));
        }
        k = k + 1;
    }
    assert(kv.take(keys.len() as int) =~= kv);
    let tip = warning(&keys);
    let p = Problem::new(
        ERROR.to_owned(),
        tip,
        Code::DuplicatedTrailers,
        commit,
        Some(labels),
        Some(URL.to_owned()),
    );
    Some(p)
}

} // verus!
