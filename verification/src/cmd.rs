//! Running a collection of lints over a commit message.
use vstd::prelude::*;

use crate::commit::CommitMessage;
use crate::model::lint::{lint_verdict, Lint};
use crate::model::lints::{in_order, Lints};
use crate::model::problem::{Problem, ProblemView};

verus! {

/// The problems that running `lints`, in that order, finds in `commit`: one
/// for each lint that fails.
pub open spec fn reported(lints: Seq<Lint>, commit: CommitMessage) -> Seq<ProblemView>
    decreases lints.len(),
{
    if lints.len() == 0 {
        seq![]
    } else {
        let rest = reported(lints.drop_last(), commit);
        match lint_verdict(lints.last(), commit) {
            Some(p) => rest.push(p),
            None => rest,
        }
    }
}

/// The views of a list of problems.
pub open spec fn problem_views(problems: Seq<Problem>) -> Seq<ProblemView> {
    problems.map_values(|p: Problem| p@)
}

/// Lint a commit message
///
/// Runs each of the lints in declaration order and collects the problems
/// they find.
pub fn lint(commit_message: &CommitMessage, lints: Lints) -> (r: Vec<Problem>)
    ensures
        problem_views(r@) == reported(in_order(lints@), *commit_message),
        forall|i: int| 0 <= i < r@.len() ==> (#[trigger] r@[i]).message() == commit_message@,
{
    let all = lints.into_vec();
    let ghost order = all@;
    let mut found: Vec<Problem> = Vec::new();
    let mut i: usize = 0;
    while i < all.len()
        invariant
            i <= all.len(),
            order == all@,
            problem_views(found@) == reported(order.take(i as int), *commit_message),
            forall|j: int| 0 <= j < found@.len() ==> (#[trigger] found@[j]).message() == commit_message@,
        decreases all.len() - i,
    {
        let ghost before = found@;
        proof {
            assert(order.take(i + 1).drop_last() =~= order.take(i as int));
            assert(order.take(i + 1).last() == all@[i as int]);
        }
        match all[i].lint(commit_message) {
            Some(p) => {
                found.push(p);
                proof {
                    assert(problem_views(found@) =~= problem_views(before).push(p@));
                }
            },
            None => {},
        }
        i = i + 1;
    }
    assert(order.take(all.len() as int) =~= order);
    found
}

} // verus!
