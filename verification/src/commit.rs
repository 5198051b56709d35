//! Committing the index.
use vstd::prelude::*;

use crate::error::{GitError, GitErrorView};
use crate::runner::{CommandRunner, args_view, run_unit, unit_result};

verus! {

pub open spec fn commit_args(message: Seq<char>) -> Seq<Seq<char>> {
    seq!["commit"@, "-m"@, message]
}

pub open spec fn amend_args(message: Seq<char>) -> Seq<Seq<char>> {
    seq!["commit"@, "--amend"@, "-m"@, message]
}

/// `git commit -m <message>`.
pub fn commit<R: CommandRunner>(runner: &R, message: &str) -> (r: Result<(), GitError>)
    ensures
        exists|out: Result<Seq<char>, GitErrorView>|
            #[trigger] runner.run_outcome(commit_args(message@), None, out) && unit_result(out, r),
{
    let args = ["commit", "-m", message];
    assert(args_view(args@) =~= commit_args(message@));
    run_unit(runner, &args)
}

/// `git commit --amend -m <message>`.
pub fn amend<R: CommandRunner>(runner: &R, message: &str) -> (r: Result<(), GitError>)
    ensures
        exists|out: Result<Seq<char>, GitErrorView>|
            #[trigger] runner.run_outcome(amend_args(message@), None, out) && unit_result(out, r),
{
    let args = ["commit", "--amend", "-m", message];
    assert(args_view(args@) =~= amend_args(message@));
    run_unit(runner, &args)
}

} // verus!
