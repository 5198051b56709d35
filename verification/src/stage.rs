//! Moving paths in and out of the index.
use vstd::prelude::*;

use crate::error::{GitError, GitErrorView};
use crate::runner::{CommandRunner, args_view, run_unit, unit_result};

verus! {

pub open spec fn stage_args(path: Seq<char>) -> Seq<Seq<char>> {
    seq!["add"@, "--"@, path]
}

pub open spec fn unstage_args(path: Seq<char>) -> Seq<Seq<char>> {
    seq!["reset"@, "HEAD"@, "--"@, path]
}

/// `git add -- <path>`.
pub fn stage_file<R: CommandRunner>(runner: &R, path: &str) -> (r: Result<(), GitError>)
    ensures
        exists|out: Result<Seq<char>, GitErrorView>|
            #[trigger] runner.run_outcome(stage_args(path@), None, out) && unit_result(out, r),
{
    let args = ["add", "--", path];
    assert(args_view(args@) =~= stage_args(path@));
    run_unit(runner, &args)
}

/// `git reset HEAD -- <path>`.
pub fn unstage_file<R: CommandRunner>(runner: &R, path: &str) -> (r: Result<(), GitError>)
    ensures
        exists|out: Result<Seq<char>, GitErrorView>|
            #[trigger] runner.run_outcome(unstage_args(path@), None, out) && unit_result(out, r),
{
    let args = ["reset", "HEAD", "--", path];
    assert(args_view(args@) =~= unstage_args(path@));
    run_unit(runner, &args)
}

} // verus!
