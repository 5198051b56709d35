//! Exchanging commits with a remote.
use vstd::prelude::*;

use crate::branch::{current_branch, current_branch_args};
use crate::error::{GitError, GitErrorView, error_message};
use crate::runner::{CommandRunner, args_view, run_unit, unit_result};
use crate::text::trim;

verus! {

pub open spec fn push_args(remote: Seq<char>, branch: Seq<char>) -> Seq<Seq<char>> {
    seq!["push"@, remote, branch]
}

pub open spec fn pull_args(remote: Seq<char>, branch: Seq<char>) -> Seq<Seq<char>> {
    seq!["pull"@, remote, branch]
}

pub open spec fn fetch_args() -> Seq<Seq<char>> {
    seq!["fetch"@, "--all"@]
}

/// `git push <remote> <branch>`.
pub fn push<R: CommandRunner>(runner: &R, remote: &str, branch: &str) -> (r: Result<(), GitError>)
    ensures
        exists|out: Result<Seq<char>, GitErrorView>|
            #[trigger] runner.run_outcome(push_args(remote@, branch@), None, out) && unit_result(out, r),
{
    let args = ["push", remote, branch];
    assert(args_view(args@) =~= push_args(remote@, branch@));
    run_unit(runner, &args)
}

/// `git pull <remote> <branch>`.
pub fn pull<R: CommandRunner>(runner: &R, remote: &str, branch: &str) -> (r: Result<(), GitError>)
    ensures
        exists|out: Result<Seq<char>, GitErrorView>|
            #[trigger] runner.run_outcome(pull_args(remote@, branch@), None, out) && unit_result(out, r),
{
    let args = ["pull", remote, branch];
    assert(args_view(args@) =~= pull_args(remote@, branch@));
    run_unit(runner, &args)
}

/// `git fetch --all`.
pub fn fetch<R: CommandRunner>(runner: &R) -> (r: Result<(), GitError>)
    ensures
        exists|out: Result<Seq<char>, GitErrorView>|
            #[trigger] runner.run_outcome(fetch_args(), None, out) && unit_result(out, r),
{
    let args = ["fetch", "--all"];
    assert(args_view(args@) =~= fetch_args());
    run_unit(runner, &args)
}

/// Pushes the checked-out branch to `origin`: asks git for the branch, then
/// runs `git push origin <branch>`; the branch's name when both succeed,
/// else the first error.
pub fn push_current_branch<R: CommandRunner>(runner: &R) -> (r: Result<String, GitError>)
    ensures
        exists|o1: Result<Seq<char>, GitErrorView>|
            #[trigger] runner.run_outcome(current_branch_args(), None, o1) && match o1 {
                Err(e) => r matches Err(err) && err@ == e,
                Ok(o) => exists|o2: Result<Seq<char>, GitErrorView>|
                    #[trigger] runner.run_outcome(push_args("origin"@, trim(o)), None, o2) && match o2 {
                        Ok(_) => r matches Ok(b) && b@ == trim(o),
                        Err(e) => r matches Err(err) && err@ == e,
                    },
            },
{
    let cb = current_branch(runner);
    let ghost o1 = choose|o1: Result<Seq<char>, GitErrorView>|
        #[trigger] runner.run_outcome(current_branch_args(), None, o1) && match o1 {
            Ok(o) => cb matches Ok(s) && s@ == trim(o),
            Err(e) => cb matches Err(err) && err@ == e,
        };
    assert(runner.run_outcome(current_branch_args(), None, o1));
    match cb {
        Err(e) => Err(e),
        Ok(branch) => {
            let res = push(runner, "origin", branch.as_str());
            let ghost o2 = choose|o2: Result<Seq<char>, GitErrorView>|
                #[trigger] runner.run_outcome(push_args("origin"@, branch@), None, o2) && unit_result(o2, res);
            assert(runner.run_outcome(push_args("origin"@, branch@), None, o2));
            match res {
                Ok(()) => Ok(branch),
                Err(e) => Err(e),
            }
        },
    }
}

/// The status message after `push_current_branch`.
pub fn push_message(r: &Result<String, GitError>) -> (s: String)
    ensures
        s@ == match r {
            Ok(b) => "Pushed to origin/"@ + b@,
            Err(e) => "Push failed: "@ + error_message(e@),
        },
{
    match r {
        Ok(b) => {
            let mut s = String::from_str("Pushed to origin/");
            s.append(b.as_str());
            s
        },
        Err(e) => {
            let mut s = String::from_str("Push failed: ");
            let m = e.message();
            s.append(m.as_str());
            s
        },
    }
}

/// Pulls the checked-out branch from `origin`: asks git for the branch, then
/// runs `git pull origin <branch>`; the branch's name when both succeed,
/// else the first error.
pub fn pull_current_branch<R: CommandRunner>(runner: &R) -> (r: Result<String, GitError>)
    ensures
        exists|o1: Result<Seq<char>, GitErrorView>|
            #[trigger] runner.run_outcome(current_branch_args(), None, o1) && match o1 {
                Err(e) => r matches Err(err) && err@ == e,
                Ok(o) => exists|o2: Result<Seq<char>, GitErrorView>|
                    #[trigger] runner.run_outcome(pull_args("origin"@, trim(o)), None, o2) && match o2 {
                        Ok(_) => r matches Ok(b) && b@ == trim(o),
                        Err(e) => r matches Err(err) && err@ == e,
                    },
            },
{
    let cb = current_branch(runner);
    let ghost o1 = choose|o1: Result<Seq<char>, GitErrorView>|
        #[trigger] runner.run_outcome(current_branch_args(), None, o1) && match o1 {
            Ok(o) => cb matches Ok(s) && s@ == trim(o),
            Err(e) => cb matches Err(err) && err@ == e,
        };
    assert(runner.run_outcome(current_branch_args(), None, o1));
    match cb {
        Err(e) => Err(e),
        Ok(branch) => {
            let res = pull(runner, "origin", branch.as_str());
            let ghost o2 = choose|o2: Result<Seq<char>, GitErrorView>|
                #[trigger] runner.run_outcome(pull_args("origin"@, branch@), None, o2) && unit_result(o2, res);
            assert(runner.run_outcome(pull_args("origin"@, branch@), None, o2));
            match res {
                Ok(()) => Ok(branch),
                Err(e) => Err(e),
            }
        },
    }
}

/// The status message after `pull_current_branch`.
pub fn pull_message(r: &Result<String, GitError>) -> (s: String)
    ensures
        s@ == match r {
            Ok(b) => "Pulled from origin/"@ + b@,
            Err(e) => "Pull failed: "@ + error_message(e@),
        },
{
    match r {
        Ok(b) => {
            let mut s = String::from_str("Pulled from origin/");
            s.append(b.as_str());
            s
        },
        Err(e) => {
            let mut s = String::from_str("Pull failed: ");
            let m = e.message();
            s.append(m.as_str());
            s
        },
    }
}

} // verus!
