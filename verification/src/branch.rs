//! Branches: `git branch -v` parsing and the branch commands.
use vstd::prelude::*;

use crate::error::{GitError, GitErrorView, error_message};
use crate::runner::{CommandRunner, args_view, run_unit, unit_result};
use crate::text::{chars_of, contains, contains_exec, lines, lines_exec, splitn3, splitn3_exec, string_of_all, trim, trim_exec, trim_start_any, trim_start_any_exec};

verus! {

#[derive(Debug, Clone, PartialEq)]
pub struct BranchInfo {
    pub name: String,
    pub is_current: bool,
    pub upstream: Option<String>,
    pub short_hash: String,
    pub last_commit: String,
}

pub struct BranchInfoView {
    pub name: Seq<char>,
    pub is_current: bool,
    pub upstream: Option<Seq<char>>,
    pub short_hash: Seq<char>,
    pub last_commit: Seq<char>,
}

impl View for BranchInfo {
    type V = BranchInfoView;

    open spec fn view(&self) -> BranchInfoView {
        BranchInfoView {
            name: self.name@,
            is_current: self.is_current,
            upstream: match self.upstream {
                Some(u) => Some(u@),
                None => None,
            },
            short_hash: self.short_hash@,
            last_commit: self.last_commit@,
        }
    }
}

pub open spec fn arrow() -> Seq<char> {
    seq![' ', '-', '>', ' ']
}

/// The branch that a line of `git branch -v` describes. The line is trimmed;
/// an empty line and a symbolic ref (`a -> b`) describe none. After any
/// leading `*` and spaces, the text up to the first space is the name, the
/// text up to the second space the short hash, and the rest the last commit;
/// a line with no space describes no branch.
pub open spec fn branch_of_line(line: Seq<char>) -> Option<BranchInfoView> {
    let t = trim(line);
    if t.len() == 0 {
        None
    } else {
        let rest = trim_start_any(t, seq!['*', ' ']);
        let parts = splitn3(rest, ' ');
        if contains(rest, arrow()) || parts.len() < 2 {
            None
        } else {
            Some(BranchInfoView {
                name: parts[0],
                is_current: t[0] == '*',
                upstream: None,
                short_hash: parts[1],
                last_commit: if parts.len() >= 3 { parts[2] } else { seq![] },
            })
        }
    }
}

pub open spec fn branches_of(ls: Seq<Seq<char>>) -> Seq<BranchInfoView>
    decreases ls.len(),
{
    if ls.len() == 0 {
        seq![]
    } else {
        match branch_of_line(ls.last()) {
            Some(b) => branches_of(ls.drop_last()).push(b),
            None => branches_of(ls.drop_last()),
        }
    }
}

pub open spec fn branches_view(v: Seq<BranchInfo>) -> Seq<BranchInfoView> {
    v.map_values(|b: BranchInfo| b@)
}

fn branch_of_line_exec(line: &Vec<char>) -> (r: Option<BranchInfo>)
    ensures
        match r {
            Some(b) => branch_of_line(line@) == Some(b@),
            None => branch_of_line(line@) is None,
        },
{
    let t = trim_exec(line);
    if t.len() == 0 {
        return None;
    }
    let is_current = t[0] == '*';
    let set = vec!['*', ' '];
    assert(set@ =~= seq!['*', ' ']);
    let rest = trim_start_any_exec(&t, &set);
    let arrow_chars = vec![' ', '-', '>', ' '];
    assert(arrow_chars@ =~= arrow());
    if contains_exec(&rest, &arrow_chars) {
        return None;
    }
    let parts = splitn3_exec(&rest, ' ');
    if parts.len() < 2 {
        return None;
    }
    let last_commit = if parts.len() >= 3 {
        string_of_all(&parts[2])
    } else {
        String::new()
    };
    let b = BranchInfo {
        name: string_of_all(&parts[0]),
        is_current,
        upstream: None,
        short_hash: string_of_all(&parts[1]),
        last_commit,
    };
    assert(b@.last_commit =~= (if parts@.len() >= 3 { splitn3(rest@, ' ')[2] } else { seq![] }));
    Some(b)
}

/// The branches listed by `git branch -v --no-color`, in order.
pub fn parse_branches(output: &str) -> (r: Result<Vec<BranchInfo>, GitError>)
    ensures
        r matches Ok(v) && branches_view(v@) == branches_of(lines(output@)),
{
    let text = chars_of(output);
    let ls = lines_exec(&text);
    let ghost lv = lines(output@);
    let mut branches: Vec<BranchInfo> = Vec::new();
    let mut i: usize = 0;
    while i < ls.len()
        invariant
            lv == lines(output@),
            ls@.len() == lv.len(),
            forall|k: int| 0 <= k < ls@.len() ==> #[trigger] ls@[k]@ == lv[k],
            i <= ls@.len(),
            branches_view(branches@) == branches_of(lv.take(i as int)),
        decreases ls.len() - i,
    {
        assert(ls@[i as int]@ == lv[i as int]);
        assert(lv.take(i + 1).drop_last() =~= lv.take(i as int));
        match branch_of_line_exec(&ls[i]) {
            Some(b) => {
                let ghost prev = branches@;
                branches.push(b);
                assert(branches_view(branches@) =~= branches_view(prev).push(b@));
            },
            None => {},
        }
        i += 1;
    }
    assert(lv.take(ls@.len() as int) =~= lv);
    Ok(branches)
}

pub open spec fn current_branch_args() -> Seq<Seq<char>> {
    seq!["rev-parse"@, "--abbrev-ref"@, "HEAD"@]
}

pub open spec fn list_branches_args() -> Seq<Seq<char>> {
    seq!["branch"@, "-v"@, "--no-color"@]
}

pub open spec fn create_branch_args(name: Seq<char>) -> Seq<Seq<char>> {
    seq!["branch"@, name]
}

pub open spec fn checkout_args(name: Seq<char>) -> Seq<Seq<char>> {
    seq!["checkout"@, name]
}

pub open spec fn delete_branch_args(name: Seq<char>) -> Seq<Seq<char>> {
    seq!["branch"@, "-d"@, name]
}

/// The name of the checked-out branch: the trimmed output of
/// `git rev-parse --abbrev-ref HEAD`.
pub fn current_branch<R: CommandRunner>(runner: &R) -> (r: Result<String, GitError>)
    ensures
        exists|out: Result<Seq<char>, GitErrorView>|
            #[trigger] runner.run_outcome(current_branch_args(), None, out) && match out {
                Ok(o) => r matches Ok(s) && s@ == trim(o),
                Err(e) => r matches Err(err) && err@ == e,
            },
{
    let args = ["rev-parse", "--abbrev-ref", "HEAD"];
    assert(args_view(args@) =~= current_branch_args());
    match runner.run(&args) {
        Ok(output) => {
            let text = chars_of(output.as_str());
            let t = trim_exec(&text);
            Ok(string_of_all(&t))
        },
        Err(e) => Err(e),
    }
}

/// The branches that `git branch -v --no-color` lists.
pub fn list_branches<R: CommandRunner>(runner: &R) -> (r: Result<Vec<BranchInfo>, GitError>)
    ensures
        exists|out: Result<Seq<char>, GitErrorView>|
            #[trigger] runner.run_outcome(list_branches_args(), None, out) && match out {
                Ok(o) => r matches Ok(v) && branches_view(v@) == branches_of(lines(o)),
                Err(e) => r matches Err(err) && err@ == e,
            },
{
    let args = ["branch", "-v", "--no-color"];
    assert(args_view(args@) =~= list_branches_args());
    match runner.run(&args) {
        Ok(output) => parse_branches(output.as_str()),
        Err(e) => Err(e),
    }
}

/// `git branch <name>`.
pub fn create_branch<R: CommandRunner>(runner: &R, name: &str) -> (r: Result<(), GitError>)
    ensures
        exists|out: Result<Seq<char>, GitErrorView>|
            #[trigger] runner.run_outcome(create_branch_args(name@), None, out) && unit_result(out, r),
{
    let args = ["branch", name];
    assert(args_view(args@) =~= create_branch_args(name@));
    run_unit(runner, &args)
}

/// `git checkout <name>`.
pub fn checkout<R: CommandRunner>(runner: &R, name: &str) -> (r: Result<(), GitError>)
    ensures
        exists|out: Result<Seq<char>, GitErrorView>|
            #[trigger] runner.run_outcome(checkout_args(name@), None, out) && unit_result(out, r),
{
    let args = ["checkout", name];
    assert(args_view(args@) =~= checkout_args(name@));
    run_unit(runner, &args)
}

/// `git branch -d <name>`.
pub fn delete_branch<R: CommandRunner>(runner: &R, name: &str) -> (r: Result<(), GitError>)
    ensures
        exists|out: Result<Seq<char>, GitErrorView>|
            #[trigger] runner.run_outcome(delete_branch_args(name@), None, out) && unit_result(out, r),
{
    let args = ["branch", "-d", name];
    assert(args_view(args@) =~= delete_branch_args(name@));
    run_unit(runner, &args)
}

/// The branch under the selection, if the selection is inside the list.
pub open spec fn selected_branch(bs: Seq<BranchInfoView>, selected: Option<usize>) -> Option<BranchInfoView> {
    match selected {
        Some(i) => if i < bs.len() { Some(bs[i as int]) } else { None },
        None => None,
    }
}

/// What came of deleting the selected branch.
#[derive(Debug, Clone)]
pub enum BranchDeletion {
    /// Nothing is selected, or the selection is past the list.
    NoBranch,
    /// The checked-out branch is not deleted.
    RefusedCurrent,
    /// git deleted the branch of that name.
    Deleted(String),
    /// git refused.
    Failed(GitError),
}

/// Deletes the selected branch with `git branch -d`, unless nothing is
/// selected or it is the checked-out branch.
pub fn delete_selected_branch<R: CommandRunner>(runner: &R, branches: &[BranchInfo], selected: Option<usize>) -> (r: BranchDeletion)
    ensures
        match selected_branch(branches_view(branches@), selected) {
            None => r is NoBranch,
            Some(b) => if b.is_current {
                r is RefusedCurrent
            } else {
                exists|out: Result<Seq<char>, GitErrorView>|
                    #[trigger] runner.run_outcome(delete_branch_args(b.name), None, out) && match out {
                        Ok(_) => r matches BranchDeletion::Deleted(n) && n@ == b.name,
                        Err(e) => r matches BranchDeletion::Failed(err) && err@ == e,
                    }
            },
        },
{
    let i = match selected {
        Some(i) => i,
        None => return BranchDeletion::NoBranch,
    };
    if i >= branches.len() {
        return BranchDeletion::NoBranch;
    }
    let b = &branches[i];
    assert(branches_view(branches@)[i as int] == b@);
    if b.is_current {
        return BranchDeletion::RefusedCurrent;
    }
    let res = delete_branch(runner, b.name.as_str());
    let ghost out = choose|out: Result<Seq<char>, GitErrorView>|
        #[trigger] runner.run_outcome(delete_branch_args(b.name@), None, out) && unit_result(out, res);
    let r = match res {
        Ok(()) => {
            let n = b.name.clone();
            assert(n@ == b.name@);
            BranchDeletion::Deleted(n)
        },
        Err(e) => BranchDeletion::Failed(e),
    };
    let ghost sb = selected_branch(branches_view(branches@), selected)->0;
    assert(sb == b@);
    assert(sb.name == b.name@);
    assert(runner.run_outcome(delete_branch_args(sb.name), None, out));
    r
}

/// The status message for a deletion: none when nothing was selected.
pub fn deletion_message(d: &BranchDeletion) -> (r: Option<String>)
    ensures
        match d {
            BranchDeletion::NoBranch => r is None,
            BranchDeletion::RefusedCurrent => r matches Some(s) && s@ == "Cannot delete current branch"@,
            BranchDeletion::Deleted(n) => r matches Some(s) && s@ == "Deleted branch '"@ + n@ + "'"@,
            BranchDeletion::Failed(e) => r matches Some(s) && s@ == "Delete branch failed: "@ + error_message(e@),
        },
{
    match d {
        BranchDeletion::NoBranch => None,
        BranchDeletion::RefusedCurrent => Some(String::from_str("Cannot delete current branch")),
        BranchDeletion::Deleted(n) => {
            let mut s = String::from_str("Deleted branch '");
            s.append(n.as_str());
            s.append("'");
            Some(s)
        },
        BranchDeletion::Failed(e) => {
            let mut s = String::from_str("Delete branch failed: ");
            let m = e.message();
            s.append(m.as_str());
            Some(s)
        },
    }
}

} // verus!
