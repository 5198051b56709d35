//! The files that a commit changed, and the diff of one of them.
use vstd::prelude::*;

use crate::diff::{DiffFile, diff_result, read_diff};
use crate::error::{GitError, GitErrorView};
use crate::log::CommitInfo;
use crate::runner::{CommandRunner, args_view};
use crate::text::{chars_of, lines, lines_exec, split, split_exec, string_of_all, trim, trim_exec};

verus! {

#[derive(Debug, Clone, Copy, PartialEq, Eq, Structural)]
pub enum FileChangeStatus {
    Added,
    Modified,
    Deleted,
    Renamed,
}

#[derive(Debug, Clone, PartialEq)]
pub struct CommitFileEntry {
    pub path: String,
    pub status: FileChangeStatus,
}

pub struct CommitFileEntryView {
    pub path: Seq<char>,
    pub status: FileChangeStatus,
}

impl View for CommitFileEntry {
    type V = CommitFileEntryView;

    open spec fn view(&self) -> CommitFileEntryView {
        CommitFileEntryView { path: self.path@, status: self.status }
    }
}

/// The letter shown for a change in a commit's file list.
pub open spec fn change_letter(s: FileChangeStatus) -> Seq<char> {
    match s {
        FileChangeStatus::Added => "A"@,
        FileChangeStatus::Modified => "M"@,
        FileChangeStatus::Deleted => "D"@,
        FileChangeStatus::Renamed => "R"@,
    }
}

pub fn change_code(status: FileChangeStatus) -> (r: &'static str)
    ensures
        r@ == change_letter(status),
{
    match status {
        FileChangeStatus::Added => "A",
        FileChangeStatus::Modified => "M",
        FileChangeStatus::Deleted => "D",
        FileChangeStatus::Renamed => "R",
    }
}

pub open spec fn entries_view(v: Seq<CommitFileEntry>) -> Seq<CommitFileEntryView> {
    v.map_values(|e: CommitFileEntry| e@)
}

/// The file that a line of `git diff-tree --name-status` names. The line is
/// trimmed and split at tabs; with fewer than two pieces it names none. A
/// status starting with `R` is a rename to the third piece (the second if
/// there is no third); `A` is an addition, `D` a deletion, anything else a
/// modification of the second piece.
pub open spec fn commit_file_of_line(line: Seq<char>) -> Option<CommitFileEntryView> {
    let t = trim(line);
    let parts = split(t, seq!['\t']);
    if t.len() == 0 || parts.len() < 2 {
        None
    } else if parts[0].len() > 0 && parts[0][0] == 'R' {
        Some(CommitFileEntryView {
            path: if parts.len() >= 3 { parts[2] } else { parts[1] },
            status: FileChangeStatus::Renamed,
        })
    } else {
        Some(CommitFileEntryView {
            path: parts[1],
            status: if parts[0] == seq!['A'] {
                FileChangeStatus::Added
            } else if parts[0] == seq!['D'] {
                FileChangeStatus::Deleted
            } else {
                FileChangeStatus::Modified
            },
        })
    }
}

pub open spec fn commit_files_of(ls: Seq<Seq<char>>) -> Seq<CommitFileEntryView>
    decreases ls.len(),
{
    if ls.len() == 0 {
        seq![]
    } else {
        match commit_file_of_line(ls.last()) {
            Some(e) => commit_files_of(ls.drop_last()).push(e),
            None => commit_files_of(ls.drop_last()),
        }
    }
}

fn commit_file_of_line_exec(line: &Vec<char>) -> (r: Option<CommitFileEntry>)
    ensures
        match r {
            Some(e) => commit_file_of_line(line@) == Some(e@),
            None => commit_file_of_line(line@) is None,
        },
{
    let t = trim_exec(line);
    if t.len() == 0 {
        return None;
    }
    let tab = vec!['\t'];
    assert(tab@ =~= seq!['\t']);
    let parts = split_exec(&t, &tab);
    if parts.len() < 2 {
        return None;
    }
    let status_str = &parts[0];
    if status_str.len() > 0 && status_str[0] == 'R' {
        let path = if parts.len() >= 3 { string_of_all(&parts[2]) } else { string_of_all(&parts[1]) };
        Some(CommitFileEntry { path, status: FileChangeStatus::Renamed })
    } else {
        let status = if status_str.len() == 1 && status_str[0] == 'A' {
            assert(status_str@ =~= seq!['A']);
            FileChangeStatus::Added
        } else if status_str.len() == 1 && status_str[0] == 'D' {
            assert(status_str@ =~= seq!['D']);
            FileChangeStatus::Deleted
        } else {
            assert(status_str@ != seq!['A'] && status_str@ != seq!['D']) by {
                if status_str@.len() == 1 {
                    assert(status_str@[0] != 'A' && status_str@[0] != 'D');
                }
            }
            FileChangeStatus::Modified
        };
        Some(CommitFileEntry { path: string_of_all(&parts[1]), status })
    }
}

/// The files listed by `git diff-tree --no-commit-id -r --name-status`.
pub fn parse_commit_files(output: &str) -> (r: Result<Vec<CommitFileEntry>, GitError>)
    ensures
        r matches Ok(v) && entries_view(v@) == commit_files_of(lines(output@)),
{
    let text = chars_of(output);
    let ls = lines_exec(&text);
    let ghost lv = lines(output@);
    let mut entries: Vec<CommitFileEntry> = Vec::new();
    let mut i: usize = 0;
    while i < ls.len()
        invariant
            lv == lines(output@),
            ls@.len() == lv.len(),
            forall|k: int| 0 <= k < ls@.len() ==> #[trigger] ls@[k]@ == lv[k],
            i <= ls@.len(),
            entries_view(entries@) == commit_files_of(lv.take(i as int)),
        decreases ls.len() - i,
    {
        assert(ls@[i as int]@ == lv[i as int]);
        assert(lv.take(i + 1).drop_last() =~= lv.take(i as int));
        match commit_file_of_line_exec(&ls[i]) {
            Some(e) => {
                let ghost prev = entries@;
                entries.push(e);
                assert(entries_view(entries@) =~= entries_view(prev).push(e@));
            },
            None => {},
        }
        i += 1;
    }
    assert(lv.take(ls@.len() as int) =~= lv);
    Ok(entries)
}

pub open spec fn commit_files_args(hash: Seq<char>, first_parent: Option<Seq<char>>) -> Seq<Seq<char>> {
    match first_parent {
        Some(p) => seq!["diff-tree"@, "--no-commit-id"@, "-r"@, "--name-status"@, p, hash],
        None => seq!["diff-tree"@, "--no-commit-id"@, "-r"@, "--name-status"@, hash],
    }
}

pub open spec fn opt_str_view(o: Option<&str>) -> Option<Seq<char>> {
    match o {
        Some(s) => Some(s@),
        None => None,
    }
}

/// The files that commit `hash` changed: against `first_parent` when given,
/// else as `diff-tree` reports the commit itself.
pub fn get_commit_files<R: CommandRunner>(runner: &R, hash: &str, first_parent: Option<&str>) -> (r: Result<
    Vec<CommitFileEntry>,
    GitError,
>)
    ensures
        exists|out: Result<Seq<char>, GitErrorView>|
            #[trigger] runner.run_outcome(commit_files_args(hash@, opt_str_view(first_parent)), None, out) && match out {
                Ok(o) => r matches Ok(v) && entries_view(v@) == commit_files_of(lines(o)),
                Err(e) => r matches Err(err) && err@ == e,
            },
{
    let out = match first_parent {
        Some(parent) => {
            let args = ["diff-tree", "--no-commit-id", "-r", "--name-status", parent, hash];
            assert(args_view(args@) =~= commit_files_args(hash@, opt_str_view(first_parent)));
            runner.run(&args)
        },
        None => {
            let args = ["diff-tree", "--no-commit-id", "-r", "--name-status", hash];
            assert(args_view(args@) =~= commit_files_args(hash@, opt_str_view(first_parent)));
            runner.run(&args)
        },
    };
    match out {
        Ok(output) => parse_commit_files(output.as_str()),
        Err(e) => Err(e),
    }
}

pub open spec fn commit_file_diff_args(hash: Seq<char>, parent_hash: Option<Seq<char>>, file_path: Seq<char>) -> Seq<Seq<char>> {
    match parent_hash {
        Some(p) => seq!["diff"@, p + ".."@ + hash, "--"@, file_path],
        None => seq!["show"@, "--format="@, hash, "--"@, file_path],
    }
}

/// The diff of one file in commit `hash`: against `parent_hash` when given
/// (`git diff <parent>..<hash> -- <file>`), else as `git show` prints it.
pub fn get_commit_file_diff<R: CommandRunner>(runner: &R, hash: &str, parent_hash: Option<&str>, file_path: &str) -> (r:
    Result<Vec<DiffFile>, GitError>)
    ensures
        exists|out: Result<Seq<char>, GitErrorView>|
            #[trigger] runner.run_outcome(commit_file_diff_args(hash@, opt_str_view(parent_hash), file_path@), None, out)
                && match out {
                Ok(o) => diff_result(o, r),
                Err(e) => r matches Err(err) && err@ == e,
            },
{
    let out = match parent_hash {
        Some(parent) => {
            let mut range = String::from_str(parent);
            range.append("..");
            range.append(hash);
            let args = ["diff", range.as_str(), "--", file_path];
            assert(args_view(args@) =~= commit_file_diff_args(hash@, opt_str_view(parent_hash), file_path@));
            runner.run(&args)
        },
        None => {
            let args = ["show", "--format=", hash, "--", file_path];
            assert(args_view(args@) =~= commit_file_diff_args(hash@, opt_str_view(parent_hash), file_path@));
            runner.run(&args)
        },
    };
    match out {
        Ok(output) => read_diff(output.as_str()),
        Err(e) => Err(e),
    }
}

/// `d` is what a diff command whose run gave `out` returns.
pub open spec fn diff_outcome(out: Result<Seq<char>, GitErrorView>, d: Result<Vec<DiffFile>, GitError>) -> bool {
    match out {
        Ok(o) => diff_result(o, d),
        Err(e) => d matches Err(err) && err@ == e,
    }
}

/// The first parent of a commit, if it has one.
pub open spec fn first_parent(c: crate::log::CommitInfoView) -> Option<Seq<char>> {
    if c.parent_hashes.len() > 0 { Some(c.parent_hashes[0]) } else { None }
}

fn first_parent_of(c: &CommitInfo) -> (r: Option<&str>)
    ensures
        opt_str_view(r) == first_parent(c@),
{
    if c.parent_hashes.len() > 0 {
        Some(c.parent_hashes[0].as_str())
    } else {
        None
    }
}

/// The files that commit `c` changed, against its first parent.
pub fn files_of_commit<R: CommandRunner>(runner: &R, c: &CommitInfo) -> (r: Result<Vec<CommitFileEntry>, GitError>)
    ensures
        exists|out: Result<Seq<char>, GitErrorView>|
            #[trigger] runner.run_outcome(commit_files_args(c@.hash, first_parent(c@)), None, out) && match out {
                Ok(o) => r matches Ok(v) && entries_view(v@) == commit_files_of(lines(o)),
                Err(e) => r matches Err(err) && err@ == e,
            },
{
    let fp = first_parent_of(c);
    let r = get_commit_files(runner, c.hash.as_str(), fp);
    let ghost out = choose|out: Result<Seq<char>, GitErrorView>|
        #[trigger] runner.run_outcome(commit_files_args(c.hash@, opt_str_view(fp)), None, out) && match out {
            Ok(o) => r matches Ok(v) && entries_view(v@) == commit_files_of(lines(o)),
            Err(e) => r matches Err(err) && err@ == e,
        };
    assert(c@.hash == c.hash@);
    assert(runner.run_outcome(commit_files_args(c@.hash, first_parent(c@)), None, out));
    r
}

/// The diff of the selected file of commit `c`, against the commit's first
/// parent; none when nothing is selected or the selection is past the
/// files.
pub fn selected_commit_file_diff<R: CommandRunner>(
    runner: &R,
    c: &CommitInfo,
    files: &[CommitFileEntry],
    selected: Option<usize>,
) -> (r: Option<Result<Vec<DiffFile>, GitError>>)
    ensures
        match selected {
            Some(i) => if i < files@.len() {
                exists|out: Result<Seq<char>, GitErrorView>|
                    #[trigger] runner.run_outcome(
                        commit_file_diff_args(c@.hash, first_parent(c@), files@[i as int]@.path),
                        None,
                        out,
                    ) && (r matches Some(d) && diff_outcome(out, d))
            } else {
                r is None
            },
            None => r is None,
        },
{
    let i = match selected {
        Some(i) => i,
        None => return None,
    };
    if i >= files.len() {
        return None;
    }
    let fp = first_parent_of(c);
    let d = get_commit_file_diff(runner, c.hash.as_str(), fp, files[i].path.as_str());
    let ghost out = choose|out: Result<Seq<char>, GitErrorView>|
        #[trigger] runner.run_outcome(commit_file_diff_args(c.hash@, opt_str_view(fp), files[i as int].path@), None, out)
            && diff_outcome(out, d);
    assert(runner.run_outcome(commit_file_diff_args(c@.hash, first_parent(c@), files@[i as int]@.path), None, out));
    Some(d)
}

} // verus!
