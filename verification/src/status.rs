//! `git status --porcelain=v1`: one entry per changed path.
use vstd::prelude::*;

use crate::error::{GitError, GitErrorView, out_view};
use crate::runner::{CommandRunner, args_view};
use crate::text::{chars_of, lines, lines_exec, string_of};

verus! {

/// The state of a path in the index or in the work tree.
#[derive(Debug, Clone, Copy, PartialEq, Eq, Structural)]
pub enum FileStatus {
    Modified,
    Added,
    Deleted,
    Renamed,
    Copied,
    Untracked,
    Unmodified,
}

/// One line of the porcelain status.
#[derive(Debug, Clone, PartialEq)]
pub struct StatusEntry {
    pub path: String,
    pub index_status: FileStatus,
    pub worktree_status: FileStatus,
}

pub struct StatusEntryView {
    pub path: Seq<char>,
    pub index_status: FileStatus,
    pub worktree_status: FileStatus,
}

impl View for StatusEntry {
    type V = StatusEntryView;

    open spec fn view(&self) -> StatusEntryView {
        StatusEntryView { path: self.path@, index_status: self.index_status, worktree_status: self.worktree_status }
    }
}

/// The status that a porcelain status letter stands for; any other
/// character counts as unmodified.
pub open spec fn status_of(c: char) -> FileStatus {
    if c == 'M' {
        FileStatus::Modified
    } else if c == 'A' {
        FileStatus::Added
    } else if c == 'D' {
        FileStatus::Deleted
    } else if c == 'R' {
        FileStatus::Renamed
    } else if c == 'C' {
        FileStatus::Copied
    } else if c == '?' {
        FileStatus::Untracked
    } else {
        FileStatus::Unmodified
    }
}

pub fn parse_file_status(c: char) -> (s: FileStatus)
    ensures
        s == status_of(c),
{
    match c {
        'M' => FileStatus::Modified,
        'A' => FileStatus::Added,
        'D' => FileStatus::Deleted,
        'R' => FileStatus::Renamed,
        'C' => FileStatus::Copied,
        '?' => FileStatus::Untracked,
        _ => FileStatus::Unmodified,
    }
}

/// The status letter shown for a status.
pub open spec fn status_code(s: FileStatus) -> Seq<char> {
    match s {
        FileStatus::Modified => "M"@,
        FileStatus::Added => "A"@,
        FileStatus::Deleted => "D"@,
        FileStatus::Renamed => "R"@,
        FileStatus::Copied => "C"@,
        FileStatus::Untracked => "?"@,
        FileStatus::Unmodified => " "@,
    }
}

pub fn file_status_code(status: &FileStatus) -> (r: &'static str)
    ensures
        r@ == status_code(*status),
{
    match status {
        FileStatus::Modified => "M",
        FileStatus::Added => "A",
        FileStatus::Deleted => "D",
        FileStatus::Renamed => "R",
        FileStatus::Copied => "C",
        FileStatus::Untracked => "?",
        FileStatus::Unmodified => " ",
    }
}

/// A path is staged when its index status shows a change.
pub open spec fn staged(e: StatusEntryView) -> bool {
    e.index_status != FileStatus::Unmodified && e.index_status != FileStatus::Untracked
}

impl StatusEntry {
    pub fn is_staged(&self) -> (b: bool)
        ensures
            b == staged(self@),
    {
        match self.index_status {
            FileStatus::Unmodified | FileStatus::Untracked => false,
            _ => true,
        }
    }
}

/// How many entries are staged; how many are changed in the work tree but
/// not staged (untracked ones aside); how many are untracked.
pub open spec fn change_counts_of(es: Seq<StatusEntryView>) -> (nat, nat, nat)
    decreases es.len(),
{
    if es.len() == 0 {
        (0, 0, 0)
    } else {
        let (s, u, t) = change_counts_of(es.drop_last());
        let e = es.last();
        (
            s + if staged(e) { 1nat } else { 0nat },
            u + if !staged(e) && e.worktree_status != FileStatus::Untracked { 1nat } else { 0nat },
            t + if e.index_status == FileStatus::Untracked { 1nat } else { 0nat },
        )
    }
}

/// The staged, unstaged and untracked counts of a status listing.
pub fn change_counts(status: &[StatusEntry]) -> (r: (usize, usize, usize))
    ensures
        (r.0 as nat, r.1 as nat, r.2 as nat) == change_counts_of(status@.map_values(|e: StatusEntry| e@)),
{
    let ghost ev = status@.map_values(|e: StatusEntry| e@);
    let mut staged_n: usize = 0;
    let mut unstaged_n: usize = 0;
    let mut untracked_n: usize = 0;
    let mut i: usize = 0;
    assert(ev.take(0) =~= Seq::<StatusEntryView>::empty());
    while i < status.len()
        invariant
            ev == status@.map_values(|e: StatusEntry| e@),
            i <= status@.len(),
            (staged_n as nat, unstaged_n as nat, untracked_n as nat) == change_counts_of(ev.take(i as int)),
            staged_n <= i,
            unstaged_n <= i,
            untracked_n <= i,
        decreases status.len() - i,
    {
        let e = &status[i];
        assert(ev.take(i + 1).drop_last() =~= ev.take(i as int));
        assert(ev[i as int] == e@);
        let st = e.is_staged();
        if st {
            staged_n += 1;
        }
        if !st && e.worktree_status != FileStatus::Untracked {
            unstaged_n += 1;
        }
        if e.index_status == FileStatus::Untracked {
            untracked_n += 1;
        }
        i += 1;
    }
    assert(ev.take(status@.len() as int) =~= ev);
    (staged_n, unstaged_n, untracked_n)
}

/// Bytes that `c` takes in UTF-8.
pub open spec fn utf8_len(c: char) -> nat {
    if (c as u32) < 0x80 {
        1
    } else if (c as u32) < 0x800 {
        2
    } else if (c as u32) < 0x10000 {
        3
    } else {
        4
    }
}

/// Bytes that `s` takes in UTF-8 (`str::len`).
pub open spec fn byte_len(s: Seq<char>) -> nat
    decreases s.len(),
{
    if s.len() == 0 {
        0
    } else {
        byte_len(s.drop_last()) + utf8_len(s.last())
    }
}

/// The number of characters that make up the first three bytes of `s`, if
/// byte 3 is a character boundary.
pub open spec fn chars_in_3_bytes(s: Seq<char>) -> Option<int> {
    if s.len() >= 1 && byte_len(s.take(1)) == 3 {
        Some(1)
    } else if s.len() >= 2 && byte_len(s.take(2)) == 3 {
        Some(2)
    } else if s.len() >= 3 && byte_len(s.take(3)) == 3 {
        Some(3)
    } else {
        None
    }
}

/// A line that `parse_status` reads: shorter than 4 bytes (and skipped), or
/// with a character boundary at byte 3, where the path begins.
pub open spec fn status_line_ok(line: Seq<char>) -> bool {
    byte_len(line) < 4 || chars_in_3_bytes(line) is Some
}

pub open spec fn status_output_ok(output: Seq<char>) -> bool {
    forall|i: int| 0 <= i < lines(output).len() ==> status_line_ok(#[trigger] lines(output)[i])
}

pub open spec fn status_entry(line: Seq<char>) -> StatusEntryView {
    StatusEntryView {
        path: line.skip(chars_in_3_bytes(line)->0),
        index_status: status_of(line[0]),
        worktree_status: status_of(line[1]),
    }
}

/// The entries of a porcelain status: one per line of at least 4 bytes.
pub open spec fn status_entries(ls: Seq<Seq<char>>) -> Seq<StatusEntryView>
    decreases ls.len(),
{
    if ls.len() == 0 {
        seq![]
    } else {
        let prev = status_entries(ls.drop_last());
        if byte_len(ls.last()) < 4 {
            prev
        } else {
            prev.push(status_entry(ls.last()))
        }
    }
}

proof fn lemma_byte_len_ge_len(s: Seq<char>)
    ensures
        byte_len(s) >= s.len(),
    decreases s.len(),
{
    if s.len() > 0 {
        lemma_byte_len_ge_len(s.drop_last());
    }
}

fn utf8_len_exec(c: char) -> (n: usize)
    ensures
        n == utf8_len(c),
{
    let u = c as u32;
    if u < 0x80 {
        1
    } else if u < 0x800 {
        2
    } else if u < 0x10000 {
        3
    } else {
        4
    }
}

/// `byte_len(line.take(k))` for `k <= 4`.
fn prefix_bytes(line: &Vec<char>, k: usize) -> (n: usize)
    requires
        k <= 4,
        k <= line.len(),
    ensures
        n == byte_len(line@.take(k as int)),
        n <= 16,
{
    let mut n: usize = 0;
    let mut i: usize = 0;
    while i < k
        invariant
            i <= k <= 4,
            k <= line.len(),
            n == byte_len(line@.take(i as int)),
            n <= 4 * i,
        decreases k - i,
    {
        assert(line@.take(i + 1).drop_last() =~= line@.take(i as int));
        n = n + utf8_len_exec(line[i]);
        i += 1;
    }
    n
}

/// Whether `line` is at least 4 bytes long.
fn is_long(line: &Vec<char>) -> (b: bool)
    ensures
        b == (byte_len(line@) >= 4),
{
    proof {
        lemma_byte_len_ge_len(line@);
    }
    if line.len() >= 4 {
        true
    } else {
        assert(line@.take(line.len() as int) =~= line@);
        prefix_bytes(line, line.len()) >= 4
    }
}

fn chars_in_3_bytes_exec(line: &Vec<char>) -> (r: Option<usize>)
    ensures
        match r {
            Some(k) => chars_in_3_bytes(line@) == Some(k as int),
            None => chars_in_3_bytes(line@) is None,
        },
{
    if line.len() >= 1 && prefix_bytes(line, 1) == 3 {
        Some(1)
    } else if line.len() >= 2 && prefix_bytes(line, 2) == 3 {
        Some(2)
    } else if line.len() >= 3 && prefix_bytes(line, 3) == 3 {
        Some(3)
    } else {
        None
    }
}

/// Whether every line of a porcelain status can be read.
pub fn status_output_fits(output: &str) -> (b: bool)
    ensures
        b == status_output_ok(output@),
{
    let text = chars_of(output);
    let ls = lines_exec(&text);
    let mut i: usize = 0;
    while i < ls.len()
        invariant
            text@ == output@,
            ls@.len() == lines(output@).len(),
            forall|k: int| 0 <= k < ls@.len() ==> #[trigger] ls@[k]@ == lines(output@)[k],
            i <= ls@.len(),
            forall|k: int| 0 <= k < i ==> status_line_ok(#[trigger] lines(output@)[k]),
        decreases ls.len() - i,
    {
        let line = &ls[i];
        assert(line@ == lines(output@)[i as int]);
        if is_long(line) && chars_in_3_bytes_exec(line).is_none() {
            return false;
        }
        i += 1;
    }
    true
}

/// The entries of `git status --porcelain=v1` output: for each line of at
/// least 4 bytes, its first two characters as index and work-tree status and
/// what follows the first 3 bytes as the path.
pub fn parse_status(output: &str) -> (r: Result<Vec<StatusEntry>, GitError>)
    requires
        status_output_ok(output@),
    ensures
        r matches Ok(v) && v@.map_values(|e: StatusEntry| e@) == status_entries(lines(output@)),
{
    let text = chars_of(output);
    let ls = lines_exec(&text);
    let ghost lv = lines(output@);
    let mut entries: Vec<StatusEntry> = Vec::new();
    let mut i: usize = 0;
    while i < ls.len()
        invariant
            lv == lines(output@),
            status_output_ok(output@),
            ls@.len() == lv.len(),
            forall|k: int| 0 <= k < ls@.len() ==> #[trigger] ls@[k]@ == lv[k],
            i <= ls@.len(),
            entries@.map_values(|e: StatusEntry| e@) == status_entries(lv.take(i as int)),
        decreases ls.len() - i,
    {
        let line = &ls[i];
        assert(line@ == lv[i as int]);
        assert(lv.take(i + 1).drop_last() =~= lv.take(i as int));
        assert(status_line_ok(lv[i as int]));
        if is_long(line) {
            let k = match chars_in_3_bytes_exec(line) {
                Some(k) => k,
                None => {
                    assert(false);
                    0
                },
            };
            proof {
                lemma_byte_len_ge_len(line@.take(k as int));
                if line@.len() == k {
                    assert(line@.take(k as int) =~= line@);
                }
            }
            let entry = StatusEntry {
                path: string_of(line, k, line.len()),
                index_status: parse_file_status(line[0]),
                worktree_status: parse_file_status(line[1]),
            };
            assert(line@.subrange(k as int, line@.len() as int) =~= line@.skip(k as int));
            let ghost prev = entries@;
            entries.push(entry);
            assert(entries@.map_values(|e: StatusEntry| e@) =~= prev.map_values(|e: StatusEntry| e@).push(entry@));
        }
        i += 1;
    }
    assert(lv.take(ls@.len() as int) =~= lv);
    Ok(entries)
}

/// The arguments of the status command.
pub open spec fn status_args() -> Seq<Seq<char>> {
    seq!["status"@, "--porcelain=v1"@]
}

/// Runs `git status --porcelain=v1` and reads its entries. An output that
/// `parse_status` cannot read is reported as a parse error.
pub fn get_status<R: CommandRunner>(runner: &R) -> (r: Result<Vec<StatusEntry>, GitError>)
    ensures
        exists|out: Result<Seq<char>, GitErrorView>|
            #[trigger] runner.run_outcome(status_args(), None, out) && match out {
                Ok(o) => if status_output_ok(o) {
                    r matches Ok(v) && v@.map_values(|e: StatusEntry| e@) == status_entries(lines(o))
                } else {
                    r matches Err(GitError::ParseError(_))
                },
                Err(e) => r matches Err(err) && err@ == e,
            },
{
    let args = ["status", "--porcelain=v1"];
    let r0 = runner.run(&args);
    assert(args_view(args@) =~= status_args());
    match r0 {
        Ok(output) => {
            if status_output_fits(output.as_str()) {
                parse_status(output.as_str())
            } else {
                Err(GitError::ParseError(String::from_str("status line not split at a character boundary")))
            }
        },
        Err(e) => Err(e),
    }
}

} // verus!
