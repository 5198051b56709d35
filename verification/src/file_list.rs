//! The working tree's changed files as the detail view lists them: a
//! section of staged files, one of files modified in the work tree and one
//! of untracked files, each under a header and left out when empty.
use vstd::prelude::*;

use crate::commit_detail::diff_outcome;
use crate::diff::{file_diff_args, get_diff_for_file, DiffFile};
use crate::error::{GitError, GitErrorView};
use crate::runner::{CommandRunner, unit_result};
use crate::stage::{stage_args, stage_file, unstage_args, unstage_file};
use crate::status::{staged, FileStatus, StatusEntry, StatusEntryView};
use crate::text::{decimal, decimal_string};

verus! {

#[derive(Debug, Clone, Copy, PartialEq, Eq, Structural)]
pub enum FileSection {
    Staged,
    Modified,
    Untracked,
}

/// Whether an entry is listed in a section. A file both staged and
/// modified in the work tree is listed in both.
pub open spec fn in_section(e: StatusEntryView, s: FileSection) -> bool {
    match s {
        FileSection::Staged => staged(e),
        FileSection::Modified => e.worktree_status != FileStatus::Unmodified && e.worktree_status
            != FileStatus::Untracked,
        FileSection::Untracked => e.index_status == FileStatus::Untracked,
    }
}

/// The positions of the entries listed in a section, in order.
pub open spec fn section_indices(es: Seq<StatusEntryView>, s: FileSection) -> Seq<usize>
    decreases es.len(),
{
    if es.len() == 0 {
        seq![]
    } else {
        section_indices(es.drop_last(), s) + if in_section(es.last(), s) {
            seq![(es.len() - 1) as usize]
        } else {
            seq![]
        }
    }
}

/// The rows of a section: its header (no entry) and then its entries;
/// nothing when it has no entry.
pub open spec fn section_rows(es: Seq<StatusEntryView>, s: FileSection) -> Seq<(FileSection, Option<usize>)> {
    let idx = section_indices(es, s);
    if idx.len() == 0 {
        seq![]
    } else {
        seq![(s, None::<usize>)] + idx.map_values(|i: usize| (s, Some(i)))
    }
}

/// The rows of the list: the staged, modified and untracked sections.
pub open spec fn file_list_rows(es: Seq<StatusEntryView>) -> Seq<(FileSection, Option<usize>)> {
    section_rows(es, FileSection::Staged) + section_rows(es, FileSection::Modified) + section_rows(
        es,
        FileSection::Untracked,
    )
}

fn in_section_exec(e: &StatusEntry, s: FileSection) -> (b: bool)
    ensures
        b == in_section(e@, s),
{
    match s {
        FileSection::Staged => e.is_staged(),
        FileSection::Modified => e.worktree_status != FileStatus::Unmodified && e.worktree_status
            != FileStatus::Untracked,
        FileSection::Untracked => e.index_status == FileStatus::Untracked,
    }
}

fn append_section(rows: &mut Vec<(FileSection, Option<usize>)>, status: &[StatusEntry], s: FileSection)
    ensures
        final(rows)@ == old(rows)@ + section_rows(status@.map_values(|e: StatusEntry| e@), s),
{
    let ghost ev = status@.map_values(|e: StatusEntry| e@);
    let mut idx: Vec<usize> = Vec::new();
    let mut i: usize = 0;
    assert(ev.take(0) =~= Seq::<StatusEntryView>::empty());
    while i < status.len()
        invariant
            ev == status@.map_values(|e: StatusEntry| e@),
            i <= status@.len(),
            idx@ == section_indices(ev.take(i as int), s),
        decreases status.len() - i,
    {
        assert(ev.take(i + 1).drop_last() =~= ev.take(i as int));
        assert(ev[i as int] == status@[i as int]@);
        if in_section_exec(&status[i], s) {
            idx.push(i);
        }
        i += 1;
    }
    assert(ev.take(status@.len() as int) =~= ev);
    if idx.len() > 0 {
        let ghost start = rows@;
        rows.push((s, None));
        let mut k: usize = 0;
        while k < idx.len()
            invariant
                k <= idx@.len(),
                rows@ == start + seq![(s, None::<usize>)] + idx@.take(k as int).map_values(|i: usize| (s, Some(i))),
            decreases idx.len() - k,
        {
            rows.push((s, Some(idx[k])));
            assert(idx@.take(k + 1).map_values(|i: usize| (s, Some(i))) =~= idx@.take(k as int).map_values(
                |i: usize| (s, Some(i)),
            ).push((s, Some(idx@[k as int]))));
            k += 1;
        }
        assert(idx@.take(idx@.len() as int) =~= idx@);
        assert(rows@ =~= start + section_rows(ev, s));
    } else {
        assert(rows@ =~= rows@ + section_rows(ev, s));
    }
}

/// The rows of the changed-files list of `status`: each a section header
/// (no entry) or the position of a status entry in its section.
pub fn file_list(status: &[StatusEntry]) -> (rows: Vec<(FileSection, Option<usize>)>)
    ensures
        rows@ == file_list_rows(status@.map_values(|e: StatusEntry| e@)),
{
    let mut rows: Vec<(FileSection, Option<usize>)> = Vec::new();
    append_section(&mut rows, status, FileSection::Staged);
    append_section(&mut rows, status, FileSection::Modified);
    append_section(&mut rows, status, FileSection::Untracked);
    assert(rows@ =~= file_list_rows(status@.map_values(|e: StatusEntry| e@)));
    rows
}

/// What a selected row of the list points at: the status entry and whether
/// it is listed as staged; nothing for a header or past the end.
pub open spec fn row_target(rows: Seq<(FileSection, Option<usize>)>, selected: Option<usize>) -> Option<(usize, bool)> {
    match selected {
        Some(v) => if v < rows.len() {
            match rows[v as int].1 {
                Some(i) => Some((i, rows[v as int].0 == FileSection::Staged)),
                None => None,
            }
        } else {
            None
        },
        None => None,
    }
}

pub fn selected_file(rows: &Vec<(FileSection, Option<usize>)>, selected: Option<usize>) -> (r: Option<(usize, bool)>)
    ensures
        r == row_target(rows@, selected),
{
    match selected {
        Some(v) => {
            if v < rows.len() {
                let (section, entry) = rows[v];
                match entry {
                    Some(i) => Some((i, section == FileSection::Staged)),
                    None => None,
                }
            } else {
                None
            }
        },
        None => None,
    }
}

proof fn lemma_section_indices_valid(es: Seq<StatusEntryView>, s: FileSection)
    requires
        es.len() <= usize::MAX,
    ensures
        forall|k: int|
            0 <= k < section_indices(es, s).len() ==> {
                let i = #[trigger] section_indices(es, s)[k];
                i < es.len() && in_section(es[i as int], s)
            },
        forall|k: int, m: int|
            0 <= k < m < section_indices(es, s).len() ==> section_indices(es, s)[k] < section_indices(es, s)[m],
    decreases es.len(),
{
    if es.len() > 0 {
        let prev = es.drop_last();
        lemma_section_indices_valid(prev, s);
        let idx = section_indices(es, s);
        let pidx = section_indices(prev, s);
        assert forall|k: int| 0 <= k < idx.len() implies {
            let i = #[trigger] idx[k];
            i < es.len() && in_section(es[i as int], s)
        } by {
            if k < pidx.len() {
                assert(idx[k] == pidx[k]);
                assert(es[pidx[k] as int] == prev[pidx[k] as int]);
            }
        }
        assert forall|k: int, m: int| 0 <= k < m < idx.len() implies idx[k] < idx[m] by {
            if m < pidx.len() {
                assert(idx[k] == pidx[k]);
                assert(idx[m] == pidx[m]);
            } else {
                assert(idx[k] == pidx[k]);
            }
        }
    }
}

/// Every entry row of the list points at a status entry that belongs to its
/// section, and within a section the entries keep the order of the status.
pub proof fn lemma_file_list_rows_point_into_sections(es: Seq<StatusEntryView>)
    requires
        es.len() <= usize::MAX,
    ensures
        forall|r: int|
            0 <= r < file_list_rows(es).len() ==> match #[trigger] file_list_rows(es)[r] {
                (s, Some(i)) => i < es.len() && in_section(es[i as int], s),
                (_, None) => true,
            },
{
    lemma_section_indices_valid(es, FileSection::Staged);
    lemma_section_indices_valid(es, FileSection::Modified);
    lemma_section_indices_valid(es, FileSection::Untracked);
    let a = section_rows(es, FileSection::Staged);
    let b = section_rows(es, FileSection::Modified);
    let c = section_rows(es, FileSection::Untracked);
    assert forall|r: int| 0 <= r < file_list_rows(es).len() implies match #[trigger] file_list_rows(es)[r] {
        (s, Some(i)) => i < es.len() && in_section(es[i as int], s),
        (_, None) => true,
    } by {
        let rows = file_list_rows(es);
        if r < a.len() {
            assert(rows[r] == a[r]);
            if r > 0 {
                assert(a[r] == (FileSection::Staged, Some(section_indices(es, FileSection::Staged)[r - 1])));
            }
        } else if r < a.len() + b.len() {
            assert(rows[r] == b[r - a.len()]);
            if r - a.len() > 0 {
                assert(b[r - a.len()] == (FileSection::Modified, Some(section_indices(es, FileSection::Modified)[r - a.len() - 1])));
            }
        } else {
            assert(rows[r] == c[r - a.len() - b.len()]);
            if r - a.len() - b.len() > 0 {
                assert(c[r - a.len() - b.len()] == (FileSection::Untracked, Some(section_indices(es, FileSection::Untracked)[r - a.len() - b.len() - 1])));
            }
        }
    }
}

/// The header above the working tree's files: with changes, how many are
/// staged and how many are not (untracked ones included).
pub open spec fn changes_header_text(staged_n: nat, unstaged_n: nat, untracked_n: nat) -> Seq<char> {
    if staged_n + unstaged_n + untracked_n > 0 {
        "Uncommitted Changes \u{2014} "@ + decimal(staged_n) + " staged, "@ + decimal(unstaged_n + untracked_n)
            + " unstaged"@
    } else {
        "Uncommitted Changes"@
    }
}

pub fn changes_header(staged_n: usize, unstaged_n: usize, untracked_n: usize) -> (s: String)
    requires
        unstaged_n + untracked_n <= u64::MAX,
    ensures
        s@ == changes_header_text(staged_n as nat, unstaged_n as nat, untracked_n as nat),
{
    if staged_n > 0 || unstaged_n > 0 || untracked_n > 0 {
        let mut s = String::from_str("Uncommitted Changes \u{2014} ");
        let a = decimal_string(staged_n as u64);
        s.append(a.as_str());
        s.append(" staged, ");
        let b = decimal_string((unstaged_n as u64) + (untracked_n as u64));
        s.append(b.as_str());
        s.append(" unstaged");
        s
    } else {
        String::from_str("Uncommitted Changes")
    }
}

/// The first row that lists a file, if any does.
pub fn first_entry_row(rows: &Vec<(FileSection, Option<usize>)>) -> (r: Option<usize>)
    ensures
        match r {
            Some(k) => k < rows@.len() && rows@[k as int].1 is Some && forall|j: int| 0 <= j < k ==> (#[trigger] rows@[j]).1 is None,
            None => forall|j: int| 0 <= j < rows@.len() ==> (#[trigger] rows@[j]).1 is None,
        },
{
    let mut k: usize = 0;
    while k < rows.len()
        invariant
            k <= rows@.len(),
            forall|j: int| 0 <= j < k ==> (#[trigger] rows@[j]).1 is None,
        decreases rows.len() - k,
    {
        if rows[k].1.is_some() {
            return Some(k);
        }
        k += 1;
    }
    None
}

/// A selection kept inside a list of `len` rows that may have shrunk: past
/// the end it moves to the last row, or to none in an empty list.
pub open spec fn clamped(selected: Option<usize>, len: usize) -> Option<usize> {
    match selected {
        Some(s) => if s < len { Some(s) } else if len == 0 { None } else { Some((len - 1) as usize) },
        None => None,
    }
}

pub fn clamp_selection(selected: Option<usize>, len: usize) -> (r: Option<usize>)
    ensures
        r == clamped(selected, len),
{
    match selected {
        Some(s) => if s < len { Some(s) } else if len == 0 { None } else { Some(len - 1) },
        None => None,
    }
}

/// The diff of the file under the selection: of the index against `HEAD`
/// for a row of the staged section, of the work tree against the index
/// otherwise; none for a header, no selection, or a row past the list or
/// the status.
pub fn selected_entry_diff<R: CommandRunner>(
    runner: &R,
    status: &[StatusEntry],
    rows: &Vec<(FileSection, Option<usize>)>,
    selected: Option<usize>,
) -> (r: Option<Result<Vec<DiffFile>, GitError>>)
    ensures
        match row_target(rows@, selected) {
            Some((i, st)) => if i < status@.len() {
                exists|out: Result<Seq<char>, GitErrorView>|
                    #[trigger] runner.run_outcome(file_diff_args(status@[i as int]@.path, st), None, out) && (r matches Some(
                        d,
                    ) && diff_outcome(out, d))
            } else {
                r is None
            },
            None => r is None,
        },
{
    match selected_file(rows, selected) {
        Some((i, st)) => {
            if i >= status.len() {
                return None;
            }
            let d = get_diff_for_file(runner, status[i].path.as_str(), st);
            let ghost out = choose|out: Result<Seq<char>, GitErrorView>|
                #[trigger] runner.run_outcome(file_diff_args(status[i as int].path@, st), None, out) && diff_outcome(out, d);
            assert(runner.run_outcome(file_diff_args(status@[i as int]@.path, st), None, out));
            Some(d)
        },
        None => None,
    }
}

/// The command that moves a path into the index, or out of it when it is
/// listed as staged.
pub open spec fn toggle_args(path: Seq<char>, is_staged: bool) -> Seq<Seq<char>> {
    if is_staged { unstage_args(path) } else { stage_args(path) }
}

/// Stages the file under the selection, or unstages it when the row is in
/// the staged section; none for a header, no selection, or a row past the
/// list or the status.
pub fn toggle_selected_stage<R: CommandRunner>(
    runner: &R,
    status: &[StatusEntry],
    rows: &Vec<(FileSection, Option<usize>)>,
    selected: Option<usize>,
) -> (r: Option<Result<(), GitError>>)
    ensures
        match row_target(rows@, selected) {
            Some((i, st)) => if i < status@.len() {
                exists|out: Result<Seq<char>, GitErrorView>|
                    #[trigger] runner.run_outcome(
                        toggle_args(status@[i as int]@.path, st),
                        None,
                        out,
                    ) && (r matches Some(u) && unit_result(out, u))
            } else {
                r is None
            },
            None => r is None,
        },
{
    match selected_file(rows, selected) {
        Some((i, st)) => {
            if i >= status.len() {
                return None;
            }
            let path = status[i].path.as_str();
            assert(status@[i as int]@.path == path@);
            if st {
                let u = unstage_file(runner, path);
                let ghost out = choose|out: Result<Seq<char>, GitErrorView>|
                    #[trigger] runner.run_outcome(unstage_args(path@), None, out) && unit_result(out, u);
                assert(runner.run_outcome(toggle_args(status@[i as int]@.path, st), None, out));
                Some(u)
            } else {
                let u = stage_file(runner, path);
                let ghost out = choose|out: Result<Seq<char>, GitErrorView>|
                    #[trigger] runner.run_outcome(stage_args(path@), None, out) && unit_result(out, u);
                assert(runner.run_outcome(toggle_args(status@[i as int]@.path, st), None, out));
                Some(u)
            }
        },
        None => None,
    }
}

} // verus!
