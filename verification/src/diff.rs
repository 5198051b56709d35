//! Unified diffs as git prints them: files, hunks and numbered lines.
use vstd::prelude::*;

use crate::error::{GitError, GitErrorView};
use crate::runner::{CommandRunner, args_view};
use crate::text::{
    chars_of, find, find_exec, lines, split, lines_exec, parse_u32, parse_u32_exec, slice_of, splitn3,
    splitn3_exec, starts_with, starts_with_exec, string_of, string_of_all, strip_prefix,
    trim_start_any, trim_start_any_exec,
};

verus! {

#[derive(Debug, Clone, Copy, PartialEq, Eq, Structural)]
pub enum DiffLineKind {
    Context,
    Added,
    Removed,
}

#[derive(Debug, Clone, PartialEq)]
pub struct DiffLine {
    pub kind: DiffLineKind,
    pub content: String,
    pub old_line_no: Option<u32>,
    pub new_line_no: Option<u32>,
}

#[derive(Debug, Clone, PartialEq)]
pub struct DiffHunk {
    pub old_start: u32,
    pub old_count: u32,
    pub new_start: u32,
    pub new_count: u32,
    pub lines: Vec<DiffLine>,
}

#[derive(Debug, Clone, PartialEq)]
pub struct DiffFile {
    pub old_path: String,
    pub new_path: String,
    pub hunks: Vec<DiffHunk>,
}

pub struct DiffLineView {
    pub kind: DiffLineKind,
    pub content: Seq<char>,
    pub old_line_no: Option<u32>,
    pub new_line_no: Option<u32>,
}

pub struct DiffHunkView {
    pub old_start: u32,
    pub old_count: u32,
    pub new_start: u32,
    pub new_count: u32,
    pub lines: Seq<DiffLineView>,
}

pub struct DiffFileView {
    pub old_path: Seq<char>,
    pub new_path: Seq<char>,
    pub hunks: Seq<DiffHunkView>,
}

impl View for DiffLine {
    type V = DiffLineView;

    open spec fn view(&self) -> DiffLineView {
        DiffLineView {
            kind: self.kind,
            content: self.content@,
            old_line_no: self.old_line_no,
            new_line_no: self.new_line_no,
        }
    }
}

pub open spec fn diff_lines_view(v: Seq<DiffLine>) -> Seq<DiffLineView> {
    v.map_values(|l: DiffLine| l@)
}

impl View for DiffHunk {
    type V = DiffHunkView;

    open spec fn view(&self) -> DiffHunkView {
        DiffHunkView {
            old_start: self.old_start,
            old_count: self.old_count,
            new_start: self.new_start,
            new_count: self.new_count,
            lines: diff_lines_view(self.lines@),
        }
    }
}

pub open spec fn hunks_view(v: Seq<DiffHunk>) -> Seq<DiffHunkView> {
    v.map_values(|h: DiffHunk| h@)
}

impl View for DiffFile {
    type V = DiffFileView;

    open spec fn view(&self) -> DiffFileView {
        DiffFileView { old_path: self.old_path@, new_path: self.new_path@, hunks: hunks_view(self.hunks@) }
    }
}

pub open spec fn files_view(v: Seq<DiffFile>) -> Seq<DiffFileView> {
    v.map_values(|f: DiffFile| f@)
}

pub open spec fn or_default(o: Option<u32>, d: u32) -> u32 {
    match o {
        Some(v) => v,
        None => d,
    }
}

/// A hunk header's `start,count` (or just `start`, counting 1): a number
/// that does not parse is 0 as a start and 1 as a count.
pub open spec fn range_of(s: Seq<char>) -> (u32, u32) {
    match find(s, seq![',']) {
        Some(p) => (or_default(parse_u32(s.take(p)), 0), or_default(parse_u32(s.skip(p + 1)), 1)),
        None => (or_default(parse_u32(s), 0), 1),
    }
}

pub fn parse_range(s: &Vec<char>) -> (r: (u32, u32))
    ensures
        r == range_of(s@),
{
    let comma = vec![','];
    assert(comma@ =~= seq![',']);
    match find_exec(s, &comma) {
        Some(p) => {
            proof {
                crate::text::lemma_find_bounds(s@, seq![',']);
            }
            assert(p < s.len());
            let head = slice_of(s, 0, p);
            let tail = slice_of(s, p + 1, s.len());
            assert(head@ =~= s@.take(p as int));
            assert(tail@ =~= s@.skip(p + 1));
            let start = match parse_u32_exec(&head) {
                Some(v) => v,
                None => 0,
            };
            let count = match parse_u32_exec(&tail) {
                Some(v) => v,
                None => 1,
            };
            (start, count)
        },
        None => {
            let start = match parse_u32_exec(s) {
                Some(v) => v,
                None => 0,
            };
            (start, 1)
        },
    }
}

pub open spec fn diff_header() -> Seq<char> {
    seq!['d', 'i', 'f', 'f', ' ', '-', '-', 'g', 'i', 't', ' ']
}

pub open spec fn old_header() -> Seq<char> {
    seq!['-', '-', '-', ' ']
}

pub open spec fn new_header() -> Seq<char> {
    seq!['+', '+', '+', ' ']
}

pub open spec fn hunk_header() -> Seq<char> {
    seq!['@', '@', ' ']
}

/// The path of a `--- ` or `+++ ` line: what follows the 4-character marker,
/// without the `a/` (or `b/`) prefix if it has one.
pub open spec fn header_path(line: Seq<char>, prefix: Seq<char>) -> Seq<char> {
    let rest = line.skip(4);
    match strip_prefix(rest, prefix) {
        Some(p) => p,
        None => rest,
    }
}

/// The hunk that a `@@ -a,b +c,d @@` line opens, with no lines yet.
pub open spec fn hunk_of_header(line: Seq<char>) -> DiffHunkView {
    let inner = trim_start_any(trim_start_any(line, seq!['@']), seq![' ']);
    let parts = splitn3(inner, ' ');
    let old_part = trim_start_any(parts[0], seq!['-']);
    let new_part = trim_start_any(if parts.len() >= 2 { parts[1] } else { seq![] }, seq!['+']);
    DiffHunkView {
        old_start: range_of(old_part).0,
        old_count: range_of(old_part).1,
        new_start: range_of(new_part).0,
        new_count: range_of(new_part).1,
        lines: seq![],
    }
}

/// The reader's state after some lines of a diff.
pub struct DiffScan {
    pub files: Seq<DiffFileView>,
    pub old_path: Option<Seq<char>>,
    pub new_path: Option<Seq<char>>,
    pub hunks: Seq<DiffHunkView>,
    pub hunk: Option<DiffHunkView>,
    pub old_line: u32,
    pub new_line: u32,
    /// A line number went past `u32::MAX`.
    pub overflow: bool,
}

pub open spec fn diff_start() -> DiffScan {
    DiffScan {
        files: seq![],
        old_path: None,
        new_path: None,
        hunks: seq![],
        hunk: None,
        old_line: 0,
        new_line: 0,
        overflow: false,
    }
}

pub open spec fn next_no(n: u32) -> u32 {
    if n == u32::MAX { 0 } else { (n + 1) as u32 }
}

/// The hunks with the open hunk, if any, closed.
pub open spec fn closed_hunks(st: DiffScan) -> Seq<DiffHunkView> {
    match st.hunk {
        Some(h) => st.hunks.push(h),
        None => st.hunks,
    }
}

/// The state at a `diff --git` line, or at the end: the open hunk is closed,
/// and when both paths are known the file is closed with its hunks. The
/// paths are forgotten either way; the hunks stay when no file was closed.
pub open spec fn flush_file(st: DiffScan) -> DiffScan {
    let hs = closed_hunks(st);
    match (st.old_path, st.new_path) {
        (Some(op), Some(np)) => DiffScan {
            files: st.files.push(DiffFileView { old_path: op, new_path: np, hunks: hs }),
            old_path: None,
            new_path: None,
            hunks: seq![],
            hunk: None,
            ..st
        },
        _ => DiffScan { old_path: None, new_path: None, hunks: hs, hunk: None, ..st },
    }
}

/// A line inside an open hunk: `+` adds a new-side line, `-` removes an
/// old-side line, ` ` is context on both sides; each takes the next line
/// number of its side(s). Anything else is skipped.
pub open spec fn hunk_line_step(st: DiffScan, h: DiffHunkView, line: Seq<char>) -> DiffScan {
    if line.len() > 0 && line[0] == '+' {
        DiffScan {
            hunk: Some(DiffHunkView {
                lines: h.lines.push(DiffLineView {
                    kind: DiffLineKind::Added,
                    content: line.skip(1),
                    old_line_no: None,
                    new_line_no: Some(st.new_line),
                }),
                ..h
            }),
            new_line: next_no(st.new_line),
            overflow: st.overflow || st.new_line == u32::MAX,
            ..st
        }
    } else if line.len() > 0 && line[0] == '-' {
        DiffScan {
            hunk: Some(DiffHunkView {
                lines: h.lines.push(DiffLineView {
                    kind: DiffLineKind::Removed,
                    content: line.skip(1),
                    old_line_no: Some(st.old_line),
                    new_line_no: None,
                }),
                ..h
            }),
            old_line: next_no(st.old_line),
            overflow: st.overflow || st.old_line == u32::MAX,
            ..st
        }
    } else if line.len() > 0 && line[0] == ' ' {
        DiffScan {
            hunk: Some(DiffHunkView {
                lines: h.lines.push(DiffLineView {
                    kind: DiffLineKind::Context,
                    content: line.skip(1),
                    old_line_no: Some(st.old_line),
                    new_line_no: Some(st.new_line),
                }),
                ..h
            }),
            old_line: next_no(st.old_line),
            new_line: next_no(st.new_line),
            overflow: st.overflow || st.old_line == u32::MAX || st.new_line == u32::MAX,
            ..st
        }
    } else {
        st
    }
}

/// One line of a diff read. Headers are recognised before hunk lines, in
/// this order: `diff --git `, `--- `, `+++ `, `@@ `.
pub open spec fn diff_step(st: DiffScan, line: Seq<char>) -> DiffScan {
    if starts_with(line, diff_header()) {
        flush_file(st)
    } else if starts_with(line, old_header()) {
        DiffScan { old_path: Some(header_path(line, seq!['a', '/'])), ..st }
    } else if starts_with(line, new_header()) {
        DiffScan { new_path: Some(header_path(line, seq!['b', '/'])), ..st }
    } else if starts_with(line, hunk_header()) {
        let h = hunk_of_header(line);
        DiffScan { hunks: closed_hunks(st), hunk: Some(h), old_line: h.old_start, new_line: h.new_start, ..st }
    } else {
        match st.hunk {
            Some(h) => hunk_line_step(st, h, line),
            None => st,
        }
    }
}

pub open spec fn diff_scan(ls: Seq<Seq<char>>) -> DiffScan
    decreases ls.len(),
{
    if ls.len() == 0 {
        diff_start()
    } else {
        diff_step(diff_scan(ls.drop_last()), ls.last())
    }
}

/// The files of a diff.
pub open spec fn diff_files(output: Seq<char>) -> Seq<DiffFileView> {
    flush_file(diff_scan(lines(output))).files
}

/// No line number of the diff goes past `u32::MAX`.
pub open spec fn diff_fits(output: Seq<char>) -> bool {
    !diff_scan(lines(output)).overflow
}

/// The lines of a run that belong to the old side: all but the added ones.
pub open spec fn old_side_len(ls: Seq<DiffLineView>) -> nat
    decreases ls.len(),
{
    if ls.len() == 0 {
        0
    } else {
        old_side_len(ls.drop_last()) + if ls.last().kind == DiffLineKind::Added { 0nat } else { 1nat }
    }
}

/// The lines of a run that belong to the new side: all but the removed ones.
pub open spec fn new_side_len(ls: Seq<DiffLineView>) -> nat
    decreases ls.len(),
{
    if ls.len() == 0 {
        0
    } else {
        new_side_len(ls.drop_last()) + if ls.last().kind == DiffLineKind::Removed { 0nat } else { 1nat }
    }
}

/// Line `i` of hunk `h` carries the numbers of its sides: the old side
/// counts from `old_start` over the context and removed lines, the new side
/// from `new_start` over the context and added lines; a side that the line
/// is not on has no number.
pub open spec fn line_numbered(h: DiffHunkView, i: int) -> bool {
    let l = h.lines[i];
    let o = h.old_start + old_side_len(h.lines.take(i));
    let n = h.new_start + new_side_len(h.lines.take(i));
    &&& (l.kind == DiffLineKind::Added) == (l.old_line_no is None)
    &&& (l.kind == DiffLineKind::Removed) == (l.new_line_no is None)
    &&& (l.old_line_no matches Some(k) ==> k == o)
    &&& (l.new_line_no matches Some(k) ==> k == n)
}

pub open spec fn hunk_numbered(h: DiffHunkView) -> bool {
    forall|i: int| 0 <= i < h.lines.len() ==> #[trigger] line_numbered(h, i)
}

pub open spec fn hunks_numbered(hs: Seq<DiffHunkView>) -> bool {
    forall|j: int| 0 <= j < hs.len() ==> #[trigger] hunk_numbered(hs[j])
}

pub open spec fn files_numbered(fs: Seq<DiffFileView>) -> bool {
    forall|f: int| 0 <= f < fs.len() ==> #[trigger] hunks_numbered(fs[f].hunks)
}

/// Every hunk read so far is numbered, and the open one will number its
/// next lines where it left off.
pub open spec fn scan_numbered(st: DiffScan) -> bool {
    &&& files_numbered(st.files)
    &&& hunks_numbered(st.hunks)
    &&& match st.hunk {
        Some(h) => hunk_numbered(h) && st.old_line == h.old_start + old_side_len(h.lines) && st.new_line == h.new_start
            + new_side_len(h.lines),
        None => true,
    }
}

proof fn lemma_flush_numbered(st: DiffScan)
    requires
        scan_numbered(st),
    ensures
        scan_numbered(flush_file(st)),
{
    let hs = closed_hunks(st);
    assert(hunks_numbered(hs)) by {
        if let Some(h) = st.hunk {
            assert forall|j: int| 0 <= j < hs.len() implies #[trigger] hunk_numbered(hs[j]) by {
                if j < st.hunks.len() {
                    assert(hs[j] == st.hunks[j]);
                }
            }
        }
    }
    let r = flush_file(st);
    match (st.old_path, st.new_path) {
        (Some(op), Some(np)) => {
            assert(hunks_numbered(Seq::<DiffHunkView>::empty()));
            assert forall|f: int| 0 <= f < r.files.len() implies #[trigger] hunks_numbered(r.files[f].hunks) by {
                if f < st.files.len() {
                    assert(r.files[f] == st.files[f]);
                }
            }
        },
        _ => {},
    }
}

proof fn lemma_push_line_numbered(h: DiffHunkView, l: DiffLineView, old_line: u32, new_line: u32)
    requires
        hunk_numbered(h),
        old_line == h.old_start + old_side_len(h.lines),
        new_line == h.new_start + new_side_len(h.lines),
        (l.kind == DiffLineKind::Added) == (l.old_line_no is None),
        (l.kind == DiffLineKind::Removed) == (l.new_line_no is None),
        l.old_line_no matches Some(k) ==> k == old_line,
        l.new_line_no matches Some(k) ==> k == new_line,
    ensures
        hunk_numbered(DiffHunkView { lines: h.lines.push(l), ..h }),
        old_side_len(h.lines.push(l)) == old_side_len(h.lines) + if l.kind == DiffLineKind::Added { 0nat } else { 1nat },
        new_side_len(h.lines.push(l)) == new_side_len(h.lines) + if l.kind == DiffLineKind::Removed { 0nat } else { 1nat },
{
    let h2 = DiffHunkView { lines: h.lines.push(l), ..h };
    assert(h.lines.push(l).drop_last() =~= h.lines);
    assert forall|i: int| 0 <= i < h2.lines.len() implies #[trigger] line_numbered(h2, i) by {
        if i < h.lines.len() {
            assert(h2.lines.take(i) =~= h.lines.take(i));
            assert(line_numbered(h, i));
        } else {
            assert(h2.lines.take(i) =~= h.lines);
        }
    }
}

proof fn lemma_step_numbered(st: DiffScan, line: Seq<char>)
    requires
        scan_numbered(st),
        !diff_step(st, line).overflow,
    ensures
        scan_numbered(diff_step(st, line)),
{
    if starts_with(line, diff_header()) {
        lemma_flush_numbered(st);
    } else if starts_with(line, old_header()) {
    } else if starts_with(line, new_header()) {
    } else if starts_with(line, hunk_header()) {
        let h = hunk_of_header(line);
        let hs = closed_hunks(st);
        if let Some(oh) = st.hunk {
            assert forall|j: int| 0 <= j < hs.len() implies #[trigger] hunk_numbered(hs[j]) by {
                if j < st.hunks.len() {
                    assert(hs[j] == st.hunks[j]);
                }
            }
        }
        assert(h.lines.len() == 0);
        assert(hunk_numbered(h));
    } else {
        match st.hunk {
            Some(h) => {
                if line.len() > 0 && line[0] == '+' {
                    let l = DiffLineView {
                        kind: DiffLineKind::Added,
                        content: line.skip(1),
                        old_line_no: None,
                        new_line_no: Some(st.new_line),
                    };
                    lemma_push_line_numbered(h, l, st.old_line, st.new_line);
                } else if line.len() > 0 && line[0] == '-' {
                    let l = DiffLineView {
                        kind: DiffLineKind::Removed,
                        content: line.skip(1),
                        old_line_no: Some(st.old_line),
                        new_line_no: None,
                    };
                    lemma_push_line_numbered(h, l, st.old_line, st.new_line);
                } else if line.len() > 0 && line[0] == ' ' {
                    let l = DiffLineView {
                        kind: DiffLineKind::Context,
                        content: line.skip(1),
                        old_line_no: Some(st.old_line),
                        new_line_no: Some(st.new_line),
                    };
                    lemma_push_line_numbered(h, l, st.old_line, st.new_line);
                }
            },
            None => {},
        }
    }
}

proof fn lemma_scan_numbered(ls: Seq<Seq<char>>)
    requires
        !diff_scan(ls).overflow,
    ensures
        scan_numbered(diff_scan(ls)),
    decreases ls.len(),
{
    if ls.len() == 0 {
        assert(files_numbered(Seq::<DiffFileView>::empty()));
        assert(hunks_numbered(Seq::<DiffHunkView>::empty()));
    } else {
        lemma_scan_numbered(ls.drop_last());
        lemma_step_numbered(diff_scan(ls.drop_last()), ls.last());
    }
}

/// In every hunk of a diff whose numbers fit, the context and removed lines
/// are numbered on the old side from the hunk's old start, one after the
/// other, and the context and added lines on the new side from its new
/// start; added lines have no old number and removed lines no new one.
pub proof fn lemma_parsed_lines_are_numbered(output: Seq<char>)
    requires
        diff_fits(output),
    ensures
        files_numbered(diff_files(output)),
{
    lemma_scan_numbered(lines(output));
    lemma_flush_numbered(diff_scan(lines(output)));
}

/// The character that marks a line of a hunk as its kind.
pub open spec fn marker(k: DiffLineKind) -> char {
    match k {
        DiffLineKind::Added => '+',
        DiffLineKind::Removed => '-',
        DiffLineKind::Context => ' ',
    }
}

/// The line's kind marker followed by its content is one of the lines `all`.
pub open spec fn line_from(l: DiffLineView, all: Seq<Seq<char>>) -> bool {
    all.contains(seq![marker(l.kind)] + l.content)
}

pub open spec fn hunk_from(h: DiffHunkView, all: Seq<Seq<char>>) -> bool {
    forall|i: int| 0 <= i < h.lines.len() ==> #[trigger] line_from(h.lines[i], all)
}

pub open spec fn hunks_from(hs: Seq<DiffHunkView>, all: Seq<Seq<char>>) -> bool {
    forall|j: int| 0 <= j < hs.len() ==> #[trigger] hunk_from(hs[j], all)
}

pub open spec fn files_from(fs: Seq<DiffFileView>, all: Seq<Seq<char>>) -> bool {
    forall|f: int| 0 <= f < fs.len() ==> #[trigger] hunks_from(fs[f].hunks, all)
}

pub open spec fn scan_from(st: DiffScan, all: Seq<Seq<char>>) -> bool {
    &&& files_from(st.files, all)
    &&& hunks_from(st.hunks, all)
    &&& match st.hunk {
        Some(h) => hunk_from(h, all),
        None => true,
    }
}

proof fn lemma_flush_from(st: DiffScan, all: Seq<Seq<char>>)
    requires
        scan_from(st, all),
    ensures
        scan_from(flush_file(st), all),
{
    let hs = closed_hunks(st);
    assert(hunks_from(hs, all)) by {
        if let Some(h) = st.hunk {
            assert forall|j: int| 0 <= j < hs.len() implies #[trigger] hunk_from(hs[j], all) by {
                if j < st.hunks.len() {
                    assert(hs[j] == st.hunks[j]);
                }
            }
        }
    }
    let r = flush_file(st);
    match (st.old_path, st.new_path) {
        (Some(op), Some(np)) => {
            assert(hunks_from(Seq::<DiffHunkView>::empty(), all));
            assert forall|f: int| 0 <= f < r.files.len() implies #[trigger] hunks_from(r.files[f].hunks, all) by {
                if f < st.files.len() {
                    assert(r.files[f] == st.files[f]);
                }
            }
        },
        _ => {},
    }
}

proof fn lemma_push_line_from(h: DiffHunkView, l: DiffLineView, all: Seq<Seq<char>>)
    requires
        hunk_from(h, all),
        line_from(l, all),
    ensures
        hunk_from(DiffHunkView { lines: h.lines.push(l), ..h }, all),
{
    let h2 = DiffHunkView { lines: h.lines.push(l), ..h };
    assert forall|i: int| 0 <= i < h2.lines.len() implies #[trigger] line_from(h2.lines[i], all) by {
        if i < h.lines.len() {
            assert(h2.lines[i] == h.lines[i]);
        }
    }
}

/// A hunk line read from `line` is its marker followed by its content.
proof fn lemma_marked_line(line: Seq<char>, all: Seq<Seq<char>>, k: DiffLineKind)
    requires
        all.contains(line),
        line.len() > 0,
        line[0] == marker(k),
    ensures
        all.contains(seq![marker(k)] + line.skip(1)),
{
    assert(seq![marker(k)] + line.skip(1) =~= line);
}

proof fn lemma_step_from(st: DiffScan, line: Seq<char>, all: Seq<Seq<char>>)
    requires
        scan_from(st, all),
        all.contains(line),
    ensures
        scan_from(diff_step(st, line), all),
{
    if starts_with(line, diff_header()) {
        lemma_flush_from(st, all);
    } else if starts_with(line, old_header()) {
    } else if starts_with(line, new_header()) {
    } else if starts_with(line, hunk_header()) {
        let hs = closed_hunks(st);
        if let Some(oh) = st.hunk {
            assert forall|j: int| 0 <= j < hs.len() implies #[trigger] hunk_from(hs[j], all) by {
                if j < st.hunks.len() {
                    assert(hs[j] == st.hunks[j]);
                }
            }
        }
        assert(hunk_from(hunk_of_header(line), all));
    } else {
        match st.hunk {
            Some(h) => {
                if line.len() > 0 && line[0] == '+' {
                    let l = DiffLineView {
                        kind: DiffLineKind::Added,
                        content: line.skip(1),
                        old_line_no: None,
                        new_line_no: Some(st.new_line),
                    };
                    lemma_marked_line(line, all, DiffLineKind::Added);
                    lemma_push_line_from(h, l, all);
                } else if line.len() > 0 && line[0] == '-' {
                    let l = DiffLineView {
                        kind: DiffLineKind::Removed,
                        content: line.skip(1),
                        old_line_no: Some(st.old_line),
                        new_line_no: None,
                    };
                    lemma_marked_line(line, all, DiffLineKind::Removed);
                    lemma_push_line_from(h, l, all);
                } else if line.len() > 0 && line[0] == ' ' {
                    let l = DiffLineView {
                        kind: DiffLineKind::Context,
                        content: line.skip(1),
                        old_line_no: Some(st.old_line),
                        new_line_no: Some(st.new_line),
                    };
                    lemma_marked_line(line, all, DiffLineKind::Context);
                    lemma_push_line_from(h, l, all);
                }
            },
            None => {},
        }
    }
}

proof fn lemma_scan_from(ls: Seq<Seq<char>>, all: Seq<Seq<char>>)
    requires
        forall|k: int| 0 <= k < ls.len() ==> all.contains(#[trigger] ls[k]),
    ensures
        scan_from(diff_scan(ls), all),
    decreases ls.len(),
{
    if ls.len() == 0 {
        assert(files_from(Seq::<DiffFileView>::empty(), all));
        assert(hunks_from(Seq::<DiffHunkView>::empty(), all));
    } else {
        assert forall|k: int| 0 <= k < ls.drop_last().len() implies all.contains(#[trigger] ls.drop_last()[k]) by {
            assert(ls.drop_last()[k] == ls[k]);
        }
        lemma_scan_from(ls.drop_last(), all);
        assert(all.contains(ls[ls.len() - 1]));
        lemma_step_from(diff_scan(ls.drop_last()), ls.last(), all);
    }
}

/// Every line of every parsed hunk is a line of the diff with its first
/// character taken off: its kind's marker (`+` added, `-` removed, a space
/// for context) followed by its content is a line of the input.
pub proof fn lemma_parsed_lines_come_from_input(output: Seq<char>)
    ensures
        files_from(diff_files(output), lines(output)),
{
    let all = lines(output);
    assert forall|k: int| 0 <= k < all.len() implies all.contains(#[trigger] all[k]) by {}
    lemma_scan_from(all, all);
    lemma_flush_from(diff_scan(all), all);
}

proof fn lemma_overflow_stays(ls: Seq<Seq<char>>, k: int)
    requires
        0 <= k <= ls.len(),
        diff_scan(ls.take(k)).overflow,
    ensures
        diff_scan(ls).overflow,
    decreases ls.len() - k,
{
    if k == ls.len() {
        assert(ls.take(k) =~= ls);
    } else {
        assert(ls.take(k + 1).drop_last() =~= ls.take(k));
        lemma_overflow_stays(ls, k + 1);
    }
}

fn hunk_of_header_exec(line: &Vec<char>) -> (h: DiffHunk)
    ensures
        h@ == hunk_of_header(line@),
{
    let at = vec!['@'];
    let sp = vec![' '];
    let minus = vec!['-'];
    let plus = vec!['+'];
    assert(at@ =~= seq!['@']);
    assert(sp@ =~= seq![' ']);
    assert(minus@ =~= seq!['-']);
    assert(plus@ =~= seq!['+']);
    let a = trim_start_any_exec(line, &at);
    let inner = trim_start_any_exec(&a, &sp);
    let parts = splitn3_exec(&inner, ' ');
    let old_part = trim_start_any_exec(&parts[0], &minus);
    let empty: Vec<char> = Vec::new();
    let new_part = if parts.len() >= 2 {
        trim_start_any_exec(&parts[1], &plus)
    } else {
        trim_start_any_exec(&empty, &plus)
    };
    assert(empty@ =~= Seq::<char>::empty());
    let (old_start, old_count) = parse_range(&old_part);
    let (new_start, new_count) = parse_range(&new_part);
    let h = DiffHunk { old_start, old_count, new_start, new_count, lines: Vec::new() };
    assert(diff_lines_view(h.lines@) =~= Seq::<DiffLineView>::empty());
    h
}

fn header_path_exec(line: &Vec<char>, prefix: &Vec<char>) -> (p: String)
    requires
        line.len() >= 4,
    ensures
        p@ == header_path(line@, prefix@),
{
    let rest = slice_of(line, 4, line.len());
    assert(rest@ =~= line@.skip(4));
    if starts_with_exec(&rest, prefix) {
        let r = string_of(&rest, prefix.len(), rest.len());
        assert(rest@.subrange(prefix@.len() as int, rest@.len() as int) =~= rest@.skip(prefix@.len() as int));
        r
    } else {
        string_of_all(&rest)
    }
}

/// The reader's state, held in executable values.
struct Reader {
    files: Vec<DiffFile>,
    old_path: Option<String>,
    new_path: Option<String>,
    hunks: Vec<DiffHunk>,
    hunk: Option<DiffHunk>,
    old_line: u32,
    new_line: u32,
}

impl Reader {
    spec fn scan(&self) -> DiffScan {
        DiffScan {
            files: files_view(self.files@),
            old_path: match self.old_path {
                Some(p) => Some(p@),
                None => None,
            },
            new_path: match self.new_path {
                Some(p) => Some(p@),
                None => None,
            },
            hunks: hunks_view(self.hunks@),
            hunk: match self.hunk {
                Some(h) => Some(h@),
                None => None,
            },
            old_line: self.old_line,
            new_line: self.new_line,
            overflow: false,
        }
    }

    fn close_hunk(&mut self)
        ensures
            final(self).scan() == (DiffScan { hunks: closed_hunks(old(self).scan()), hunk: None, ..old(self).scan() }),
    {
        let h = self.hunk.take();
        match h {
            Some(h) => {
                let ghost prev = self.hunks@;
                self.hunks.push(h);
                assert(hunks_view(self.hunks@) =~= hunks_view(prev).push(h@));
            },
            None => {},
        }
    }

    fn flush(&mut self)
        ensures
            final(self).scan() == flush_file(old(self).scan()),
    {
        self.close_hunk();
        let op = self.old_path.take();
        let np = self.new_path.take();
        match (op, np) {
            (Some(o), Some(n)) => {
                let mut taken: Vec<DiffHunk> = Vec::new();
                std::mem::swap(&mut taken, &mut self.hunks);
                let f = DiffFile { old_path: o, new_path: n, hunks: taken };
                let ghost prev = self.files@;
                self.files.push(f);
                assert(files_view(self.files@) =~= files_view(prev).push(f@));
                assert(hunks_view(self.hunks@) =~= Seq::<DiffHunkView>::empty());
            },
            _ => {},
        }
    }

    /// Reads a line inside the open hunk `h`; false when a line number would
    /// go past `u32::MAX`.
    fn hunk_line(&mut self, line: &Vec<char>) -> (ok: bool)
        requires
            old(self).hunk is Some,
        ensures
            ok == !hunk_line_step(old(self).scan(), old(self).scan().hunk->0, line@).overflow,
            ok ==> final(self).scan() == hunk_line_step(old(self).scan(), old(self).scan().hunk->0, line@),
    {
        let ghost st = self.scan();
        let mut h = match self.hunk.take() {
            Some(h) => h,
            None => {
                assert(false);
                return false;
            },
        };
        let ghost hv = h@;
        let mut ok = true;
        if line.len() > 0 && line[0] == '+' {
            if self.new_line == u32::MAX {
                ok = false;
            } else {
                let content = string_of(line, 1, line.len());
                assert(line@.subrange(1, line@.len() as int) =~= line@.skip(1));
                let dl = DiffLine { kind: DiffLineKind::Added, content, old_line_no: None, new_line_no: Some(self.new_line) };
                h.lines.push(dl);
                assert(diff_lines_view(h.lines@) =~= hv.lines.push(dl@));
                self.new_line = self.new_line + 1;
            }
        } else if line.len() > 0 && line[0] == '-' {
            if self.old_line == u32::MAX {
                ok = false;
            } else {
                let content = string_of(line, 1, line.len());
                assert(line@.subrange(1, line@.len() as int) =~= line@.skip(1));
                let dl = DiffLine { kind: DiffLineKind::Removed, content, old_line_no: Some(self.old_line), new_line_no: None };
                h.lines.push(dl);
                assert(diff_lines_view(h.lines@) =~= hv.lines.push(dl@));
                self.old_line = self.old_line + 1;
            }
        } else if line.len() > 0 && line[0] == ' ' {
            if self.old_line == u32::MAX || self.new_line == u32::MAX {
                ok = false;
            } else {
                let content = string_of(line, 1, line.len());
                assert(line@.subrange(1, line@.len() as int) =~= line@.skip(1));
                let dl = DiffLine {
                    kind: DiffLineKind::Context,
                    content,
                    old_line_no: Some(self.old_line),
                    new_line_no: Some(self.new_line),
                };
                h.lines.push(dl);
                assert(diff_lines_view(h.lines@) =~= hv.lines.push(dl@));
                self.old_line = self.old_line + 1;
                self.new_line = self.new_line + 1;
            }
        }
        self.hunk = Some(h);
        ok
    }

    /// Reads one line; false when a line number would go past `u32::MAX`.
    fn step(&mut self, line: &Vec<char>, dh: &Vec<char>, oh: &Vec<char>, nh: &Vec<char>, hh: &Vec<char>, ap: &Vec<char>, bp: &Vec<char>) -> (ok: bool)
        requires
            dh@ == diff_header(),
            oh@ == old_header(),
            nh@ == new_header(),
            hh@ == hunk_header(),
            ap@ == seq!['a', '/'],
            bp@ == seq!['b', '/'],
        ensures
            ok == !diff_step(old(self).scan(), line@).overflow,
            ok ==> final(self).scan() == diff_step(old(self).scan(), line@),
    {
        if starts_with_exec(line, dh) {
            self.flush();
            true
        } else if starts_with_exec(line, oh) {
            self.old_path = Some(header_path_exec(line, ap));
            true
        } else if starts_with_exec(line, nh) {
            self.new_path = Some(header_path_exec(line, bp));
            true
        } else if starts_with_exec(line, hh) {
            self.close_hunk();
            let h = hunk_of_header_exec(line);
            self.old_line = h.old_start;
            self.new_line = h.new_start;
            self.hunk = Some(h);
            true
        } else if self.hunk.is_some() {
            self.hunk_line(line)
        } else {
            true
        }
    }
}

/// The files of a diff, or none when a line number would go past `u32::MAX`.
pub fn scan_diff(output: &str) -> (r: Option<Vec<DiffFile>>)
    ensures
        match r {
            Some(v) => diff_fits(output@) && files_view(v@) == diff_files(output@),
            None => !diff_fits(output@),
        },
{
    let text = chars_of(output);
    let ls = lines_exec(&text);
    let ghost lv = lines(output@);
    let dh = vec!['d', 'i', 'f', 'f', ' ', '-', '-', 'g', 'i', 't', ' '];
    let oh = vec!['-', '-', '-', ' '];
    let nh = vec!['+', '+', '+', ' '];
    let hh = vec!['@', '@', ' '];
    let ap = vec!['a', '/'];
    let bp = vec!['b', '/'];
    assert(dh@ =~= diff_header());
    assert(oh@ =~= old_header());
    assert(nh@ =~= new_header());
    assert(hh@ =~= hunk_header());
    assert(ap@ =~= seq!['a', '/']);
    assert(bp@ =~= seq!['b', '/']);
    let mut rd = Reader {
        files: Vec::new(),
        old_path: None,
        new_path: None,
        hunks: Vec::new(),
        hunk: None,
        old_line: 0,
        new_line: 0,
    };
    let mut i: usize = 0;
    assert(lv.take(0) =~= Seq::<Seq<char>>::empty());
    assert(files_view(rd.files@) =~= Seq::<DiffFileView>::empty());
    assert(hunks_view(rd.hunks@) =~= Seq::<DiffHunkView>::empty());
    while i < ls.len()
        invariant
            lv == lines(output@),
            dh@ == diff_header(),
            oh@ == old_header(),
            nh@ == new_header(),
            hh@ == hunk_header(),
            ap@ == seq!['a', '/'],
            bp@ == seq!['b', '/'],
            ls@.len() == lv.len(),
            forall|k: int| 0 <= k < ls@.len() ==> #[trigger] ls@[k]@ == lv[k],
            i <= ls@.len(),
            diff_scan(lv.take(i as int)) == rd.scan(),
        decreases ls.len() - i,
    {
        assert(ls@[i as int]@ == lv[i as int]);
        assert(lv.take(i + 1).drop_last() =~= lv.take(i as int));
        if !rd.step(&ls[i], &dh, &oh, &nh, &hh, &ap, &bp) {
            proof {
                lemma_overflow_stays(lv, i + 1);
            }
            return None;
        }
        i += 1;
    }
    assert(lv.take(ls@.len() as int) =~= lv);
    rd.flush();
    Some(rd.files)
}

/// The files of a unified diff as `git diff` prints it: a `diff --git` line
/// starts a file, whose paths are taken from the `--- ` and `+++ ` lines and
/// whose hunks from `@@` headers and the lines below them; a file is kept
/// only when both of its paths were given.
pub fn parse_diff(output: &str) -> (r: Result<Vec<DiffFile>, GitError>)
    requires
        diff_fits(output@),
    ensures
        r matches Ok(v) && files_view(v@) == diff_files(output@),
{
    if output.is_empty() {
        let v: Vec<DiffFile> = Vec::new();
        proof {
            assert(output@.len() == 0);
            assert(split(output@, seq!['\n']) =~= seq![output@]);
            assert(lines(output@) =~= Seq::<Seq<char>>::empty());
            assert(files_view(v@) =~= diff_files(output@));
        }
        return Ok(v);
    }
    match scan_diff(output) {
        Some(v) => Ok(v),
        None => Ok(Vec::new()),
    }
}

/// A diff output read by the operations that run git: its files, or a parse
/// error when a line number would go past `u32::MAX`.
pub open spec fn diff_result(o: Seq<char>, r: Result<Vec<DiffFile>, GitError>) -> bool {
    if diff_fits(o) {
        r matches Ok(v) && files_view(v@) == diff_files(o)
    } else {
        r matches Err(GitError::ParseError(_))
    }
}

pub fn read_diff(output: &str) -> (r: Result<Vec<DiffFile>, GitError>)
    ensures
        diff_result(output@, r),
{
    match scan_diff(output) {
        Some(v) => Ok(v),
        None => Err(GitError::ParseError(String::from_str("diff line number out of range"))),
    }
}

pub open spec fn diff_args(staged: bool) -> Seq<Seq<char>> {
    if staged {
        seq!["diff"@, "--cached"@]
    } else {
        seq!["diff"@]
    }
}

pub open spec fn file_diff_args(path: Seq<char>, staged: bool) -> Seq<Seq<char>> {
    if staged {
        seq!["diff"@, "--cached"@, "--"@, path]
    } else {
        seq!["diff"@, "--"@, path]
    }
}

/// The work tree's changes against the index (`staged` false), or the
/// index's against `HEAD` (`staged` true).
pub fn get_diff<R: CommandRunner>(runner: &R, staged: bool) -> (r: Result<Vec<DiffFile>, GitError>)
    ensures
        exists|out: Result<Seq<char>, GitErrorView>|
            #[trigger] runner.run_outcome(diff_args(staged), None, out) && match out {
                Ok(o) => diff_result(o, r),
                Err(e) => r matches Err(err) && err@ == e,
            },
{
    let out = if staged {
        let args = ["diff", "--cached"];
        assert(args_view(args@) =~= diff_args(staged));
        runner.run(&args)
    } else {
        let args = ["diff"];
        assert(args_view(args@) =~= diff_args(staged));
        runner.run(&args)
    };
    match out {
        Ok(output) => read_diff(output.as_str()),
        Err(e) => Err(e),
    }
}

/// `get_diff` for one path.
pub fn get_diff_for_file<R: CommandRunner>(runner: &R, path: &str, staged: bool) -> (r: Result<Vec<DiffFile>, GitError>)
    ensures
        exists|out: Result<Seq<char>, GitErrorView>|
            #[trigger] runner.run_outcome(file_diff_args(path@, staged), None, out) && match out {
                Ok(o) => diff_result(o, r),
                Err(e) => r matches Err(err) && err@ == e,
            },
{
    let out = if staged {
        let args = ["diff", "--cached", "--", path];
        assert(args_view(args@) =~= file_diff_args(path@, staged));
        runner.run(&args)
    } else {
        let args = ["diff", "--", path];
        assert(args_view(args@) =~= file_diff_args(path@, staged));
        runner.run(&args)
    };
    match out {
        Ok(output) => read_diff(output.as_str()),
        Err(e) => Err(e),
    }
}

} // verus!
