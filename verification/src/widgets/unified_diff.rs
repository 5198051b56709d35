//! The side-by-side diff view: rows that pair removed lines with added
//! ones, hunk navigation, word-level highlighting and horizontal scrolling.
use vstd::prelude::*;

use crate::diff::{DiffFile, DiffFileView, DiffHunk, DiffHunkView, DiffLine, DiffLineKind, DiffLineView, diff_lines_view, files_view};
use crate::text::{decimal, decimal_chars, string_of_all};
use crate::widgets::word_diff::{
    SegmentStyle, StyledSegment, base_style, base_style_of, content_segments, render_content_with_word_diff,
    segments_view,
};

verus! {

/// A row of the view: an old-side line on the left, a new-side line on the
/// right, either possibly missing.
#[derive(Debug, Clone, PartialEq)]
pub struct DiffRow {
    pub left_line_no: Option<u32>,
    pub left_content: Option<String>,
    pub left_kind: DiffLineKind,
    pub right_line_no: Option<u32>,
    pub right_content: Option<String>,
    pub right_kind: DiffLineKind,
}

pub struct DiffRowView {
    pub left_line_no: Option<u32>,
    pub left_content: Option<Seq<char>>,
    pub left_kind: DiffLineKind,
    pub right_line_no: Option<u32>,
    pub right_content: Option<Seq<char>>,
    pub right_kind: DiffLineKind,
}

pub open spec fn opt_string_view(o: Option<String>) -> Option<Seq<char>> {
    match o {
        Some(s) => Some(s@),
        None => None,
    }
}

impl View for DiffRow {
    type V = DiffRowView;

    open spec fn view(&self) -> DiffRowView {
        DiffRowView {
            left_line_no: self.left_line_no,
            left_content: opt_string_view(self.left_content),
            left_kind: self.left_kind,
            right_line_no: self.right_line_no,
            right_content: opt_string_view(self.right_content),
            right_kind: self.right_kind,
        }
    }
}

pub open spec fn diff_rows_view(v: Seq<DiffRow>) -> Seq<DiffRowView> {
    v.map_values(|r: DiffRow| r@)
}

/// The rows for a run of removed and added lines: the i-th removed line
/// beside the i-th added one, as many rows as the longer run.
pub open spec fn flush_rows(removed: Seq<DiffLineView>, added: Seq<DiffLineView>) -> Seq<DiffRowView> {
    let n = if removed.len() >= added.len() { removed.len() } else { added.len() };
    Seq::new(
        n,
        |i: int|
            DiffRowView {
                left_line_no: if i < removed.len() { removed[i].old_line_no } else { None },
                left_content: if i < removed.len() { Some(removed[i].content) } else { None },
                left_kind: if i < removed.len() { DiffLineKind::Removed } else { DiffLineKind::Context },
                right_line_no: if i < added.len() { added[i].new_line_no } else { None },
                right_content: if i < added.len() { Some(added[i].content) } else { None },
                right_kind: if i < added.len() { DiffLineKind::Added } else { DiffLineKind::Context },
            },
    )
}

/// The row of a context line: the same text on both sides.
pub open spec fn context_row(l: DiffLineView) -> DiffRowView {
    DiffRowView {
        left_line_no: l.old_line_no,
        left_content: Some(l.content),
        left_kind: DiffLineKind::Context,
        right_line_no: l.new_line_no,
        right_content: Some(l.content),
        right_kind: DiffLineKind::Context,
    }
}

pub struct PairScan {
    pub rows: Seq<DiffRowView>,
    pub removed: Seq<DiffLineView>,
    pub added: Seq<DiffLineView>,
}

pub open spec fn pair_step(st: PairScan, l: DiffLineView) -> PairScan {
    match l.kind {
        DiffLineKind::Context => PairScan {
            rows: st.rows + flush_rows(st.removed, st.added) + seq![context_row(l)],
            removed: seq![],
            added: seq![],
        },
        DiffLineKind::Removed => PairScan { removed: st.removed.push(l), ..st },
        DiffLineKind::Added => PairScan { added: st.added.push(l), ..st },
    }
}

pub open spec fn pair_scan(ls: Seq<DiffLineView>) -> PairScan
    decreases ls.len(),
{
    if ls.len() == 0 {
        PairScan { rows: seq![], removed: seq![], added: seq![] }
    } else {
        pair_step(pair_scan(ls.drop_last()), ls.last())
    }
}

/// The rows of a hunk: each context line a row of its own; each run of
/// removed and added lines between them paired up.
pub open spec fn pair_rows(ls: Seq<DiffLineView>) -> Seq<DiffRowView> {
    let st = pair_scan(ls);
    st.rows + flush_rows(st.removed, st.added)
}

fn copy_opt_string(o: &Option<String>) -> (r: Option<String>)
    ensures
        opt_string_view(r) == opt_string_view(*o),
{
    match o {
        Some(s) => Some(s.clone()),
        None => None,
    }
}

/// Appends the rows for the buffered removed and added lines.
fn flush(rows: &mut Vec<DiffRow>, lines: &Vec<DiffLine>, removed: &Vec<usize>, added: &Vec<usize>)
    requires
        forall|k: int| 0 <= k < removed@.len() ==> #[trigger] removed@[k] < lines@.len(),
        forall|k: int| 0 <= k < added@.len() ==> #[trigger] added@[k] < lines@.len(),
    ensures
        diff_rows_view(final(rows)@) == diff_rows_view(old(rows)@) + flush_rows(
            removed@.map_values(|i: usize| lines@[i as int]@),
            added@.map_values(|i: usize| lines@[i as int]@),
        ),
{
    let ghost rv = removed@.map_values(|i: usize| lines@[i as int]@);
    let ghost av = added@.map_values(|i: usize| lines@[i as int]@);
    let ghost target = flush_rows(rv, av);
    let ghost start = diff_rows_view(rows@);
    let n = if removed.len() >= added.len() { removed.len() } else { added.len() };
    let mut i: usize = 0;
    while i < n
        invariant
            n == target.len(),
            rv == removed@.map_values(|i: usize| lines@[i as int]@),
            av == added@.map_values(|i: usize| lines@[i as int]@),
            target == flush_rows(rv, av),
            forall|k: int| 0 <= k < removed@.len() ==> #[trigger] removed@[k] < lines@.len(),
            forall|k: int| 0 <= k < added@.len() ==> #[trigger] added@[k] < lines@.len(),
            i <= n,
            diff_rows_view(rows@) == start + target.take(i as int),
        decreases n - i,
    {
        let (left_line_no, left_content, left_kind) = if i < removed.len() {
            let l = &lines[removed[i]];
            (l.old_line_no, Some(l.content.clone()), DiffLineKind::Removed)
        } else {
            (None, None, DiffLineKind::Context)
        };
        let (right_line_no, right_content, right_kind) = if i < added.len() {
            let l = &lines[added[i]];
            (l.new_line_no, Some(l.content.clone()), DiffLineKind::Added)
        } else {
            (None, None, DiffLineKind::Context)
        };
        let row = DiffRow { left_line_no, left_content, left_kind, right_line_no, right_content, right_kind };
        let ghost prev = rows@;
        rows.push(row);
        assert(row@ == target[i as int]);
        assert(diff_rows_view(rows@) =~= diff_rows_view(prev).push(row@));
        assert(target.take(i + 1) =~= target.take(i as int).push(target[i as int]));
        i += 1;
    }
    assert(target.take(n as int) =~= target);
}

/// The rows of a hunk for side-by-side display.
pub fn pair_lines(hunk: &DiffHunk) -> (rows: Vec<DiffRow>)
    ensures
        diff_rows_view(rows@) == pair_rows(hunk@.lines),
{
    let ghost lv = hunk@.lines;
    let mut rows: Vec<DiffRow> = Vec::new();
    let mut removed: Vec<usize> = Vec::new();
    let mut added: Vec<usize> = Vec::new();
    let mut k: usize = 0;
    assert(lv.take(0) =~= Seq::<DiffLineView>::empty());
    assert(diff_rows_view(rows@) =~= Seq::<DiffRowView>::empty());
    assert(removed@.map_values(|i: usize| hunk.lines@[i as int]@) =~= Seq::<DiffLineView>::empty());
    assert(added@.map_values(|i: usize| hunk.lines@[i as int]@) =~= Seq::<DiffLineView>::empty());
    while k < hunk.lines.len()
        invariant
            lv == diff_lines_view(hunk.lines@),
            k <= hunk.lines@.len(),
            forall|j: int| 0 <= j < removed@.len() ==> #[trigger] removed@[j] < k,
            forall|j: int| 0 <= j < added@.len() ==> #[trigger] added@[j] < k,
            pair_scan(lv.take(k as int)) == (PairScan {
                rows: diff_rows_view(rows@),
                removed: removed@.map_values(|i: usize| hunk.lines@[i as int]@),
                added: added@.map_values(|i: usize| hunk.lines@[i as int]@),
            }),
        decreases hunk.lines.len() - k,
    {
        let line = &hunk.lines[k];
        assert(lv.take(k + 1).drop_last() =~= lv.take(k as int));
        assert(lv[k as int] == line@);
        match line.kind {
            DiffLineKind::Context => {
                let ghost st = pair_scan(lv.take(k as int));
                flush(&mut rows, &hunk.lines, &removed, &added);
                assert(diff_rows_view(rows@) == st.rows + flush_rows(st.removed, st.added));
                removed = Vec::new();
                added = Vec::new();
                let row = DiffRow {
                    left_line_no: line.old_line_no,
                    left_content: Some(line.content.clone()),
                    left_kind: DiffLineKind::Context,
                    right_line_no: line.new_line_no,
                    right_content: Some(line.content.clone()),
                    right_kind: DiffLineKind::Context,
                };
                let ghost prev = rows@;
                rows.push(row);
                assert(diff_rows_view(rows@) =~= diff_rows_view(prev).push(row@));
                assert(row@ == context_row(line@));
                assert(diff_rows_view(rows@) =~= st.rows + flush_rows(st.removed, st.added) + seq![context_row(line@)]);
                assert(removed@.map_values(|i: usize| hunk.lines@[i as int]@) =~= Seq::<DiffLineView>::empty());
                assert(added@.map_values(|i: usize| hunk.lines@[i as int]@) =~= Seq::<DiffLineView>::empty());
            },
            DiffLineKind::Removed => {
                let ghost prev = removed@;
                removed.push(k);
                assert(removed@.map_values(|i: usize| hunk.lines@[i as int]@) =~= prev.map_values(
                    |i: usize| hunk.lines@[i as int]@,
                ).push(line@));
            },
            DiffLineKind::Added => {
                let ghost prev = added@;
                added.push(k);
                assert(added@.map_values(|i: usize| hunk.lines@[i as int]@) =~= prev.map_values(
                    |i: usize| hunk.lines@[i as int]@,
                ).push(line@));
            },
        }
        k += 1;
    }
    assert(lv.take(hunk.lines@.len() as int) =~= lv);
    flush(&mut rows, &hunk.lines, &removed, &added);
    rows
}

/// `a + b`, stopping at `u16::MAX`.
pub open spec fn sat_add(a: u16, b: u16) -> u16 {
    if a + b > u16::MAX { u16::MAX } else { (a + b) as u16 }
}

/// `a - b`, stopping at 0.
pub open spec fn sat_sub(a: u16, b: u16) -> u16 {
    if a < b { 0 } else { (a - b) as u16 }
}

/// The hunk and scroll after moving to the next hunk: its first row, when
/// there is a next hunk; else nothing moves.
pub open spec fn next_hunk_position(current: usize, scroll_y: u16, offsets: Seq<u16>) -> (usize, u16) {
    if current + 1 < offsets.len() {
        ((current + 1) as usize, offsets[current + 1])
    } else {
        (current, scroll_y)
    }
}

/// The hunk and scroll after moving to the previous hunk: its first row,
/// when there is a previous hunk; else nothing moves.
pub open spec fn prev_hunk_position(current: usize, scroll_y: u16, offsets: Seq<u16>) -> (usize, u16) {
    if current > 0 {
        ((current - 1) as usize, offsets[current - 1])
    } else {
        (current, scroll_y)
    }
}

/// Where the view is scrolled to, and where each hunk begins.
#[derive(Debug, Clone, PartialEq)]
pub struct SideBySideDiffState {
    pub scroll_y: u16,
    pub scroll_x: u16,
    pub current_hunk: usize,
    /// The first row of each hunk.
    pub hunk_offsets: Vec<u16>,
}

impl SideBySideDiffState {
    pub fn new() -> (s: Self)
        ensures
            s.scroll_y == 0,
            s.scroll_x == 0,
            s.current_hunk == 0,
            s.hunk_offsets@.len() == 0,
    {
        Self { scroll_y: 0, scroll_x: 0, current_hunk: 0, hunk_offsets: Vec::new() }
    }

    /// Scrolls down by `amount` rows, stopping at `u16::MAX`.
    pub fn scroll_down(&mut self, amount: u16)
        ensures
            final(self).scroll_y == sat_add(old(self).scroll_y, amount),
            final(self).scroll_x == old(self).scroll_x,
            final(self).current_hunk == old(self).current_hunk,
            final(self).hunk_offsets@ == old(self).hunk_offsets@,
    {
        self.scroll_y = self.scroll_y.saturating_add(amount);
    }

    /// Scrolls up by `amount` rows, stopping at 0.
    pub fn scroll_up(&mut self, amount: u16)
        ensures
            final(self).scroll_y == sat_sub(old(self).scroll_y, amount),
            final(self).scroll_x == old(self).scroll_x,
            final(self).current_hunk == old(self).current_hunk,
            final(self).hunk_offsets@ == old(self).hunk_offsets@,
    {
        self.scroll_y = self.scroll_y.saturating_sub(amount);
    }

    /// Scrolls right by `amount` columns, stopping at `u16::MAX`.
    pub fn scroll_right(&mut self, amount: u16)
        ensures
            final(self).scroll_x == sat_add(old(self).scroll_x, amount),
            final(self).scroll_y == old(self).scroll_y,
            final(self).current_hunk == old(self).current_hunk,
            final(self).hunk_offsets@ == old(self).hunk_offsets@,
    {
        self.scroll_x = self.scroll_x.saturating_add(amount);
    }

    /// Scrolls left by `amount` columns, stopping at 0.
    pub fn scroll_left(&mut self, amount: u16)
        ensures
            final(self).scroll_x == sat_sub(old(self).scroll_x, amount),
            final(self).scroll_y == old(self).scroll_y,
            final(self).current_hunk == old(self).current_hunk,
            final(self).hunk_offsets@ == old(self).hunk_offsets@,
    {
        self.scroll_x = self.scroll_x.saturating_sub(amount);
    }

    /// Moves to the next hunk, if there is one, and scrolls to its first row.
    pub fn next_hunk(&mut self)
        requires
            old(self).current_hunk < usize::MAX,
        ensures
            (final(self).current_hunk, final(self).scroll_y) == next_hunk_position(
                old(self).current_hunk,
                old(self).scroll_y,
                old(self).hunk_offsets@,
            ),
            final(self).scroll_x == old(self).scroll_x,
            final(self).hunk_offsets@ == old(self).hunk_offsets@,
    {
        if self.current_hunk + 1 < self.hunk_offsets.len() {
            self.current_hunk += 1;
            self.scroll_y = self.hunk_offsets[self.current_hunk];
        }
    }

    /// Moves to the previous hunk, if there is one, and scrolls to its first row.
    pub fn prev_hunk(&mut self)
        requires
            old(self).current_hunk == 0 || old(self).current_hunk - 1 < old(self).hunk_offsets@.len(),
        ensures
            (final(self).current_hunk, final(self).scroll_y) == prev_hunk_position(
                old(self).current_hunk,
                old(self).scroll_y,
                old(self).hunk_offsets@,
            ),
            final(self).scroll_x == old(self).scroll_x,
            final(self).hunk_offsets@ == old(self).hunk_offsets@,
    {
        if self.current_hunk > 0 {
            self.current_hunk -= 1;
            self.scroll_y = self.hunk_offsets[self.current_hunk];
        }
    }
}

/// Scrolling back by what was just scrolled returns to where the view was,
/// unless the first scroll stopped at the edge.
pub proof fn lemma_scroll_back(pos: u16, amount: u16)
    ensures
        pos + amount <= u16::MAX ==> sat_sub(sat_add(pos, amount), amount) == pos,
        amount <= pos ==> sat_add(sat_sub(pos, amount), amount) == pos,
{
}

/// Moving to the previous hunk undoes a move to the next one: the view is
/// back on the hunk it was on, at that hunk's first row.
pub proof fn lemma_prev_undoes_next_hunk(current: usize, scroll_y: u16, offsets: Seq<u16>)
    requires
        current < usize::MAX,
        current + 1 < offsets.len(),
    ensures
        ({
            let (c, y) = next_hunk_position(current, scroll_y, offsets);
            prev_hunk_position(c, y, offsets) == (current, offsets[current as int])
        }),
{
}

impl Default for SideBySideDiffState {
    fn default() -> (s: Self)
        ensures
            s.scroll_y == 0,
            s.scroll_x == 0,
            s.current_hunk == 0,
            s.hunk_offsets@.len() == 0,
    {
        Self::new()
    }
}

/// The hunks of all files, in order.
pub open spec fn all_hunks(files: Seq<DiffFileView>) -> Seq<DiffHunkView>
    decreases files.len(),
{
    if files.len() == 0 {
        seq![]
    } else {
        all_hunks(files.drop_last()) + files.last().hunks
    }
}

/// The rows of all the hunks, one hunk after the other.
pub open spec fn hunks_rows(hs: Seq<DiffHunkView>) -> Seq<DiffRowView>
    decreases hs.len(),
{
    if hs.len() == 0 {
        seq![]
    } else {
        hunks_rows(hs.drop_last()) + pair_rows(hs.last().lines)
    }
}

/// The rows of the view of `files`, and the row (as a `u16`) at which each
/// hunk begins.
pub fn side_by_side_rows(diff_files: &[DiffFile]) -> (r: (Vec<DiffRow>, Vec<u16>))
    ensures
        diff_rows_view(r.0@) == hunks_rows(all_hunks(diff_files@.map_values(|f: DiffFile| f@))),
        r.1@.len() == all_hunks(diff_files@.map_values(|f: DiffFile| f@)).len(),
        forall|k: int|
            0 <= k < r.1@.len() ==> #[trigger] r.1@[k] == (hunks_rows(
                all_hunks(diff_files@.map_values(|f: DiffFile| f@)).take(k),
            ).len() as u16),
{
    let ghost fv = diff_files@.map_values(|f: DiffFile| f@);
    let mut all_rows: Vec<DiffRow> = Vec::new();
    let mut offsets: Vec<u16> = Vec::new();
    let mut fi: usize = 0;
    assert(fv.take(0) =~= Seq::<DiffFileView>::empty());
    assert(diff_rows_view(all_rows@) =~= Seq::<DiffRowView>::empty());
    while fi < diff_files.len()
        invariant
            fv == diff_files@.map_values(|f: DiffFile| f@),
            fi <= diff_files@.len(),
            diff_rows_view(all_rows@) == hunks_rows(all_hunks(fv.take(fi as int))),
            offsets@.len() == all_hunks(fv.take(fi as int)).len(),
            forall|k: int|
                0 <= k < offsets@.len() ==> #[trigger] offsets@[k] == (hunks_rows(all_hunks(fv.take(fi as int)).take(k)).len() as u16),
        decreases diff_files.len() - fi,
    {
        let file = &diff_files[fi];
        assert(fv.take(fi + 1).drop_last() =~= fv.take(fi as int));
        assert(fv[fi as int] == file@);
        let ghost before = all_hunks(fv.take(fi as int));
        let ghost fh = file@.hunks;
        let mut hi: usize = 0;
        assert(before + fh.take(0) =~= before);
        while hi < file.hunks.len()
            invariant
                fh == file@.hunks,
                hi <= file.hunks@.len(),
                diff_rows_view(all_rows@) == hunks_rows(before + fh.take(hi as int)),
                offsets@.len() == (before + fh.take(hi as int)).len(),
                forall|k: int|
                    0 <= k < offsets@.len() ==> #[trigger] offsets@[k] == (hunks_rows((before + fh.take(hi as int)).take(k)).len() as u16),
            decreases file.hunks.len() - hi,
        {
            let hunk = &file.hunks[hi];
            let ghost cur = before + fh.take(hi as int);
            let ghost next = before + fh.take(hi + 1);
            assert(next.drop_last() =~= cur);
            assert(next.last() == hunk@);
            assert(next.take(cur.len() as int) =~= cur);
            let ghost prev_offsets = offsets@;
            offsets.push(all_rows.len() as u16);
            assert forall|k: int| 0 <= k < offsets@.len() implies #[trigger] offsets@[k] == (hunks_rows(next.take(k)).len() as u16) by {
                if k < prev_offsets.len() {
                    assert(next.take(k) =~= cur.take(k));
                }
            }
            let rows = pair_lines(hunk);
            let mut j: usize = 0;
            let ghost base = diff_rows_view(all_rows@);
            while j < rows.len()
                invariant
                    j <= rows@.len(),
                    diff_rows_view(all_rows@) == base + diff_rows_view(rows@).take(j as int),
                decreases rows.len() - j,
            {
                let r = &rows[j];
                let row = DiffRow {
                    left_line_no: r.left_line_no,
                    left_content: copy_opt_string(&r.left_content),
                    left_kind: r.left_kind,
                    right_line_no: r.right_line_no,
                    right_content: copy_opt_string(&r.right_content),
                    right_kind: r.right_kind,
                };
                let ghost prev = all_rows@;
                all_rows.push(row);
                assert(diff_rows_view(all_rows@) =~= diff_rows_view(prev).push(row@));
                assert(diff_rows_view(rows@).take(j + 1) =~= diff_rows_view(rows@).take(j as int).push(rows@[j as int]@));
                j += 1;
            }
            assert(diff_rows_view(rows@).take(rows@.len() as int) =~= diff_rows_view(rows@));
            hi += 1;
        }
        assert(fh.take(file.hunks@.len() as int) =~= fh);
        fi += 1;
    }
    assert(fv.take(diff_files@.len() as int) =~= fv);
    (all_rows, offsets)
}

/// The text a side of a row is paired with for word-level highlighting:
/// the other side's, when the left is a removed line and the right an added
/// one.
pub open spec fn paired_side(row: DiffRowView, is_left: bool) -> Option<Seq<char>> {
    if row.left_kind == DiffLineKind::Removed && row.right_kind == DiffLineKind::Added {
        if is_left { row.right_content } else { row.left_content }
    } else {
        None
    }
}

/// The segments one side of a row is drawn with, none where that side is
/// empty.
pub open spec fn side_content_segments(row: DiffRowView, is_left: bool) -> Option<Seq<(Seq<char>, SegmentStyle)>> {
    let (content, kind) = if is_left { (row.left_content, row.left_kind) } else { (row.right_content, row.right_kind) };
    match content {
        Some(c) => Some(content_segments(c, paired_side(row, is_left), kind, is_left)),
        None => None,
    }
}

/// The segments for one side of `row`; none for an empty side, which is
/// drawn blank.
pub fn side_segments(row: &DiffRow, is_left: bool) -> (r: Option<Vec<StyledSegment>>)
    ensures
        match (r, side_content_segments(row@, is_left)) {
            (Some(v), Some(s)) => segments_view(v@) == s,
            (None, None) => true,
            _ => false,
        },
{
    let both_changed = match (row.left_kind, row.right_kind) {
        (DiffLineKind::Removed, DiffLineKind::Added) => true,
        _ => false,
    };
    let (content, other, kind) = if is_left {
        (&row.left_content, &row.right_content, row.left_kind)
    } else {
        (&row.right_content, &row.left_content, row.right_kind)
    };
    match content {
        Some(c) => {
            let paired: Option<&str> = if both_changed {
                match other {
                    Some(o) => Some(o.as_str()),
                    None => None,
                }
            } else {
                None
            };
            Some(render_content_with_word_diff(c.as_str(), paired, kind, is_left))
        },
        None => None,
    }
}

/// The background of one side of a row: the style of its line, or the
/// context style where the side is empty.
pub open spec fn side_background(row: DiffRowView, is_left: bool) -> SegmentStyle {
    let (content, kind) = if is_left { (row.left_content, row.left_kind) } else { (row.right_content, row.right_kind) };
    if content is Some { base_style(kind) } else { SegmentStyle::DiffContext }
}

pub fn side_style(row: &DiffRow, is_left: bool) -> (s: SegmentStyle)
    ensures
        s == side_background(row@, is_left),
{
    let (content, kind) = if is_left { (&row.left_content, row.left_kind) } else { (&row.right_content, row.right_kind) };
    match content {
        Some(_) => base_style_of(kind),
        None => SegmentStyle::DiffContext,
    }
}

/// Columns given to a line number.
pub const LINE_NO_WIDTH: u16 = 4;

/// `s` padded on the left with spaces to `width` characters.
pub open spec fn pad_left(s: Seq<char>, width: nat) -> Seq<char> {
    if s.len() >= width { s } else { Seq::new((width - s.len()) as nat, |i: int| ' ') + s }
}

/// A line number right-aligned in four columns, or four spaces for none.
pub open spec fn line_number_label(n: Option<u32>) -> Seq<char> {
    match n {
        Some(k) => pad_left(decimal(k as nat), LINE_NO_WIDTH as nat),
        None => pad_left(seq![], LINE_NO_WIDTH as nat),
    }
}

/// The text of a line-number column.
pub fn line_number_text(n: Option<u32>) -> (s: String)
    ensures
        s@ == line_number_label(n),
{
    let digits: Vec<char> = match n {
        Some(k) => decimal_chars(k as u64),
        None => Vec::new(),
    };
    let mut v: Vec<char> = Vec::new();
    let mut i: usize = digits.len();
    while i < 4
        invariant
            digits.len() <= i <= 4 || (digits.len() > 4 && i == digits.len()),
            v@.len() == i - digits.len(),
            forall|j: int| 0 <= j < v@.len() ==> v@[j] == ' ',
        decreases 4 - i,
    {
        v.push(' ');
        i += 1;
    }
    let ghost pad = v@;
    let mut j: usize = 0;
    while j < digits.len()
        invariant
            j <= digits@.len(),
            v@ == pad + digits@.take(j as int),
        decreases digits.len() - j,
    {
        v.push(digits[j]);
        assert(digits@.take(j + 1) =~= digits@.take(j as int).push(digits@[j as int]));
        j += 1;
    }
    assert(digits@.take(digits@.len() as int) =~= digits@);
    proof {
        let d = match n {
            Some(k) => decimal(k as nat),
            None => Seq::<char>::empty(),
        };
        assert(digits@ == d);
        if d.len() >= 4 {
            assert(pad =~= Seq::<char>::empty());
            assert(v@ =~= d);
        } else {
            assert(pad =~= Seq::new((4 - d.len()) as nat, |i: int| ' '));
        }
    }
    string_of_all(&v)
}

/// Where the parts of a row go, for an area starting at column `x` and
/// `width` columns wide: on the left a line number and content; a separator;
/// on the right a line number and content. Each line number takes four
/// columns and a space.
#[derive(Debug, Clone, Copy, PartialEq, Eq)]
pub struct DiffLayout {
    pub left_content_x: u16,
    pub left_content_width: u16,
    pub separator_x: u16,
    pub right_start_x: u16,
    pub right_content_x: u16,
    pub right_content_width: u16,
}

pub fn diff_layout(x: u16, width: u16) -> (l: DiffLayout)
    requires
        x + width / 2 + 6 <= u16::MAX,
    ensures
        l.left_content_x == x + 5,
        l.left_content_width == if width / 2 >= 5 { width / 2 - 5 } else { 0 },
        l.separator_x == x + width / 2,
        l.right_start_x == x + width / 2 + 1,
        l.right_content_x == x + width / 2 + 6,
        l.right_content_width == if width >= width / 2 + 6 { width - width / 2 - 6 } else { 0 },
{
    let half_width = width / 2;
    let right_start_x = x + half_width + 1;
    DiffLayout {
        left_content_x: x + LINE_NO_WIDTH + 1,
        left_content_width: half_width.saturating_sub(LINE_NO_WIDTH + 1),
        separator_x: x + half_width,
        right_start_x,
        right_content_x: right_start_x + LINE_NO_WIDTH + 1,
        right_content_width: width.saturating_sub(half_width + 1 + LINE_NO_WIDTH + 1),
    }
}

/// The lines shown on one side of the rows, each with its number and the
/// kind it is drawn as, in order; empty sides left out.
pub open spec fn shown_side(rows: Seq<DiffRowView>, is_left: bool) -> Seq<(Option<u32>, Seq<char>, DiffLineKind)>
    decreases rows.len(),
{
    if rows.len() == 0 {
        seq![]
    } else {
        let r = rows.last();
        let (no, content, kind) = if is_left {
            (r.left_line_no, r.left_content, r.left_kind)
        } else {
            (r.right_line_no, r.right_content, r.right_kind)
        };
        shown_side(rows.drop_last(), is_left) + match content {
            Some(c) => seq![(no, c, kind)],
            None => seq![],
        }
    }
}

/// The lines of a hunk that belong to one side, with that side's numbers
/// and their kinds: on the old side all but the added lines, on the new
/// side all but the removed ones.
pub open spec fn hunk_side(ls: Seq<DiffLineView>, is_left: bool) -> Seq<(Option<u32>, Seq<char>, DiffLineKind)>
    decreases ls.len(),
{
    if ls.len() == 0 {
        seq![]
    } else {
        let l = ls.last();
        hunk_side(ls.drop_last(), is_left) + if is_left {
            if l.kind == DiffLineKind::Added { seq![] } else { seq![(l.old_line_no, l.content, l.kind)] }
        } else {
            if l.kind == DiffLineKind::Removed { seq![] } else { seq![(l.new_line_no, l.content, l.kind)] }
        }
    }
}

proof fn lemma_shown_side_concat(a: Seq<DiffRowView>, b: Seq<DiffRowView>, is_left: bool)
    ensures
        shown_side(a + b, is_left) == shown_side(a, is_left) + shown_side(b, is_left),
    decreases b.len(),
{
    if b.len() == 0 {
        assert(a + b =~= a);
        assert(shown_side(b, is_left) =~= Seq::<(Option<u32>, Seq<char>, DiffLineKind)>::empty());
        assert(shown_side(a, is_left) + shown_side(b, is_left) =~= shown_side(a, is_left));
    } else {
        lemma_shown_side_concat(a, b.drop_last(), is_left);
        assert((a + b).drop_last() =~= a + b.drop_last());
        assert((a + b).last() == b.last());
    }
}

/// The entries of a run of lines on one side, each with that side's number
/// and its kind.
pub open spec fn run_side(run: Seq<DiffLineView>, is_left: bool) -> Seq<(Option<u32>, Seq<char>, DiffLineKind)> {
    run.map_values(
        |l: DiffLineView|
            if is_left {
                (l.old_line_no, l.content, l.kind)
            } else {
                (l.new_line_no, l.content, l.kind)
            },
    )
}

/// Every line of the run has the kind.
pub open spec fn all_of_kind(run: Seq<DiffLineView>, kind: DiffLineKind) -> bool {
    forall|i: int| 0 <= i < run.len() ==> (#[trigger] run[i]).kind == kind
}

proof fn lemma_flush_side(removed: Seq<DiffLineView>, added: Seq<DiffLineView>, is_left: bool, k: int)
    requires
        0 <= k <= flush_rows(removed, added).len(),
        all_of_kind(removed, DiffLineKind::Removed),
        all_of_kind(added, DiffLineKind::Added),
    ensures
        shown_side(flush_rows(removed, added).take(k), is_left) == if is_left {
            run_side(removed, true).take(if k < removed.len() { k } else { removed.len() as int })
        } else {
            run_side(added, false).take(if k < added.len() { k } else { added.len() as int })
        },
    decreases k,
{
    let rows = flush_rows(removed, added);
    if k == 0 {
        assert(rows.take(0) =~= Seq::<DiffRowView>::empty());
        assert(run_side(removed, true).take(0) =~= Seq::<(Option<u32>, Seq<char>, DiffLineKind)>::empty());
        assert(run_side(added, false).take(0) =~= Seq::<(Option<u32>, Seq<char>, DiffLineKind)>::empty());
    } else {
        lemma_flush_side(removed, added, is_left, k - 1);
        assert(rows.take(k).drop_last() =~= rows.take(k - 1));
        assert(rows.take(k).last() == rows[k - 1]);
        if is_left {
            if k - 1 < removed.len() {
                assert(removed[k - 1].kind == DiffLineKind::Removed);
                assert(run_side(removed, true).take(k) =~= run_side(removed, true).take(k - 1).push(
                    run_side(removed, true)[k - 1],
                ));
            }
        } else {
            if k - 1 < added.len() {
                assert(added[k - 1].kind == DiffLineKind::Added);
                assert(run_side(added, false).take(k) =~= run_side(added, false).take(k - 1).push(
                    run_side(added, false)[k - 1],
                ));
            }
        }
    }
}

proof fn lemma_flush_side_all(removed: Seq<DiffLineView>, added: Seq<DiffLineView>, is_left: bool)
    requires
        all_of_kind(removed, DiffLineKind::Removed),
        all_of_kind(added, DiffLineKind::Added),
    ensures
        shown_side(flush_rows(removed, added), is_left) == if is_left {
            run_side(removed, true)
        } else {
            run_side(added, false)
        },
{
    let rows = flush_rows(removed, added);
    lemma_flush_side(removed, added, is_left, rows.len() as int);
    assert(rows.take(rows.len() as int) =~= rows);
    assert(run_side(removed, true).take(removed.len() as int) =~= run_side(removed, true));
    assert(run_side(added, false).take(added.len() as int) =~= run_side(added, false));
}

/// The pending runs of the pairing hold only removed and only added lines.
proof fn lemma_pair_scan_kinds(ls: Seq<DiffLineView>)
    ensures
        all_of_kind(pair_scan(ls).removed, DiffLineKind::Removed),
        all_of_kind(pair_scan(ls).added, DiffLineKind::Added),
    decreases ls.len(),
{
    if ls.len() > 0 {
        lemma_pair_scan_kinds(ls.drop_last());
        let prev = pair_scan(ls.drop_last());
        let l = ls.last();
        match l.kind {
            DiffLineKind::Context => {},
            DiffLineKind::Removed => {
                assert forall|i: int| 0 <= i < prev.removed.push(l).len() implies (#[trigger] prev.removed.push(l)[i]).kind
                    == DiffLineKind::Removed by {
                    if i < prev.removed.len() {
                        assert(prev.removed.push(l)[i] == prev.removed[i]);
                    }
                }
            },
            DiffLineKind::Added => {
                assert forall|i: int| 0 <= i < prev.added.push(l).len() implies (#[trigger] prev.added.push(l)[i]).kind
                    == DiffLineKind::Added by {
                    if i < prev.added.len() {
                        assert(prev.added.push(l)[i] == prev.added[i]);
                    }
                }
            },
        }
    }
}

/// The state of the pairing: the rows so far and the pending runs account
/// for every line read, on each side.
proof fn lemma_pair_scan_sides(ls: Seq<DiffLineView>, is_left: bool)
    ensures
        shown_side(pair_scan(ls).rows, is_left) + if is_left {
            run_side(pair_scan(ls).removed, true)
        } else {
            run_side(pair_scan(ls).added, false)
        } == hunk_side(ls, is_left),
    decreases ls.len(),
{
    if ls.len() == 0 {
        assert(run_side(Seq::<DiffLineView>::empty(), is_left) =~= Seq::<(Option<u32>, Seq<char>, DiffLineKind)>::empty());
        assert(shown_side(Seq::<DiffRowView>::empty(), is_left) + Seq::<(Option<u32>, Seq<char>, DiffLineKind)>::empty() =~= Seq::<(Option<u32>, Seq<char>, DiffLineKind)>::empty());
    } else {
        let prev = pair_scan(ls.drop_last());
        let l = ls.last();
        lemma_pair_scan_sides(ls.drop_last(), is_left);
        lemma_pair_scan_kinds(ls.drop_last());
        match l.kind {
            DiffLineKind::Context => {
                let fr = flush_rows(prev.removed, prev.added);
                lemma_shown_side_concat(prev.rows, fr, is_left);
                lemma_shown_side_concat(prev.rows + fr, seq![context_row(l)], is_left);
                lemma_flush_side_all(prev.removed, prev.added, is_left);
                assert(seq![context_row(l)].drop_last() =~= Seq::<DiffRowView>::empty());
                assert(shown_side(Seq::<DiffRowView>::empty(), is_left) =~= Seq::<(Option<u32>, Seq<char>, DiffLineKind)>::empty());
                assert(run_side(Seq::<DiffLineView>::empty(), is_left) =~= Seq::<(Option<u32>, Seq<char>, DiffLineKind)>::empty());
                if is_left {
                    assert(shown_side(seq![context_row(l)], true) =~= seq![(l.old_line_no, l.content, l.kind)]);
                } else {
                    assert(shown_side(seq![context_row(l)], false) =~= seq![(l.new_line_no, l.content, l.kind)]);
                }
                assert(pair_scan(ls).rows == prev.rows + fr + seq![context_row(l)]);
            },
            DiffLineKind::Removed => {
                assert(run_side(prev.removed.push(l), true) =~= run_side(prev.removed, true).push(
                    (l.old_line_no, l.content, l.kind),
                ));
            },
            DiffLineKind::Added => {
                assert(run_side(prev.added.push(l), false) =~= run_side(prev.added, false).push(
                    (l.new_line_no, l.content, l.kind),
                ));
            },
        }
    }
}

/// Pairing loses no line, adds none and keeps each line's kind: the left
/// column shows, in order, every old-side line of the hunk (context and
/// removed) with its old number, drawn as the kind it has in the hunk; the
/// right column every new-side line (context and added) with its new
/// number and kind.
pub proof fn lemma_pairing_keeps_each_side(ls: Seq<DiffLineView>)
    ensures
        shown_side(pair_rows(ls), true) == hunk_side(ls, true),
        shown_side(pair_rows(ls), false) == hunk_side(ls, false),
{
    let st = pair_scan(ls);
    lemma_pair_scan_sides(ls, true);
    lemma_pair_scan_sides(ls, false);
    lemma_pair_scan_kinds(ls);
    lemma_shown_side_concat(st.rows, flush_rows(st.removed, st.added), true);
    lemma_shown_side_concat(st.rows, flush_rows(st.removed, st.added), false);
    lemma_flush_side_all(st.removed, st.added, true);
    lemma_flush_side_all(st.removed, st.added, false);
}

/// Every side of the rows that holds no line has the context kind.
pub open spec fn blank_sides_are_context(rows: Seq<DiffRowView>) -> bool {
    forall|i: int|
        0 <= i < rows.len() ==> ((#[trigger] rows[i]).left_content is None ==> rows[i].left_kind == DiffLineKind::Context)
            && (rows[i].right_content is None ==> rows[i].right_kind == DiffLineKind::Context)
}

proof fn lemma_blank_concat(a: Seq<DiffRowView>, b: Seq<DiffRowView>)
    requires
        blank_sides_are_context(a),
        blank_sides_are_context(b),
    ensures
        blank_sides_are_context(a + b),
{
    assert forall|i: int| 0 <= i < (a + b).len() implies ((#[trigger] (a + b)[i]).left_content is None ==> (a
        + b)[i].left_kind == DiffLineKind::Context) && ((a + b)[i].right_content is None ==> (a + b)[i].right_kind
        == DiffLineKind::Context) by {
        if i < a.len() {
            assert((a + b)[i] == a[i]);
        } else {
            assert((a + b)[i] == b[i - a.len()]);
        }
    }
}

proof fn lemma_pair_scan_blank(ls: Seq<DiffLineView>)
    ensures
        blank_sides_are_context(pair_scan(ls).rows),
    decreases ls.len(),
{
    if ls.len() > 0 {
        lemma_pair_scan_blank(ls.drop_last());
        let prev = pair_scan(ls.drop_last());
        let l = ls.last();
        if l.kind == DiffLineKind::Context {
            let fr = flush_rows(prev.removed, prev.added);
            assert(blank_sides_are_context(fr));
            assert(blank_sides_are_context(seq![context_row(l)]));
            lemma_blank_concat(prev.rows, fr);
            lemma_blank_concat(prev.rows + fr, seq![context_row(l)]);
        }
    }
}

/// A side of a row that holds no line is drawn as context: a removed line
/// with no added line beside it leaves the right side blank in the context
/// style, and the other way round.
pub proof fn lemma_blank_sides_are_context(ls: Seq<DiffLineView>)
    ensures
        blank_sides_are_context(pair_rows(ls)),
{
    let st = pair_scan(ls);
    lemma_pair_scan_blank(ls);
    assert(blank_sides_are_context(flush_rows(st.removed, st.added)));
    lemma_blank_concat(st.rows, flush_rows(st.removed, st.added));
}

} // verus!
