//! Resolving a conflicted file: the state of the editor, which rebuilds the
//! resolved content from the file's regions.
use vstd::prelude::*;

use crate::conflict::{
    ConflictFile, ConflictRegion, ConflictRegionView, ConflictScan, conflict_regions, conflict_scan, ours_marker,
};
use crate::log::strings_view;
use crate::text::{decimal, decimal_string, join, lemma_join_split, lemma_lines_are_split, lines, split, starts_with};

verus! {

/// The number of conflicts among the regions.
pub open spec fn conflict_count(rs: Seq<ConflictRegionView>) -> nat
    decreases rs.len(),
{
    if rs.len() == 0 {
        0
    } else {
        conflict_count(rs.drop_last()) + match rs.last() {
            ConflictRegionView::Clean(_) => 0nat,
            ConflictRegionView::Conflict { .. } => 1nat,
        }
    }
}

/// Whether conflict number `k` takes its "ours" side: what was chosen for
/// it, "ours" where nothing was.
pub open spec fn takes_ours(choices: Seq<bool>, k: int) -> bool {
    k >= choices.len() || choices[k]
}

/// The resolved lines: clean regions as they are, conflict number `k`
/// (counting from 0) by the side chosen for it.
pub open spec fn resolve(rs: Seq<ConflictRegionView>, choices: Seq<bool>) -> Seq<Seq<char>>
    decreases rs.len(),
{
    if rs.len() == 0 {
        seq![]
    } else {
        resolve(rs.drop_last(), choices) + match rs.last() {
            ConflictRegionView::Clean(ls) => ls,
            ConflictRegionView::Conflict { ours, theirs } => if takes_ours(choices, conflict_count(rs.drop_last()) as int) {
                ours
            } else {
                theirs
            },
        }
    }
}

/// The choices after choosing a side for conflict `current`: recorded when
/// there is a place for it, the others kept.
pub open spec fn chosen(choices: Seq<bool>, current: int, use_ours: bool) -> Seq<bool> {
    if 0 <= current < choices.len() {
        choices.update(current, use_ours)
    } else {
        choices
    }
}

/// The sides of conflict number `idx`, if the regions have that many.
pub open spec fn nth_conflict(rs: Seq<ConflictRegionView>, idx: int) -> Option<(Seq<Seq<char>>, Seq<Seq<char>>)>
    decreases rs.len(),
{
    if rs.len() == 0 {
        None
    } else {
        match nth_conflict(rs.drop_last(), idx) {
            Some(p) => Some(p),
            None => match rs.last() {
                ConflictRegionView::Conflict { ours, theirs } => if conflict_count(rs.drop_last()) == idx {
                    Some((ours, theirs))
                } else {
                    None
                },
                ConflictRegionView::Clean(_) => None,
            },
        }
    }
}

/// The conflict after moving on from `current`: the next, when there is one.
pub open spec fn next_conflict_index(current: usize, total: usize) -> usize {
    if current + 1 < total { (current + 1) as usize } else { current }
}

/// The conflict after moving back from `current`: the previous, when there
/// is one.
pub open spec fn prev_conflict_index(current: usize) -> usize {
    if current > 0 { (current - 1) as usize } else { 0 }
}

#[derive(Debug, Clone, PartialEq)]
pub struct ConflictEditorState {
    pub current_conflict: usize,
    pub total_conflicts: usize,
    pub resolved_count: usize,
    pub result_lines: Vec<String>,
    pub cursor_line: usize,
    pub cursor_col: usize,
    pub editing: bool,
    pub scroll_y: u16,
    /// For each conflict, whether its "ours" side is taken.
    pub choices: Vec<bool>,
}

fn append_lines(result: &mut Vec<String>, ls: &Vec<String>)
    ensures
        strings_view(final(result)@) == strings_view(old(result)@) + strings_view(ls@),
{
    let ghost start = strings_view(result@);
    let mut k: usize = 0;
    while k < ls.len()
        invariant
            k <= ls@.len(),
            strings_view(result@) == start + strings_view(ls@.take(k as int)),
        decreases ls.len() - k,
    {
        let ghost prev = result@;
        result.push(ls[k].clone());
        assert(strings_view(result@) =~= strings_view(prev).push(ls@[k as int]@));
        assert(strings_view(ls@.take(k + 1)) =~= strings_view(ls@.take(k as int)).push(ls@[k as int]@));
        k += 1;
    }
    assert(ls@.take(ls@.len() as int) =~= ls@);
}

/// The number of conflict regions of `file`.
fn count_conflicts(file: &ConflictFile) -> (n: usize)
    ensures
        n == conflict_count(file@.regions),
{
    let ghost rv = file@.regions;
    let mut n: usize = 0;
    let mut k: usize = 0;
    assert(rv.take(0) =~= Seq::<ConflictRegionView>::empty());
    while k < file.regions.len()
        invariant
            rv == file@.regions,
            k <= file.regions@.len(),
            n == conflict_count(rv.take(k as int)),
            n <= k,
        decreases file.regions.len() - k,
    {
        assert(rv.take(k + 1).drop_last() =~= rv.take(k as int));
        assert(rv[k as int] == file.regions@[k as int]@);
        match &file.regions[k] {
            ConflictRegion::Conflict { .. } => {
                n += 1;
            },
            ConflictRegion::Clean(_) => {},
        }
        k += 1;
    }
    assert(rv.take(file.regions@.len() as int) =~= rv);
    n
}

impl ConflictEditorState {
    /// The editor opened on `file`: the first conflict current, no side
    /// chosen yet, so every conflict resolved by its "ours" side.
    pub fn from_conflict_file(file: &ConflictFile) -> (s: Self)
        ensures
            s.current_conflict == 0,
            s.total_conflicts == conflict_count(file@.regions),
            s.resolved_count == 0,
            s.choices@ == Seq::new(conflict_count(file@.regions), |i: int| true),
            strings_view(s.result_lines@) == resolve(file@.regions, s.choices@),
            s.cursor_line == 0,
            s.cursor_col == 0,
            !s.editing,
            s.scroll_y == 0,
    {
        let total_conflicts = count_conflicts(file);
        let mut choices: Vec<bool> = Vec::new();
        let mut i: usize = 0;
        while i < total_conflicts
            invariant
                i <= total_conflicts,
                choices@ == Seq::new(i as nat, |j: int| true),
            decreases total_conflicts - i,
        {
            choices.push(true);
            assert(choices@ =~= Seq::new((i + 1) as nat, |j: int| true));
            i += 1;
        }
        let mut state = Self {
            current_conflict: 0,
            total_conflicts,
            resolved_count: 0,
            result_lines: Vec::new(),
            cursor_line: 0,
            cursor_col: 0,
            editing: false,
            scroll_y: 0,
            choices,
        };
        state.apply_choice(file, true);
        proof {
            if total_conflicts > 0 {
                assert(Seq::new(total_conflicts as nat, |j: int| true).update(0, true) =~= Seq::new(
                    total_conflicts as nat,
                    |j: int| true,
                ));
            }
        }
        state
    }

    /// Chooses the "ours" side for the current conflict; the other
    /// conflicts keep the sides chosen for them.
    pub fn use_ours(&mut self, file: &ConflictFile)
        ensures
            final(self).choices@ == chosen(old(self).choices@, old(self).current_conflict as int, true),
            strings_view(final(self).result_lines@) == resolve(file@.regions, final(self).choices@),
            final(self).current_conflict == old(self).current_conflict,
            final(self).total_conflicts == old(self).total_conflicts,
            final(self).resolved_count == old(self).resolved_count,
            final(self).cursor_line == old(self).cursor_line,
            final(self).cursor_col == old(self).cursor_col,
            final(self).editing == old(self).editing,
            final(self).scroll_y == old(self).scroll_y,
    {
        self.apply_choice(file, true);
    }

    /// Chooses the "theirs" side for the current conflict; the other
    /// conflicts keep the sides chosen for them.
    pub fn use_theirs(&mut self, file: &ConflictFile)
        ensures
            final(self).choices@ == chosen(old(self).choices@, old(self).current_conflict as int, false),
            strings_view(final(self).result_lines@) == resolve(file@.regions, final(self).choices@),
            final(self).current_conflict == old(self).current_conflict,
            final(self).total_conflicts == old(self).total_conflicts,
            final(self).resolved_count == old(self).resolved_count,
            final(self).cursor_line == old(self).cursor_line,
            final(self).cursor_col == old(self).cursor_col,
            final(self).editing == old(self).editing,
            final(self).scroll_y == old(self).scroll_y,
    {
        self.apply_choice(file, false);
    }

    /// Records the side chosen for the current conflict and rebuilds the
    /// result from the regions, each conflict by the side chosen for it
    /// ("ours" where none was).
    pub fn apply_choice(&mut self, file: &ConflictFile, use_ours: bool)
        ensures
            final(self).choices@ == chosen(old(self).choices@, old(self).current_conflict as int, use_ours),
            strings_view(final(self).result_lines@) == resolve(file@.regions, final(self).choices@),
            final(self).current_conflict == old(self).current_conflict,
            final(self).total_conflicts == old(self).total_conflicts,
            final(self).resolved_count == old(self).resolved_count,
            final(self).cursor_line == old(self).cursor_line,
            final(self).cursor_col == old(self).cursor_col,
            final(self).editing == old(self).editing,
            final(self).scroll_y == old(self).scroll_y,
    {
        let ghost rv = file@.regions;
        let current = self.current_conflict;
        if current < self.choices.len() {
            self.choices.set(current, use_ours);
        }
        let ghost cs = self.choices@;
        assert(cs == chosen(old(self).choices@, current as int, use_ours));
        let mut result: Vec<String> = Vec::new();
        let mut conflict_idx: usize = 0;
        let mut k: usize = 0;
        assert(rv.take(0) =~= Seq::<ConflictRegionView>::empty());
        assert(strings_view(result@) =~= Seq::<Seq<char>>::empty());
        while k < file.regions.len()
            invariant
                rv == file@.regions,
                cs == self.choices@,
                k <= file.regions@.len(),
                conflict_idx == conflict_count(rv.take(k as int)),
                conflict_idx <= k,
                strings_view(result@) == resolve(rv.take(k as int), cs),
            decreases file.regions.len() - k,
        {
            assert(rv.take(k + 1).drop_last() =~= rv.take(k as int));
            assert(rv[k as int] == file.regions@[k as int]@);
            match &file.regions[k] {
                ConflictRegion::Clean(ls) => {
                    append_lines(&mut result, ls);
                },
                ConflictRegion::Conflict { ours, theirs } => {
                    let ours_taken = conflict_idx >= self.choices.len() || self.choices[conflict_idx];
                    if ours_taken {
                        append_lines(&mut result, ours);
                    } else {
                        append_lines(&mut result, theirs);
                    }
                    conflict_idx += 1;
                },
            }
            k += 1;
        }
        assert(rv.take(file.regions@.len() as int) =~= rv);
        self.result_lines = result;
    }

    /// Moves to the next conflict, if there is one.
    pub fn next_conflict(&mut self)
        requires
            old(self).current_conflict < usize::MAX,
        ensures
            final(self).current_conflict == next_conflict_index(old(self).current_conflict, old(self).total_conflicts),
            final(self).total_conflicts == old(self).total_conflicts,
            final(self).result_lines@ == old(self).result_lines@,
            final(self).resolved_count == old(self).resolved_count,
            final(self).cursor_line == old(self).cursor_line,
            final(self).cursor_col == old(self).cursor_col,
            final(self).editing == old(self).editing,
            final(self).scroll_y == old(self).scroll_y,
            final(self).choices@ == old(self).choices@,
    {
        if self.current_conflict + 1 < self.total_conflicts {
            self.current_conflict += 1;
        }
    }

    /// Moves to the previous conflict, if there is one.
    pub fn prev_conflict(&mut self)
        ensures
            final(self).current_conflict == prev_conflict_index(old(self).current_conflict),
            final(self).total_conflicts == old(self).total_conflicts,
            final(self).result_lines@ == old(self).result_lines@,
            final(self).resolved_count == old(self).resolved_count,
            final(self).cursor_line == old(self).cursor_line,
            final(self).cursor_col == old(self).cursor_col,
            final(self).editing == old(self).editing,
            final(self).scroll_y == old(self).scroll_y,
            final(self).choices@ == old(self).choices@,
    {
        if self.current_conflict > 0 {
            self.current_conflict -= 1;
        }
    }

    /// The resolved content: the result lines joined by newlines.
    pub fn result_content(&self) -> (s: String)
        ensures
            s@ == join(strings_view(self.result_lines@), "\n"@),
    {
        let mut s = String::new();
        let ghost lv = strings_view(self.result_lines@);
        let mut k: usize = 0;
        while k < self.result_lines.len()
            invariant
                lv == strings_view(self.result_lines@),
                k <= lv.len(),
                s@ == join(lv.take(k as int), "\n"@),
            decreases self.result_lines.len() - k,
        {
            assert(lv.take(k + 1).drop_last() =~= lv.take(k as int));
            if k > 0 {
                s.append("\n");
            }
            s.append(self.result_lines[k].as_str());
            proof {
                if k == 0 {
                    assert(s@ =~= lv.take(1)[0]);
                }
            }
            k += 1;
        }
        assert(lv.take(lv.len() as int) =~= lv);
        s
    }
}

/// Moving back undoes moving on, when there was a next conflict to move to;
/// moving on from the last conflict stays on it.
pub proof fn lemma_prev_undoes_next_conflict(current: usize, total: usize)
    requires
        current < usize::MAX,
    ensures
        current + 1 < total ==> prev_conflict_index(next_conflict_index(current, total)) == current,
        current + 1 >= total ==> next_conflict_index(current, total) == current,
{
}

/// The editor's view of a conflicted file.
pub struct ConflictEditor<'a> {
    file: &'a ConflictFile,
}

impl<'a> ConflictEditor<'a> {
    pub fn new(file: &'a ConflictFile) -> (e: Self)
        ensures
            e.file() == file,
    {
        Self { file }
    }

    pub closed spec fn file(&self) -> &'a ConflictFile {
        self.file
    }

    /// The "ours" and "theirs" lines of conflict number `current`, both
    /// empty when the file has fewer conflicts.
    pub fn current_sides(&self, current: usize) -> (r: (Vec<String>, Vec<String>))
        ensures
            match nth_conflict(self.file()@.regions, current as int) {
                Some((o, t)) => strings_view(r.0@) == o && strings_view(r.1@) == t,
                None => r.0@.len() == 0 && r.1@.len() == 0,
            },
    {
        let ghost rv = self.file@.regions;
        let mut conflict_idx: usize = 0;
        let mut k: usize = 0;
        assert(rv.take(0) =~= Seq::<ConflictRegionView>::empty());
        while k < self.file.regions.len()
            invariant
                rv == self.file@.regions,
                k <= self.file.regions@.len(),
                conflict_idx == conflict_count(rv.take(k as int)),
                conflict_idx <= k,
                nth_conflict(rv.take(k as int), current as int) is None,
            decreases self.file.regions.len() - k,
        {
            assert(rv.take(k + 1).drop_last() =~= rv.take(k as int));
            assert(rv[k as int] == self.file.regions@[k as int]@);
            match &self.file.regions[k] {
                ConflictRegion::Conflict { ours, theirs } => {
                    if conflict_idx == current {
                        let mut o: Vec<String> = Vec::new();
                        let mut t: Vec<String> = Vec::new();
                        assert(strings_view(o@) =~= Seq::<Seq<char>>::empty());
                        assert(strings_view(t@) =~= Seq::<Seq<char>>::empty());
                        append_lines(&mut o, ours);
                        append_lines(&mut t, theirs);
                        proof {
                            lemma_nth_conflict_prefix(rv, k as int + 1, current as int);
                        }
                        return (o, t);
                    }
                    conflict_idx += 1;
                },
                ConflictRegion::Clean(_) => {},
            }
            k += 1;
        }
        assert(rv.take(self.file.regions@.len() as int) =~= rv);
        (Vec::new(), Vec::new())
    }

    /// The header line: the path, then how many conflicts are resolved.
    pub fn header_text(&self, state: &ConflictEditorState) -> (s: String)
        ensures
            s@ == " Conflict: "@ + self.file()@.path + " \u{2014} "@ + decimal(state.resolved_count as nat) + "/"@
                + decimal(state.total_conflicts as nat) + " resolved"@,
    {
        let mut s = String::from_str(" Conflict: ");
        s.append(self.file.path.as_str());
        s.append(" \u{2014} ");
        let resolved = decimal_string(state.resolved_count as u64);
        s.append(resolved.as_str());
        s.append("/");
        let total = decimal_string(state.total_conflicts as u64);
        s.append(total.as_str());
        s.append(" resolved");
        s
    }
}

proof fn lemma_nth_conflict_prefix(rs: Seq<ConflictRegionView>, k: int, idx: int)
    requires
        0 <= k <= rs.len(),
        nth_conflict(rs.take(k), idx) is Some,
    ensures
        nth_conflict(rs, idx) == nth_conflict(rs.take(k), idx),
    decreases rs.len() - k,
{
    if k == rs.len() {
        assert(rs.take(k) =~= rs);
    } else {
        assert(rs.take(k + 1).drop_last() =~= rs.take(k));
        lemma_nth_conflict_prefix(rs, k + 1, idx);
    }
}

/// A choice stays until it is changed: choosing a side for conflict `j`
/// keeps the side chosen for any other conflict `k`; choosing "ours" for a
/// conflict after "theirs" is as if "theirs" had never been chosen.
pub proof fn lemma_choices_are_kept(choices: Seq<bool>, k: int, a: bool, j: int, b: bool)
    requires
        0 <= k < choices.len(),
        j != k,
    ensures
        takes_ours(chosen(chosen(choices, k, a), j, b), k) == a,
        chosen(chosen(choices, k, false), k, true) == chosen(choices, k, true),
{
    assert(chosen(chosen(choices, k, false), k, true) =~= chosen(choices, k, true));
}

/// Content with no line that opens a conflict.
pub open spec fn has_no_conflict(content: Seq<char>) -> bool {
    forall|i: int| 0 <= i < lines(content).len() ==> !starts_with(#[trigger] lines(content)[i], ours_marker())
}

proof fn lemma_scan_clean(ls: Seq<Seq<char>>, k: int)
    requires
        0 <= k <= ls.len(),
        forall|i: int| 0 <= i < ls.len() ==> !starts_with(#[trigger] ls[i], ours_marker()),
    ensures
        conflict_scan(ls.take(k)) == (ConflictScan {
            regions: seq![],
            clean: ls.take(k),
            ours: None,
            theirs: None,
            in_ours: false,
            in_theirs: false,
        }),
    decreases k,
{
    if k == 0 {
        assert(ls.take(0) =~= Seq::<Seq<char>>::empty());
    } else {
        lemma_scan_clean(ls, k - 1);
        assert(ls.take(k).drop_last() =~= ls.take(k - 1));
        assert(ls.take(k).last() == ls[k - 1]);
        assert(ls.take(k - 1).push(ls[k - 1]) =~= ls.take(k));
    }
}

/// Resolving a file that has no conflict gives back its lines, whatever is
/// chosen.
pub proof fn lemma_clean_file_resolves_to_its_lines(content: Seq<char>, choices: Seq<bool>)
    requires
        has_no_conflict(content),
    ensures
        resolve(conflict_regions(content), choices) == lines(content),
{
    let ls = lines(content);
    lemma_scan_clean(ls, ls.len() as int);
    assert(ls.take(ls.len() as int) =~= ls);
    if ls.len() > 0 {
        let rs = conflict_regions(content);
        assert(rs == seq![ConflictRegionView::Clean(ls)]);
        assert(rs.drop_last() =~= Seq::<ConflictRegionView>::empty());
        assert(resolve(rs.drop_last(), choices) == Seq::<Seq<char>>::empty());
        assert(rs.last() == ConflictRegionView::Clean(ls));
        assert(resolve(rs, choices) =~= Seq::<Seq<char>>::empty() + ls);
    } else {
        assert(conflict_regions(content) =~= Seq::<ConflictRegionView>::empty());
    }
}

/// A file with no conflict, no carriage return and no final newline comes
/// back whole: its resolved lines joined by newlines are its content.
pub proof fn lemma_clean_content_round_trip(content: Seq<char>, choices: Seq<bool>)
    requires
        has_no_conflict(content),
        !content.contains('\r'),
        content.len() == 0 || content.last() != '\n',
    ensures
        join(resolve(conflict_regions(content), choices), "\n"@) == content,
{
    lemma_clean_file_resolves_to_its_lines(content, choices);
    reveal_strlit("\n");
    assert("\n"@ =~= seq!['\n']);
    if content.len() == 0 {
        assert(split(content, seq!['\n']) =~= seq![content]);
        assert(lines(content) =~= Seq::<Seq<char>>::empty());
    } else {
        lemma_lines_are_split(content);
        lemma_join_split(content, seq!['\n']);
    }
}

} // verus!
