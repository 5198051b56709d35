//! Merge conflicts: the regions of a file with conflict markers.
use vstd::prelude::*;

use crate::error::{GitError, GitErrorView};
use crate::log::{strings_view, strings_of};
use crate::runner::{CommandRunner, args_view};
use crate::text::{chars_of, lines, lines_exec, starts_with, starts_with_exec, string_of_all};

verus! {

#[derive(Debug, Clone, PartialEq)]
pub enum ConflictRegion {
    Clean(Vec<String>),
    Conflict { ours: Vec<String>, theirs: Vec<String> },
}

pub enum ConflictRegionView {
    Clean(Seq<Seq<char>>),
    Conflict { ours: Seq<Seq<char>>, theirs: Seq<Seq<char>> },
}

impl View for ConflictRegion {
    type V = ConflictRegionView;

    open spec fn view(&self) -> ConflictRegionView {
        match self {
            ConflictRegion::Clean(ls) => ConflictRegionView::Clean(strings_view(ls@)),
            ConflictRegion::Conflict { ours, theirs } => ConflictRegionView::Conflict {
                ours: strings_view(ours@),
                theirs: strings_view(theirs@),
            },
        }
    }
}

pub open spec fn regions_view(v: Seq<ConflictRegion>) -> Seq<ConflictRegionView> {
    v.map_values(|r: ConflictRegion| r@)
}

#[derive(Debug, Clone, PartialEq)]
pub struct ConflictFile {
    pub path: String,
    pub regions: Vec<ConflictRegion>,
}

pub struct ConflictFileView {
    pub path: Seq<char>,
    pub regions: Seq<ConflictRegionView>,
}

impl View for ConflictFile {
    type V = ConflictFileView;

    open spec fn view(&self) -> ConflictFileView {
        ConflictFileView { path: self.path@, regions: regions_view(self.regions@) }
    }
}

pub open spec fn ours_marker() -> Seq<char> {
    seq!['<', '<', '<', '<', '<', '<', '<']
}

pub open spec fn sep_marker() -> Seq<char> {
    seq!['=', '=', '=', '=', '=', '=', '=']
}

pub open spec fn theirs_marker() -> Seq<char> {
    seq!['>', '>', '>', '>', '>', '>', '>']
}

/// The reader's state after some lines of a file.
pub struct ConflictScan {
    pub regions: Seq<ConflictRegionView>,
    pub clean: Seq<Seq<char>>,
    pub ours: Option<Seq<Seq<char>>>,
    pub theirs: Option<Seq<Seq<char>>>,
    pub in_ours: bool,
    pub in_theirs: bool,
}

pub open spec fn scan_start() -> ConflictScan {
    ConflictScan { regions: seq![], clean: seq![], ours: None, theirs: None, in_ours: false, in_theirs: false }
}

/// One line read. A line starting with `<<<<<<<` closes the clean lines
/// before it (if any) into a region and starts "ours"; one starting with
/// `=======` while in "ours" starts "theirs"; one starting with `>>>>>>>`
/// while in "theirs" closes the conflict. Other lines go to the side being
/// read, else to the clean lines.
pub open spec fn conflict_step(st: ConflictScan, line: Seq<char>) -> ConflictScan {
    if starts_with(line, ours_marker()) {
        ConflictScan {
            regions: if st.clean.len() > 0 { st.regions.push(ConflictRegionView::Clean(st.clean)) } else { st.regions },
            clean: seq![],
            ours: Some(seq![]),
            in_ours: true,
            ..st
        }
    } else if starts_with(line, sep_marker()) && st.in_ours {
        ConflictScan { in_ours: false, in_theirs: true, theirs: Some(seq![]), ..st }
    } else if starts_with(line, theirs_marker()) && st.in_theirs {
        ConflictScan {
            in_theirs: false,
            ours: None,
            theirs: None,
            regions: match (st.ours, st.theirs) {
                (Some(o), Some(t)) => st.regions.push(ConflictRegionView::Conflict { ours: o, theirs: t }),
                _ => st.regions,
            },
            ..st
        }
    } else if st.in_ours {
        ConflictScan {
            ours: match st.ours {
                Some(o) => Some(o.push(line)),
                None => None,
            },
            ..st
        }
    } else if st.in_theirs {
        ConflictScan {
            theirs: match st.theirs {
                Some(t) => Some(t.push(line)),
                None => None,
            },
            ..st
        }
    } else {
        ConflictScan { clean: st.clean.push(line), ..st }
    }
}

pub open spec fn conflict_scan(ls: Seq<Seq<char>>) -> ConflictScan
    decreases ls.len(),
{
    if ls.len() == 0 {
        scan_start()
    } else {
        conflict_step(conflict_scan(ls.drop_last()), ls.last())
    }
}

/// The regions of a file: those the reader closed, then the trailing clean
/// lines, if any. An unterminated conflict is dropped.
pub open spec fn conflict_regions(content: Seq<char>) -> Seq<ConflictRegionView> {
    let st = conflict_scan(lines(content));
    if st.clean.len() > 0 { st.regions.push(ConflictRegionView::Clean(st.clean)) } else { st.regions }
}

pub open spec fn opt_lines_view(o: Option<Vec<String>>) -> Option<Seq<Seq<char>>> {
    match o {
        Some(v) => Some(strings_view(v@)),
        None => None,
    }
}

/// The regions of a file's content with conflict markers.
pub fn parse_conflict_markers(path: &str, content: &str) -> (r: Result<ConflictFile, GitError>)
    ensures
        r matches Ok(f) && f@.path == path@ && f@.regions == conflict_regions(content@),
{
    let text = chars_of(content);
    let ls = lines_exec(&text);
    let ghost lv = lines(content@);
    let om = vec!['<', '<', '<', '<', '<', '<', '<'];
    let sm = vec!['=', '=', '=', '=', '=', '=', '='];
    let tm = vec!['>', '>', '>', '>', '>', '>', '>'];
    assert(om@ =~= ours_marker());
    assert(sm@ =~= sep_marker());
    assert(tm@ =~= theirs_marker());
    let mut regions: Vec<ConflictRegion> = Vec::new();
    let mut clean_lines: Vec<String> = Vec::new();
    let mut ours_lines: Option<Vec<String>> = None;
    let mut theirs_lines: Option<Vec<String>> = None;
    let mut in_ours = false;
    let mut in_theirs = false;
    let mut i: usize = 0;
    assert(lv.take(0) =~= Seq::<Seq<char>>::empty());
    assert(regions_view(regions@) =~= Seq::<ConflictRegionView>::empty());
    assert(strings_view(clean_lines@) =~= Seq::<Seq<char>>::empty());
    while i < ls.len()
        invariant
            lv == lines(content@),
            om@ == ours_marker(),
            sm@ == sep_marker(),
            tm@ == theirs_marker(),
            ls@.len() == lv.len(),
            forall|k: int| 0 <= k < ls@.len() ==> #[trigger] ls@[k]@ == lv[k],
            i <= ls@.len(),
            conflict_scan(lv.take(i as int)) == (ConflictScan {
                regions: regions_view(regions@),
                clean: strings_view(clean_lines@),
                ours: opt_lines_view(ours_lines),
                theirs: opt_lines_view(theirs_lines),
                in_ours,
                in_theirs,
            }),
        decreases ls.len() - i,
    {
        let line = &ls[i];
        assert(line@ == lv[i as int]);
        assert(lv.take(i + 1).drop_last() =~= lv.take(i as int));
        if starts_with_exec(line, &om) {
            if clean_lines.len() > 0 {
                let ghost prev = regions@;
                let mut taken: Vec<String> = Vec::new();
                std::mem::swap(&mut taken, &mut clean_lines);
                regions.push(ConflictRegion::Clean(taken));
                assert(regions_view(regions@) =~= regions_view(prev).push(ConflictRegionView::Clean(strings_view(taken@))));
            }
            assert(strings_view(clean_lines@) =~= Seq::<Seq<char>>::empty());
            in_ours = true;
            ours_lines = Some(Vec::new());
            assert(opt_lines_view(ours_lines) == Some(Seq::<Seq<char>>::empty()));
        } else if starts_with_exec(line, &sm) && in_ours {
            in_ours = false;
            in_theirs = true;
            theirs_lines = Some(Vec::new());
            assert(opt_lines_view(theirs_lines) == Some(Seq::<Seq<char>>::empty()));
        } else if starts_with_exec(line, &tm) && in_theirs {
            in_theirs = false;
            let o = ours_lines;
            let t = theirs_lines;
            ours_lines = None;
            theirs_lines = None;
            match (o, t) {
                (Some(ours), Some(theirs)) => {
                    let ghost prev = regions@;
                    let region = ConflictRegion::Conflict { ours, theirs };
                    regions.push(region);
                    assert(regions_view(regions@) =~= regions_view(prev).push(region@));
                },
                _ => {},
            }
        } else if in_ours {
            match ours_lines {
                Some(mut ls_o) => {
                    let ghost prev = ls_o@;
                    ls_o.push(string_of_all(line));
                    assert(strings_view(ls_o@) =~= strings_view(prev).push(line@));
                    ours_lines = Some(ls_o);
                },
                None => {
                    ours_lines = None;
                },
            }
        } else if in_theirs {
            match theirs_lines {
                Some(mut ls_t) => {
                    let ghost prev = ls_t@;
                    ls_t.push(string_of_all(line));
                    assert(strings_view(ls_t@) =~= strings_view(prev).push(line@));
                    theirs_lines = Some(ls_t);
                },
                None => {
                    theirs_lines = None;
                },
            }
        } else {
            let ghost prev = clean_lines@;
            clean_lines.push(string_of_all(line));
            assert(strings_view(clean_lines@) =~= strings_view(prev).push(line@));
        }
        i += 1;
    }
    assert(lv.take(ls@.len() as int) =~= lv);
    if clean_lines.len() > 0 {
        let ghost prev = regions@;
        let region = ConflictRegion::Clean(clean_lines);
        regions.push(region);
        assert(regions_view(regions@) =~= regions_view(prev).push(region@));
    }
    Ok(ConflictFile { path: String::from_str(path), regions })
}

pub open spec fn conflict_paths_args() -> Seq<Seq<char>> {
    seq!["diff"@, "--name-only"@, "--diff-filter=U"@]
}

/// The nonempty lines of `s`.
pub open spec fn nonempty_lines(ls: Seq<Seq<char>>) -> Seq<Seq<char>> {
    ls.filter(|l: Seq<char>| l.len() > 0)
}

/// The paths with unresolved conflicts: the nonempty lines of
/// `git diff --name-only --diff-filter=U`.
pub fn get_conflict_paths<R: CommandRunner>(runner: &R) -> (r: Result<Vec<String>, GitError>)
    ensures
        exists|out: Result<Seq<char>, GitErrorView>|
            #[trigger] runner.run_outcome(conflict_paths_args(), None, out) && match out {
                Ok(o) => r matches Ok(v) && strings_view(v@) == nonempty_lines(lines(o)),
                Err(e) => r matches Err(err) && err@ == e,
            },
{
    let args = ["diff", "--name-only", "--diff-filter=U"];
    assert(args_view(args@) =~= conflict_paths_args());
    match runner.run(&args) {
        Ok(output) => {
            let text = chars_of(output.as_str());
            let ls = lines_exec(&text);
            let ghost lv = lines(output@);
            let mut paths: Vec<String> = Vec::new();
            let mut i: usize = 0;
            assert(lv.take(0) =~= Seq::<Seq<char>>::empty());
            assert(strings_view(paths@) =~= Seq::<Seq<char>>::empty());
            while i < ls.len()
                invariant
                    lv == lines(output@),
                    ls@.len() == lv.len(),
                    forall|k: int| 0 <= k < ls@.len() ==> #[trigger] ls@[k]@ == lv[k],
                    i <= ls@.len(),
                    strings_view(paths@) == nonempty_lines(lv.take(i as int)),
                decreases ls.len() - i,
            {
                assert(ls@[i as int]@ == lv[i as int]);
                assert(lv.take(i + 1).drop_last() =~= lv.take(i as int));
                reveal_with_fuel(Seq::filter, 1);
                if ls[i].len() > 0 {
                    let ghost prev = paths@;
                    paths.push(string_of_all(&ls[i]));
                    assert(strings_view(paths@) =~= strings_view(prev).push(ls@[i as int]@));
                }
                i += 1;
            }
            assert(lv.take(ls@.len() as int) =~= lv);
            Ok(paths)
        },
        Err(e) => Err(e),
    }
}

} // verus!
