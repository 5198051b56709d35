use gitat::file_list::{
    changes_header, clamp_selection, file_list, first_entry_row, selected_entry_diff, selected_file, toggle_selected_stage, FileSection,
};
use gitat::runner::MockRunner;
use gitat::graph::{uncommitted_row, GraphCell, GraphRow};
use gitat::status::{change_counts, FileStatus, StatusEntry};

fn entry(path: &str, index_status: FileStatus, worktree_status: FileStatus) -> StatusEntry {
    StatusEntry { path: path.to_string(), index_status, worktree_status }
}

fn sample() -> Vec<StatusEntry> {
    vec![
        entry("both.rs", FileStatus::Modified, FileStatus::Modified),
        entry("new.txt", FileStatus::Untracked, FileStatus::Untracked),
        entry("added.rs", FileStatus::Added, FileStatus::Unmodified),
        entry("edit.rs", FileStatus::Unmodified, FileStatus::Modified),
    ]
}

#[test]
fn sections_list_staged_then_modified_then_untracked() {
    let rows = file_list(&sample());
    assert_eq!(
        rows,
        vec![
            (FileSection::Staged, None),
            (FileSection::Staged, Some(0)),
            (FileSection::Staged, Some(2)),
            (FileSection::Modified, None),
            (FileSection::Modified, Some(0)),
            (FileSection::Modified, Some(3)),
            (FileSection::Untracked, None),
            (FileSection::Untracked, Some(1)),
        ]
    );
}

#[test]
fn empty_sections_are_left_out() {
    let rows = file_list(&[entry("a", FileStatus::Unmodified, FileStatus::Deleted)]);
    assert_eq!(rows, vec![(FileSection::Modified, None), (FileSection::Modified, Some(0))]);
    assert!(file_list(&[]).is_empty());
}

#[test]
fn selection_points_at_entries_not_headers() {
    let rows = file_list(&sample());
    assert_eq!(selected_file(&rows, Some(0)), None);
    assert_eq!(selected_file(&rows, Some(1)), Some((0, true)));
    assert_eq!(selected_file(&rows, Some(4)), Some((0, false)));
    assert_eq!(selected_file(&rows, Some(7)), Some((1, false)));
    assert_eq!(selected_file(&rows, Some(8)), None);
    assert_eq!(selected_file(&rows, None), None);
}

#[test]
fn change_counts_and_header() {
    let (staged, unstaged, untracked) = change_counts(&sample());
    assert_eq!((staged, unstaged, untracked), (2, 1, 1));
    assert_eq!(changes_header(staged, unstaged, untracked), "Uncommitted Changes \u{2014} 2 staged, 2 unstaged");
    assert_eq!(changes_header(0, 0, 0), "Uncommitted Changes");
    assert!(sample()[0].is_staged());
    assert!(!sample()[1].is_staged());
}

#[test]
fn working_tree_row_above_the_graph() {
    let first = GraphRow {
        cells: vec![
            GraphCell { symbol: '*', color_index: 0 },
            GraphCell { symbol: ' ', color_index: 0 },
            GraphCell { symbol: '|', color_index: 2 },
        ],
    };
    assert_eq!(
        uncommitted_row(Some(&first), true),
        vec![
            GraphCell { symbol: '*', color_index: 0 },
            GraphCell { symbol: ' ', color_index: 0 },
            GraphCell { symbol: '|', color_index: 2 },
        ]
    );
    assert_eq!(
        uncommitted_row(Some(&first), false),
        vec![
            GraphCell { symbol: '|', color_index: 0 },
            GraphCell { symbol: ' ', color_index: 0 },
            GraphCell { symbol: '|', color_index: 2 },
        ]
    );
    assert_eq!(uncommitted_row(None, true), vec![GraphCell { symbol: '*', color_index: 0 }]);
    assert!(uncommitted_row(None, false).is_empty());
}

#[test]
fn first_entry_and_clamped_selection() {
    let rows = file_list(&sample());
    assert_eq!(first_entry_row(&rows), Some(1));
    assert_eq!(first_entry_row(&vec![(FileSection::Staged, None)]), None);
    assert_eq!(clamp_selection(Some(9), 3), Some(2));
    assert_eq!(clamp_selection(Some(1), 3), Some(1));
    assert_eq!(clamp_selection(Some(0), 0), None);
    assert_eq!(clamp_selection(None, 3), None);
}

#[test]
fn selected_entry_diff_and_staging() {
    let status = sample();
    let rows = file_list(&status);
    let out = "diff --git a/both.rs b/both.rs\n--- a/both.rs\n+++ b/both.rs\n@@ -1 +1 @@\n-x\n+y\n";
    let runner = MockRunner::new()
        .with_response("diff --cached -- both.rs", out)
        .with_response("reset HEAD -- both.rs", "")
        .with_response("add -- edit.rs", "");
    // Row 1 is both.rs in the staged section: its staged diff.
    let d = selected_entry_diff(&runner, &status, &rows, Some(1)).unwrap().unwrap();
    assert_eq!(d[0].new_path, "both.rs");
    // Row 4 is both.rs in the modified section: its unstaged diff, not set up.
    assert!(selected_entry_diff(&runner, &status, &rows, Some(4)).unwrap().is_err());
    assert!(selected_entry_diff(&runner, &status, &rows, Some(0)).is_none());
    assert!(toggle_selected_stage(&runner, &status, &rows, Some(1)).unwrap().is_ok());
    assert!(toggle_selected_stage(&runner, &status, &rows, Some(5)).unwrap().is_ok());
    assert!(toggle_selected_stage(&runner, &status, &rows, Some(7)).unwrap().is_err());
    assert!(toggle_selected_stage(&runner, &status, &rows, None).is_none());
}
