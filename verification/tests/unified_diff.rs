use gitat::diff::{parse_diff, DiffFile, DiffHunk, DiffLine, DiffLineKind};
use gitat::widgets::unified_diff::{
    diff_layout, line_number_text, pair_lines, side_by_side_rows, side_segments, side_style, DiffRow, SideBySideDiffState,
};
use gitat::widgets::word_diff::SegmentStyle;

fn line(kind: DiffLineKind, content: &str, old: Option<u32>, new: Option<u32>) -> DiffLine {
    DiffLine { kind, content: content.to_string(), old_line_no: old, new_line_no: new }
}

#[test]
fn test_pair_lines_context() {
    let hunk = DiffHunk {
        old_start: 1,
        old_count: 1,
        new_start: 1,
        new_count: 1,
        lines: vec![DiffLine {
            kind: DiffLineKind::Context,
            content: "hello".to_string(),
            old_line_no: Some(1),
            new_line_no: Some(1),
        }],
    };
    let rows = pair_lines(&hunk);
    assert_eq!(rows.len(), 1);
    assert_eq!(rows[0].left_content.as_deref(), Some("hello"));
    assert_eq!(rows[0].right_content.as_deref(), Some("hello"));
}

#[test]
fn test_pair_lines_change() {
    let hunk = DiffHunk {
        old_start: 1,
        old_count: 1,
        new_start: 1,
        new_count: 1,
        lines: vec![
            DiffLine { kind: DiffLineKind::Removed, content: "old".to_string(), old_line_no: Some(1), new_line_no: None },
            DiffLine { kind: DiffLineKind::Added, content: "new".to_string(), old_line_no: None, new_line_no: Some(1) },
        ],
    };
    let rows = pair_lines(&hunk);
    assert_eq!(rows.len(), 1);
    assert_eq!(rows[0].left_content.as_deref(), Some("old"));
    assert_eq!(rows[0].right_content.as_deref(), Some("new"));
}

#[test]
fn test_hunk_navigation() {
    let mut state = SideBySideDiffState::new();
    state.hunk_offsets = vec![0, 10, 25];
    state.next_hunk();
    assert_eq!(state.current_hunk, 1);
    assert_eq!(state.scroll_y, 10);
    state.next_hunk();
    assert_eq!(state.current_hunk, 2);
    assert_eq!(state.scroll_y, 25);
    state.next_hunk(); // no more
    assert_eq!(state.current_hunk, 2);
    state.prev_hunk();
    assert_eq!(state.current_hunk, 1);
    assert_eq!(state.scroll_y, 10);
}

#[test]
fn uneven_runs_leave_blank_sides() {
    let hunk = DiffHunk {
        old_start: 1,
        old_count: 3,
        new_start: 1,
        new_count: 2,
        lines: vec![
            line(DiffLineKind::Removed, "a", Some(1), None),
            line(DiffLineKind::Removed, "b", Some(2), None),
            line(DiffLineKind::Added, "c", None, Some(1)),
            line(DiffLineKind::Context, "d", Some(3), Some(2)),
        ],
    };
    let rows = pair_lines(&hunk);
    assert_eq!(rows.len(), 3);
    assert_eq!(rows[0].right_content.as_deref(), Some("c"));
    assert_eq!(rows[1].left_content.as_deref(), Some("b"));
    assert_eq!(rows[1].right_content, None);
    assert_eq!(rows[1].right_kind, DiffLineKind::Context);
    assert_eq!(rows[2].left_line_no, Some(3));
    assert_eq!(rows[2].right_line_no, Some(2));
    // Every old-side line shows on the left, every new-side line on the right.
    let left: Vec<&str> = rows.iter().filter_map(|r| r.left_content.as_deref()).collect();
    let right: Vec<&str> = rows.iter().filter_map(|r| r.right_content.as_deref()).collect();
    assert_eq!(left, vec!["a", "b", "d"]);
    assert_eq!(right, vec!["c", "d"]);
}

#[test]
fn scrolling_saturates() {
    let mut state = SideBySideDiffState::default();
    state.scroll_up(3);
    assert_eq!(state.scroll_y, 0);
    state.scroll_down(u16::MAX);
    state.scroll_down(5);
    assert_eq!(state.scroll_y, u16::MAX);
    state.scroll_right(4);
    state.scroll_right(4);
    state.scroll_left(4);
    assert_eq!(state.scroll_x, 4);
}

#[test]
fn rows_and_hunk_offsets_of_all_files() {
    let input = "\
diff --git a/a b/a
--- a/a
+++ b/a
@@ -1,2 +1,2 @@
 x
-y
+z
@@ -10 +10 @@
-p
diff --git a/b b/b
--- a/b
+++ b/b
@@ -1 +1 @@
 q
";
    let files: Vec<DiffFile> = parse_diff(input).unwrap();
    let (rows, offsets) = side_by_side_rows(&files);
    assert_eq!(offsets, vec![0, 2, 3]);
    assert_eq!(rows.len(), 4);
    assert_eq!(rows[3].left_content.as_deref(), Some("q"));
}

#[test]
fn line_numbers_are_right_aligned() {
    assert_eq!(line_number_text(Some(7)), "   7");
    assert_eq!(line_number_text(Some(1234)), "1234");
    assert_eq!(line_number_text(Some(12345)), "12345");
    assert_eq!(line_number_text(None), "    ");
}

#[test]
fn layout_of_an_eighty_column_area() {
    let l = diff_layout(0, 80);
    assert_eq!(l.left_content_x, 5);
    assert_eq!(l.left_content_width, 35);
    assert_eq!(l.separator_x, 40);
    assert_eq!(l.right_start_x, 41);
    assert_eq!(l.right_content_x, 46);
    assert_eq!(l.right_content_width, 34);
    let narrow = diff_layout(3, 10);
    assert_eq!(narrow.left_content_width, 0);
    assert_eq!(narrow.right_content_width, 0);
}

#[test]
fn sides_of_a_changed_row_are_highlighted_word_by_word() {
    let row = DiffRow {
        left_line_no: Some(1),
        left_content: Some("let x = 1;".to_string()),
        left_kind: DiffLineKind::Removed,
        right_line_no: Some(1),
        right_content: Some("let x = 2;".to_string()),
        right_kind: DiffLineKind::Added,
    };
    let left = side_segments(&row, true).unwrap();
    let text: String = left.iter().map(|s| s.text.as_str()).collect();
    assert_eq!(text, "let x = 1;");
    assert!(left.iter().any(|s| s.style == SegmentStyle::WordRemoved && s.text.contains('1')));
    assert!(left.iter().all(|s| s.style != SegmentStyle::WordAdded));
    let right = side_segments(&row, false).unwrap();
    let text: String = right.iter().map(|s| s.text.as_str()).collect();
    assert_eq!(text, "let x = 2;");
    assert!(right.iter().any(|s| s.style == SegmentStyle::WordAdded && s.text.contains('2')));
    assert_eq!(side_style(&row, true), SegmentStyle::DiffRemoved);
    assert_eq!(side_style(&row, false), SegmentStyle::DiffAdded);
}

#[test]
fn blank_side_has_no_segments() {
    let row = DiffRow {
        left_line_no: Some(4),
        left_content: Some("gone".to_string()),
        left_kind: DiffLineKind::Removed,
        right_line_no: None,
        right_content: None,
        right_kind: DiffLineKind::Context,
    };
    assert!(side_segments(&row, false).is_none());
    assert_eq!(side_style(&row, false), SegmentStyle::DiffContext);
    let left = side_segments(&row, true).unwrap();
    assert_eq!(left.len(), 1);
    assert_eq!(left[0].text, "gone");
    assert_eq!(left[0].style, SegmentStyle::DiffRemoved);
}
