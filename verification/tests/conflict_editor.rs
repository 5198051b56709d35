use gitat::conflict::{parse_conflict_markers, ConflictFile, ConflictRegion};
use gitat::widgets::conflict_editor::{ConflictEditor, ConflictEditorState};

fn make_test_conflict() -> ConflictFile {
    ConflictFile {
        path: "test.rs".to_string(),
        regions: vec![
            ConflictRegion::Clean(vec!["line1".to_string()]),
            ConflictRegion::Conflict { ours: vec!["ours_line".to_string()], theirs: vec!["theirs_line".to_string()] },
            ConflictRegion::Clean(vec!["line3".to_string()]),
        ],
    }
}

fn two_conflicts() -> ConflictFile {
    parse_conflict_markers("two.rs", "<<<<<<< a\no1\n=======\nt1\n>>>>>>> b\nmid\n<<<<<<< a\no2\n=======\nt2\n>>>>>>> b\n")
        .unwrap()
}

#[test]
fn test_initial_result_uses_ours() {
    let file = make_test_conflict();
    let state = ConflictEditorState::from_conflict_file(&file);
    assert_eq!(state.result_lines, vec!["line1", "ours_line", "line3"]);
    assert_eq!(state.total_conflicts, 1);
}

#[test]
fn test_use_theirs() {
    let file = make_test_conflict();
    let mut state = ConflictEditorState::from_conflict_file(&file);
    state.use_theirs(&file);
    assert_eq!(state.result_lines, vec!["line1", "theirs_line", "line3"]);
}

#[test]
fn test_use_ours() {
    let file = make_test_conflict();
    let mut state = ConflictEditorState::from_conflict_file(&file);
    state.use_theirs(&file);
    state.use_ours(&file);
    assert_eq!(state.result_lines, vec!["line1", "ours_line", "line3"]);
}

#[test]
fn theirs_applies_to_the_current_conflict_only() {
    let file = two_conflicts();
    let mut state = ConflictEditorState::from_conflict_file(&file);
    assert_eq!(state.total_conflicts, 2);
    state.next_conflict();
    assert_eq!(state.current_conflict, 1);
    state.use_theirs(&file);
    assert_eq!(state.result_lines, vec!["o1", "mid", "t2"]);
    assert_eq!(state.result_content(), "o1\nmid\nt2");
}

#[test]
fn conflict_navigation_stops_at_the_ends() {
    let file = two_conflicts();
    let mut state = ConflictEditorState::from_conflict_file(&file);
    state.prev_conflict();
    assert_eq!(state.current_conflict, 0);
    state.next_conflict();
    state.next_conflict();
    assert_eq!(state.current_conflict, 1);
    state.prev_conflict();
    assert_eq!(state.current_conflict, 0);
}

#[test]
fn clean_file_resolves_to_its_lines() {
    let file = parse_conflict_markers("c.rs", "a\nb\n").unwrap();
    let mut state = ConflictEditorState::from_conflict_file(&file);
    assert_eq!(state.total_conflicts, 0);
    state.use_theirs(&file);
    assert_eq!(state.result_content(), "a\nb");
}

#[test]
fn editor_shows_the_current_sides_and_header() {
    let file = two_conflicts();
    let editor = ConflictEditor::new(&file);
    let (ours, theirs) = editor.current_sides(1);
    assert_eq!(ours, vec!["o2"]);
    assert_eq!(theirs, vec!["t2"]);
    let (ours, theirs) = editor.current_sides(5);
    assert!(ours.is_empty() && theirs.is_empty());
    let state = ConflictEditorState::from_conflict_file(&file);
    assert_eq!(editor.header_text(&state), " Conflict: two.rs \u{2014} 0/2 resolved");
}

#[test]
fn clean_content_comes_back_whole() {
    let content = "first\n\nthird";
    let file = parse_conflict_markers("c.rs", content).unwrap();
    let state = ConflictEditorState::from_conflict_file(&file);
    assert_eq!(state.result_content(), content);
}

fn choice_file() -> ConflictFile {
    ConflictFile {
        path: "f".to_string(),
        regions: vec![
            ConflictRegion::Conflict { ours: vec!["a".to_string()], theirs: vec!["b".to_string()] },
            ConflictRegion::Clean(vec!["m".to_string()]),
            ConflictRegion::Conflict { ours: vec!["c".to_string()], theirs: vec!["d".to_string()] },
        ],
    }
}

#[test]
fn each_conflict_keeps_its_chosen_side() {
    let file = choice_file();
    let mut s = ConflictEditorState::from_conflict_file(&file);
    assert_eq!(s.choices, vec![true, true]);
    s.use_theirs(&file);
    s.next_conflict();
    s.apply_choice(&file, false);
    assert_eq!(s.result_lines, vec!["b", "m", "d"]);
    assert_eq!(s.choices, vec![false, false]);
    s.prev_conflict();
    s.use_ours(&file);
    assert_eq!(s.result_lines, vec!["a", "m", "d"]);
}
