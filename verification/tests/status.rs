use gitat::runner::MockRunner;
use gitat::status::{file_status_code, get_status, parse_file_status, parse_status, status_output_fits, FileStatus, StatusEntry};

#[test]
fn test_parse_empty_status() {
    let result = parse_status("").unwrap();
    assert!(result.is_empty());
}

#[test]
fn test_parse_modified_file() {
    let result = parse_status(" M src/main.rs\n").unwrap();
    assert_eq!(result.len(), 1);
    assert_eq!(result[0].path, "src/main.rs");
    assert_eq!(result[0].index_status, FileStatus::Unmodified);
    assert_eq!(result[0].worktree_status, FileStatus::Modified);
}

#[test]
fn test_parse_staged_and_modified() {
    let result = parse_status("MM src/lib.rs\n").unwrap();
    assert_eq!(result[0].index_status, FileStatus::Modified);
    assert_eq!(result[0].worktree_status, FileStatus::Modified);
}

#[test]
fn test_parse_added_file() {
    let result = parse_status("A  new_file.rs\n").unwrap();
    assert_eq!(result[0].index_status, FileStatus::Added);
    assert_eq!(result[0].worktree_status, FileStatus::Unmodified);
}

#[test]
fn test_parse_untracked() {
    let result = parse_status("?? untracked.txt\n").unwrap();
    assert_eq!(result[0].index_status, FileStatus::Untracked);
    assert_eq!(result[0].worktree_status, FileStatus::Untracked);
}

#[test]
fn test_parse_multiple_entries() {
    let input = " M src/main.rs\nA  new.rs\n?? notes.txt\n";
    let result = parse_status(input).unwrap();
    assert_eq!(result.len(), 3);
}

fn entry(path: &str, index_status: FileStatus, worktree_status: FileStatus) -> StatusEntry {
    StatusEntry { path: path.to_string(), index_status, worktree_status }
}

#[test]
fn snapshot_mixed_status() {
    let input = "\
MM src/lib.rs
A  new_file.rs
 D deleted.rs
 M src/main.rs
?? untracked.txt
R  old_name.rs
";
    let result = parse_status(input).unwrap();
    assert_eq!(
        result,
        vec![
            entry("src/lib.rs", FileStatus::Modified, FileStatus::Modified),
            entry("new_file.rs", FileStatus::Added, FileStatus::Unmodified),
            entry("deleted.rs", FileStatus::Unmodified, FileStatus::Deleted),
            entry("src/main.rs", FileStatus::Unmodified, FileStatus::Modified),
            entry("untracked.txt", FileStatus::Untracked, FileStatus::Untracked),
            entry("old_name.rs", FileStatus::Renamed, FileStatus::Unmodified),
        ]
    );
}

#[test]
fn short_status_lines_are_skipped() {
    let result = parse_status("M a\n\nAM b.rs\n").unwrap();
    assert_eq!(result, vec![entry("b.rs", FileStatus::Added, FileStatus::Modified)]);
}

#[test]
fn status_letters_map_to_statuses() {
    assert_eq!(parse_file_status('M'), FileStatus::Modified);
    assert_eq!(parse_file_status('A'), FileStatus::Added);
    assert_eq!(parse_file_status('D'), FileStatus::Deleted);
    assert_eq!(parse_file_status('R'), FileStatus::Renamed);
    assert_eq!(parse_file_status('C'), FileStatus::Copied);
    assert_eq!(parse_file_status('?'), FileStatus::Untracked);
    assert_eq!(parse_file_status(' '), FileStatus::Unmodified);
    assert_eq!(parse_file_status('U'), FileStatus::Unmodified);
}

#[test]
fn status_codes_are_single_letters() {
    assert_eq!(file_status_code(&FileStatus::Modified), "M");
    assert_eq!(file_status_code(&FileStatus::Added), "A");
    assert_eq!(file_status_code(&FileStatus::Deleted), "D");
    assert_eq!(file_status_code(&FileStatus::Renamed), "R");
    assert_eq!(file_status_code(&FileStatus::Copied), "C");
    assert_eq!(file_status_code(&FileStatus::Untracked), "?");
    assert_eq!(file_status_code(&FileStatus::Unmodified), " ");
}

#[test]
fn status_output_with_split_character_does_not_fit() {
    assert!(status_output_fits(" M src/main.rs\n"));
    // Byte 3 falls inside the second two-byte character.
    assert!(!status_output_fits("éé path\n"));
}

#[test]
fn get_status_reads_porcelain_output() {
    let runner = MockRunner::new().with_response("status --porcelain=v1", "?? new.txt\n");
    let result = get_status(&runner).unwrap();
    assert_eq!(result, vec![entry("new.txt", FileStatus::Untracked, FileStatus::Untracked)]);
}

#[test]
fn get_status_reports_unreadable_output() {
    let runner = MockRunner::new().with_response("status --porcelain=v1", "éé path\n");
    assert!(matches!(get_status(&runner), Err(gitat::error::GitError::ParseError(_))));
}
