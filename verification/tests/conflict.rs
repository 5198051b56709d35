use gitat::conflict::{get_conflict_paths, parse_conflict_markers, ConflictFile, ConflictRegion};
use gitat::runner::MockRunner;

fn strings(v: &[&str]) -> Vec<String> {
    v.iter().map(|s| s.to_string()).collect()
}

#[test]
fn test_no_conflicts() {
    let content = "line1\nline2\nline3\n";
    let result = parse_conflict_markers("file.rs", content).unwrap();
    assert_eq!(result.regions.len(), 1);
    match &result.regions[0] {
        ConflictRegion::Clean(lines) => assert_eq!(lines.len(), 3),
        _ => panic!("expected Clean region"),
    }
}

#[test]
fn test_single_conflict() {
    let content = "\
line1
<<<<<<< HEAD
ours line
=======
theirs line
>>>>>>> feature
line2
";
    let result = parse_conflict_markers("file.rs", content).unwrap();
    assert_eq!(result.regions.len(), 3);
    match &result.regions[0] {
        ConflictRegion::Clean(lines) => assert_eq!(lines, &["line1"]),
        _ => panic!("expected Clean"),
    }
    match &result.regions[1] {
        ConflictRegion::Conflict { ours, theirs } => {
            assert_eq!(ours, &["ours line"]);
            assert_eq!(theirs, &["theirs line"]);
        }
        _ => panic!("expected Conflict"),
    }
    match &result.regions[2] {
        ConflictRegion::Clean(lines) => assert_eq!(lines, &["line2"]),
        _ => panic!("expected Clean"),
    }
}

#[test]
fn test_multiple_conflicts() {
    let content = "\
<<<<<<< HEAD
a
=======
b
>>>>>>> feat
middle
<<<<<<< HEAD
c
=======
d
>>>>>>> feat
";
    let result = parse_conflict_markers("f.rs", content).unwrap();
    assert_eq!(result.regions.len(), 3);
}

#[test]
fn snapshot_no_conflicts() {
    let content = "line1\nline2\nline3\n";
    let result = parse_conflict_markers("clean.rs", content).unwrap();
    assert_eq!(
        result,
        ConflictFile {
            path: "clean.rs".to_string(),
            regions: vec![ConflictRegion::Clean(strings(&["line1", "line2", "line3"]))],
        }
    );
}

#[test]
fn snapshot_single_conflict() {
    let content = "\
line1
<<<<<<< HEAD
our change
our change 2
=======
their change
>>>>>>> feature
line3
";
    let result = parse_conflict_markers("file.rs", content).unwrap();
    assert_eq!(
        result,
        ConflictFile {
            path: "file.rs".to_string(),
            regions: vec![
                ConflictRegion::Clean(strings(&["line1"])),
                ConflictRegion::Conflict {
                    ours: strings(&["our change", "our change 2"]),
                    theirs: strings(&["their change"]),
                },
                ConflictRegion::Clean(strings(&["line3"])),
            ],
        }
    );
}

#[test]
fn snapshot_multiple_conflicts() {
    let content = "\
header
<<<<<<< HEAD
a1
a2
=======
b1
>>>>>>> feat
middle
<<<<<<< HEAD
c1
=======
d1
d2
>>>>>>> feat
footer
";
    let result = parse_conflict_markers("multi.rs", content).unwrap();
    assert_eq!(
        result,
        ConflictFile {
            path: "multi.rs".to_string(),
            regions: vec![
                ConflictRegion::Clean(strings(&["header"])),
                ConflictRegion::Conflict { ours: strings(&["a1", "a2"]), theirs: strings(&["b1"]) },
                ConflictRegion::Clean(strings(&["middle"])),
                ConflictRegion::Conflict { ours: strings(&["c1"]), theirs: strings(&["d1", "d2"]) },
                ConflictRegion::Clean(strings(&["footer"])),
            ],
        }
    );
}

#[test]
fn unterminated_conflict_is_dropped() {
    let content = "top\n<<<<<<< HEAD\nmine\n=======\ntheirs\n";
    let result = parse_conflict_markers("f.rs", content).unwrap();
    assert_eq!(result.regions, vec![ConflictRegion::Clean(strings(&["top"]))]);
}

#[test]
fn separator_outside_a_conflict_is_a_clean_line() {
    let content = "=======\n>>>>>>> x\n";
    let result = parse_conflict_markers("f.rs", content).unwrap();
    assert_eq!(result.regions, vec![ConflictRegion::Clean(strings(&["=======", ">>>>>>> x"]))]);
}

#[test]
fn conflict_paths_skip_empty_lines() {
    let runner = MockRunner::new().with_response("diff --name-only --diff-filter=U", "a.rs\n\nb.rs\n");
    assert_eq!(get_conflict_paths(&runner).unwrap(), strings(&["a.rs", "b.rs"]));
}
