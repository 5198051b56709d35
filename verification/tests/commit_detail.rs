use gitat::commit_detail::{change_code, files_of_commit, selected_commit_file_diff, get_commit_file_diff, get_commit_files, parse_commit_files, CommitFileEntry, FileChangeStatus};
use gitat::runner::MockRunner;

#[test]
fn test_parse_empty() {
    let result = parse_commit_files("").unwrap();
    assert!(result.is_empty());
}

#[test]
fn test_parse_single_modified_file() {
    let input = "M\tsrc/main.rs\n";
    let result = parse_commit_files(input).unwrap();
    assert_eq!(result.len(), 1);
    assert_eq!(result[0].path, "src/main.rs");
    assert_eq!(result[0].status, FileChangeStatus::Modified);
}

#[test]
fn test_parse_multiple_files() {
    let input = "A\tsrc/new.rs\nM\tsrc/main.rs\nD\tsrc/old.rs\n";
    let result = parse_commit_files(input).unwrap();
    assert_eq!(result.len(), 3);
    assert_eq!(result[0].status, FileChangeStatus::Added);
    assert_eq!(result[0].path, "src/new.rs");
    assert_eq!(result[1].status, FileChangeStatus::Modified);
    assert_eq!(result[1].path, "src/main.rs");
    assert_eq!(result[2].status, FileChangeStatus::Deleted);
    assert_eq!(result[2].path, "src/old.rs");
}

#[test]
fn test_parse_renamed_file() {
    let input = "R100\told_name.rs\tnew_name.rs\n";
    let result = parse_commit_files(input).unwrap();
    assert_eq!(result.len(), 1);
    assert_eq!(result[0].status, FileChangeStatus::Renamed);
    assert_eq!(result[0].path, "new_name.rs");
}

#[test]
fn snapshot_multiple_files() {
    let input = "A\tsrc/new.rs\nM\tsrc/main.rs\nD\tsrc/old.rs\n";
    let result = parse_commit_files(input).unwrap();
    assert_eq!(
        result,
        vec![
            CommitFileEntry { path: "src/new.rs".to_string(), status: FileChangeStatus::Added },
            CommitFileEntry { path: "src/main.rs".to_string(), status: FileChangeStatus::Modified },
            CommitFileEntry { path: "src/old.rs".to_string(), status: FileChangeStatus::Deleted },
        ]
    );
}

#[test]
fn test_get_commit_files() {
    let runner = MockRunner::new().with_response(
        "diff-tree --no-commit-id -r --name-status abc123",
        "M\tsrc/main.rs\nA\tsrc/new.rs\n",
    );
    let result = get_commit_files(&runner, "abc123", None).unwrap();
    assert_eq!(result.len(), 2);
    assert_eq!(result[0].path, "src/main.rs");
    assert_eq!(result[1].path, "src/new.rs");
}

#[test]
fn test_get_commit_files_merge_commit() {
    let runner = MockRunner::new().with_response(
        "diff-tree --no-commit-id -r --name-status parent1 merge123",
        "M\tsrc/main.rs\nA\tsrc/new.rs\n",
    );
    let result = get_commit_files(&runner, "merge123", Some("parent1")).unwrap();
    assert_eq!(result.len(), 2);
    assert_eq!(result[0].path, "src/main.rs");
    assert_eq!(result[1].path, "src/new.rs");
}

#[test]
fn test_get_commit_file_diff_with_parent() {
    let diff_output = "\
diff --git a/src/main.rs b/src/main.rs
--- a/src/main.rs
+++ b/src/main.rs
@@ -1,3 +1,4 @@
 fn main() {
-    old();
+    new();
+    extra();
 }
";
    let runner = MockRunner::new().with_response("diff parent123..abc123 -- src/main.rs", diff_output);
    let result = get_commit_file_diff(&runner, "abc123", Some("parent123"), "src/main.rs").unwrap();
    assert_eq!(result.len(), 1);
    assert_eq!(result[0].old_path, "src/main.rs");
}

#[test]
fn test_get_commit_file_diff_root_commit() {
    let diff_output = "\
diff --git a/src/main.rs b/src/main.rs
new file mode 100644
--- /dev/null
+++ b/src/main.rs
@@ -0,0 +1,2 @@
+fn main() {}
+fn helper() {}
";
    let runner = MockRunner::new().with_response("show --format= abc123 -- src/main.rs", diff_output);
    let result = get_commit_file_diff(&runner, "abc123", None, "src/main.rs").unwrap();
    assert_eq!(result.len(), 1);
    assert_eq!(result[0].old_path, "/dev/null");
}

#[test]
fn commit_files_without_configured_output_fail() {
    let runner = MockRunner::new();
    assert!(get_commit_files(&runner, "abc123", None).is_err());
}

#[test]
fn change_codes_are_single_letters() {
    assert_eq!(change_code(FileChangeStatus::Added), "A");
    assert_eq!(change_code(FileChangeStatus::Modified), "M");
    assert_eq!(change_code(FileChangeStatus::Deleted), "D");
    assert_eq!(change_code(FileChangeStatus::Renamed), "R");
}

fn commit_info(hash: &str, parents: &[&str]) -> gitat::log::CommitInfo {
    gitat::log::CommitInfo {
        hash: hash.to_string(),
        short_hash: hash.to_string(),
        author: "A".to_string(),
        date: "d".to_string(),
        message: "m".to_string(),
        refs: vec![],
        parent_hashes: parents.iter().map(|s| s.to_string()).collect(),
    }
}

#[test]
fn files_and_file_diff_of_a_commit_use_its_first_parent() {
    let out = "diff --git a/x b/x\n--- a/x\n+++ b/x\n@@ -1 +1 @@\n-a\n+b\n";
    let runner = MockRunner::new()
        .with_response("diff-tree --no-commit-id -r --name-status p1 c1", "M\tx\n")
        .with_response("diff-tree --no-commit-id -r --name-status root", "A\ty\n")
        .with_response("diff p1..c1 -- x", out);
    let c = commit_info("c1", &["p1", "p2"]);
    let files = files_of_commit(&runner, &c).unwrap();
    assert_eq!(files, vec![CommitFileEntry { path: "x".to_string(), status: FileChangeStatus::Modified }]);
    let root = files_of_commit(&runner, &commit_info("root", &[])).unwrap();
    assert_eq!(root[0].path, "y");
    let d = selected_commit_file_diff(&runner, &c, &files, Some(0)).unwrap().unwrap();
    assert_eq!(d[0].new_path, "x");
    assert!(selected_commit_file_diff(&runner, &c, &files, Some(1)).is_none());
    assert!(selected_commit_file_diff(&runner, &c, &files, None).is_none());
}
