use gitat::diff::{get_diff, get_diff_for_file, parse_diff, parse_range, read_diff, scan_diff, DiffLineKind};
use gitat::error::GitError;
use gitat::runner::MockRunner;

#[test]
fn test_parse_empty_diff() {
    let result = parse_diff("").unwrap();
    assert!(result.is_empty());
}

#[test]
fn test_parse_single_file_diff() {
    let input = "\
diff --git a/src/main.rs b/src/main.rs
index abc123..def456 100644
--- a/src/main.rs
+++ b/src/main.rs
@@ -1,3 +1,4 @@
 fn main() {
-    println!(\"hello\");
+    let msg = \"hello\";
+    println!(\"{msg}\");
 }
";
    let result = parse_diff(input).unwrap();
    assert_eq!(result.len(), 1);
    assert_eq!(result[0].old_path, "src/main.rs");
    assert_eq!(result[0].new_path, "src/main.rs");
    assert_eq!(result[0].hunks.len(), 1);
    let hunk = &result[0].hunks[0];
    assert_eq!(hunk.old_start, 1);
    assert_eq!(hunk.old_count, 3);
    assert_eq!(hunk.new_start, 1);
    assert_eq!(hunk.new_count, 4);
    assert_eq!(hunk.lines.len(), 5);
}

#[test]
fn test_diff_line_numbers() {
    let input = "\
diff --git a/f.rs b/f.rs
--- a/f.rs
+++ b/f.rs
@@ -10,3 +10,4 @@
 context
-removed
+added1
+added2
 context2
";
    let result = parse_diff(input).unwrap();
    let lines = &result[0].hunks[0].lines;
    assert_eq!(lines[0].old_line_no, Some(10));
    assert_eq!(lines[0].new_line_no, Some(10));
    assert_eq!(lines[1].old_line_no, Some(11));
    assert_eq!(lines[1].new_line_no, None);
    assert_eq!(lines[2].old_line_no, None);
    assert_eq!(lines[2].new_line_no, Some(11));
    assert_eq!(lines[3].old_line_no, None);
    assert_eq!(lines[3].new_line_no, Some(12));
    assert_eq!(lines[4].old_line_no, Some(12));
    assert_eq!(lines[4].new_line_no, Some(13));
}

#[test]
fn test_parse_new_file() {
    let input = "\
diff --git a/new.rs b/new.rs
new file mode 100644
--- /dev/null
+++ b/new.rs
@@ -0,0 +1,2 @@
+fn hello() {}
+fn world() {}
";
    let result = parse_diff(input).unwrap();
    assert_eq!(result[0].old_path, "/dev/null");
    assert_eq!(result[0].new_path, "new.rs");
}

#[test]
fn ranges_parse_start_and_count() {
    assert_eq!(parse_range(&"10,3".chars().collect()), (10, 3));
    assert_eq!(parse_range(&"5".chars().collect()), (5, 1));
    assert_eq!(parse_range(&"x,y".chars().collect()), (0, 1));
    assert_eq!(parse_range(&"7,".chars().collect()), (7, 1));
}

#[test]
fn several_files_and_hunks_are_kept_apart() {
    let input = "\
diff --git a/a.rs b/a.rs
--- a/a.rs
+++ b/a.rs
@@ -1 +1 @@
-x
+y
@@ -20,2 +20,2 @@
 keep
-old
+new
diff --git a/b.rs b/b.rs
--- a/b.rs
+++ b/b.rs
@@ -3,0 +4,1 @@
+added
";
    let result = parse_diff(input).unwrap();
    assert_eq!(result.len(), 2);
    assert_eq!(result[0].hunks.len(), 2);
    assert_eq!(result[0].hunks[0].old_count, 1);
    assert_eq!(result[0].hunks[1].old_start, 20);
    assert_eq!(result[0].hunks[1].lines[1].kind, DiffLineKind::Removed);
    assert_eq!(result[0].hunks[1].lines[1].old_line_no, Some(21));
    assert_eq!(result[0].hunks[1].lines[2].new_line_no, Some(21));
    assert_eq!(result[1].new_path, "b.rs");
    assert_eq!(result[1].hunks[0].new_start, 4);
    assert_eq!(result[1].hunks[0].lines[0].new_line_no, Some(4));
}

#[test]
fn file_without_paths_is_dropped() {
    let input = "diff --git a/x b/x\nBinary files differ\n";
    assert!(parse_diff(input).unwrap().is_empty());
}

#[test]
fn line_number_overflow_is_a_parse_error() {
    let input = "diff --git a/f b/f\n--- a/f\n+++ b/f\n@@ -4294967295 +1 @@\n x\n x\n";
    assert!(scan_diff(input).is_none());
    assert!(matches!(read_diff(input), Err(GitError::ParseError(_))));
}

#[test]
fn get_diff_uses_cached_for_staged() {
    let out = "diff --git a/f b/f\n--- a/f\n+++ b/f\n@@ -1 +1 @@\n-a\n+b\n";
    let runner = MockRunner::new().with_response("diff --cached", out);
    assert_eq!(get_diff(&runner, true).unwrap().len(), 1);
    assert!(get_diff(&runner, false).is_err());
}

#[test]
fn get_diff_for_file_names_the_path() {
    let out = "diff --git a/f b/f\n--- a/f\n+++ b/f\n@@ -1 +1 @@\n-a\n+b\n";
    let runner = MockRunner::new().with_response("diff -- f", out);
    let result = get_diff_for_file(&runner, "f", false).unwrap();
    assert_eq!(result[0].new_path, "f");
}
