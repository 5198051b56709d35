use gitat::branch::{checkout, create_branch, delete_branch};
use gitat::commit::{amend, commit};
use gitat::error::GitError;
use gitat::remote::{fetch, pull, pull_current_branch, pull_message, push, push_current_branch, push_message};
use gitat::runner::MockRunner;
use gitat::stage::{stage_file, unstage_file};

#[test]
fn commands_run_the_expected_git_lines() {
    let runner = MockRunner::new()
        .with_response("branch feat", "")
        .with_response("checkout feat", "")
        .with_response("branch -d feat", "")
        .with_response("commit -m msg", "")
        .with_response("commit --amend -m msg", "")
        .with_response("push origin main", "")
        .with_response("pull origin main", "")
        .with_response("fetch --all", "")
        .with_response("add -- a.rs", "")
        .with_response("reset HEAD -- a.rs", "");
    assert!(create_branch(&runner, "feat").is_ok());
    assert!(checkout(&runner, "feat").is_ok());
    assert!(delete_branch(&runner, "feat").is_ok());
    assert!(commit(&runner, "msg").is_ok());
    assert!(amend(&runner, "msg").is_ok());
    assert!(push(&runner, "origin", "main").is_ok());
    assert!(pull(&runner, "origin", "main").is_ok());
    assert!(fetch(&runner).is_ok());
    assert!(stage_file(&runner, "a.rs").is_ok());
    assert!(unstage_file(&runner, "a.rs").is_ok());
}

#[test]
fn failed_command_error_is_passed_on() {
    let runner = MockRunner::new();
    match stage_file(&runner, "x") {
        Err(GitError::CommandFailed { command, .. }) => assert_eq!(command, "git add -- x"),
        other => panic!("unexpected result: {other:?}"),
    }
}

#[test]
fn push_and_pull_the_current_branch() {
    let runner = MockRunner::new()
        .with_response("rev-parse --abbrev-ref HEAD", "main\n")
        .with_response("push origin main", "");
    let r = push_current_branch(&runner);
    assert_eq!(r.as_deref().unwrap(), "main");
    assert_eq!(push_message(&r), "Pushed to origin/main");
    let r = pull_current_branch(&runner);
    assert!(r.is_err());
    assert_eq!(
        pull_message(&r),
        "Pull failed: git command failed: git pull origin main (exit code 1)\nmock: no response configured"
    );
    let none = MockRunner::new();
    assert!(push_current_branch(&none).is_err());
    let runner = MockRunner::new()
        .with_response("rev-parse --abbrev-ref HEAD", "dev")
        .with_response("pull origin dev", "ok");
    assert_eq!(pull_message(&pull_current_branch(&runner)), "Pulled from origin/dev");
}
