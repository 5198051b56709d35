use gitat::error::GitError;
use gitat::runner::{command_line, run_unit, CommandRunner, MockRunner, ProcessRunner};
use std::path::PathBuf;

#[test]
fn test_mock_runner_run_with_stdin() {
    let runner = MockRunner::new().with_response("apply --cached", "");
    let result = runner.run_with_stdin(&["apply", "--cached"], "patch content");
    assert!(result.is_ok());
}

#[test]
fn mock_runner_answers_with_the_configured_output() {
    let runner = MockRunner::new().with_response("status", "clean");
    assert_eq!(runner.run(&["status"]).unwrap(), "clean");
}

#[test]
fn later_response_replaces_earlier_one() {
    let runner = MockRunner::new().with_response("log", "first").with_response("log", "second");
    assert_eq!(runner.run(&["log"]).unwrap(), "second");
}

#[test]
fn other_response_leaves_earlier_one() {
    let runner = MockRunner::new().with_response("log", "first").with_response("status", "x");
    assert_eq!(runner.run(&["log"]).unwrap(), "first");
}

#[test]
fn unconfigured_command_fails_with_mock_error() {
    let runner = MockRunner::default();
    match runner.run(&["push", "origin"]) {
        Err(GitError::CommandFailed { command, stderr, exit_code }) => {
            assert_eq!(command, "git push origin");
            assert_eq!(stderr, "mock: no response configured");
            assert_eq!(exit_code, 1);
        }
        other => panic!("unexpected result: {other:?}"),
    }
}

#[test]
fn command_line_joins_arguments() {
    assert_eq!(command_line(&["diff", "--cached", "--", "a b.rs"]), "git diff --cached -- a b.rs");
    assert_eq!(command_line(&[]), "git ");
}

#[test]
fn finished_process_becomes_output_or_error() {
    let ok = ProcessRunner::command_result(&["version"], true, "git version 2".to_string(), String::new(), Some(0));
    assert_eq!(ok.unwrap(), "git version 2");
    let failed = ProcessRunner::command_result(&["nope"], false, String::new(), "bad".to_string(), Some(1));
    match failed {
        Err(GitError::CommandFailed { command, stderr, exit_code }) => {
            assert_eq!(command, "git nope");
            assert_eq!(stderr, "bad");
            assert_eq!(exit_code, 1);
        }
        other => panic!("unexpected result: {other:?}"),
    }
    let signalled = ProcessRunner::command_result(&["x"], false, String::new(), String::new(), None);
    assert!(matches!(signalled, Err(GitError::CommandFailed { exit_code: -1, .. })));
}

#[test]
fn process_runner_keeps_its_path() {
    let runner = ProcessRunner::new(PathBuf::from("/tmp/repo"));
    assert_eq!(runner.repo_path, PathBuf::from("/tmp/repo"));
}

#[test]
fn run_unit_drops_the_output() {
    let runner = MockRunner::new().with_response("fetch", "lots of output");
    assert!(run_unit(&runner, &["fetch"]).is_ok());
    assert!(run_unit(&runner, &["pull"]).is_err());
}
