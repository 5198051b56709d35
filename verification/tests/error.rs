use gitat::error::{signed_decimal_string, GitError};

#[test]
fn error_messages() {
    let e = GitError::CommandFailed { command: "git x".to_string(), stderr: "boom".to_string(), exit_code: -1 };
    assert_eq!(e.message(), "git command failed: git x (exit code -1)\nboom");
    assert_eq!(GitError::ParseError("bad".to_string()).message(), "failed to parse git output: bad");
    assert_eq!(GitError::NotARepository.message(), "not a git repository");
    assert_eq!(GitError::IoError("gone".to_string()).message(), "IO error: gone");
}

#[test]
fn signed_numbers() {
    assert_eq!(signed_decimal_string(0), "0");
    assert_eq!(signed_decimal_string(128), "128");
    assert_eq!(signed_decimal_string(-7), "-7");
    assert_eq!(signed_decimal_string(i32::MIN), "-2147483648");
}
