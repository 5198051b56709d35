//! The error type of every git operation.
use vstd::prelude::*;

use crate::text::{decimal, decimal_string};

verus! {

/// Why a git operation failed.
#[derive(Debug, Clone)]
pub enum GitError {
    /// git ran and exited unsuccessfully.
    CommandFailed { command: String, stderr: String, exit_code: i32 },
    /// git's output did not have the expected shape.
    ParseError(String),
    NotARepository,
    /// git could not be run, or its pipes failed.
    IoError(String),
}

/// A `GitError` with its strings taken as character sequences.
pub enum GitErrorView {
    CommandFailed { command: Seq<char>, stderr: Seq<char>, exit_code: i32 },
    ParseError(Seq<char>),
    NotARepository,
    IoError(Seq<char>),
}

impl View for GitError {
    type V = GitErrorView;

    open spec fn view(&self) -> GitErrorView {
        match self {
            GitError::CommandFailed { command, stderr, exit_code } => GitErrorView::CommandFailed {
                command: command@,
                stderr: stderr@,
                exit_code: *exit_code,
            },
            GitError::ParseError(m) => GitErrorView::ParseError(m@),
            GitError::NotARepository => GitErrorView::NotARepository,
            GitError::IoError(m) => GitErrorView::IoError(m@),
        }
    }
}

/// The outcome of a git command, its output taken as characters.
pub open spec fn out_view(r: Result<String, GitError>) -> Result<Seq<char>, GitErrorView> {
    match r {
        Ok(s) => Ok(s@),
        Err(e) => Err(e@),
    }
}

/// `n` in decimal, with a minus sign when negative.
pub open spec fn signed_decimal(n: int) -> Seq<char> {
    if n < 0 { "-"@ + decimal((-n) as nat) } else { decimal(n as nat) }
}

/// What an error says, as its `Display` writes it.
pub open spec fn error_message(e: GitErrorView) -> Seq<char> {
    match e {
        GitErrorView::CommandFailed { command, stderr, exit_code } => "git command failed: "@ + command
            + " (exit code "@ + signed_decimal(exit_code as int) + ")\n"@ + stderr,
        GitErrorView::ParseError(m) => "failed to parse git output: "@ + m,
        GitErrorView::NotARepository => "not a git repository"@,
        GitErrorView::IoError(m) => "IO error: "@ + m,
    }
}

/// `n.to_string()` for an `i32`.
pub fn signed_decimal_string(n: i32) -> (s: String)
    ensures
        s@ == signed_decimal(n as int),
{
    if n < 0 {
        let magnitude: u64 = (0i64 - n as i64) as u64;
        let digits = decimal_string(magnitude);
        let mut s = String::from_str("-");
        s.append(digits.as_str());
        s
    } else {
        decimal_string(n as u64)
    }
}

impl GitError {
    /// The error's message.
    pub fn message(&self) -> (s: String)
        ensures
            s@ == error_message(self@),
    {
        match self {
            GitError::CommandFailed { command, stderr, exit_code } => {
                let mut s = String::from_str("git command failed: ");
                s.append(command.as_str());
                s.append(" (exit code ");
                let code = signed_decimal_string(*exit_code);
                s.append(code.as_str());
                s.append(")\n");
                s.append(stderr.as_str());
                s
            },
            GitError::ParseError(m) => {
                let mut s = String::from_str("failed to parse git output: ");
                s.append(m.as_str());
                s
            },
            GitError::NotARepository => String::from_str("not a git repository"),
            GitError::IoError(m) => {
                let mut s = String::from_str("IO error: ");
                s.append(m.as_str());
                s
            },
        }
    }
}

} // verus!
