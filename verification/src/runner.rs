//! Running git: the trait that the operations go through, a runner that
//! answers from a table of canned outputs, and the process runner's data.
use std::path::PathBuf;
use vstd::prelude::*;

use crate::error::{GitError, GitErrorView, out_view};
use crate::text::{join, join_strs, concat};

verus! {

#[verifier::external_type_specification]
#[verifier::external_body]
pub struct ExPathBuf(PathBuf);

/// The arguments of a git command, as character sequences.
pub open spec fn args_view(args: Seq<&str>) -> Seq<Seq<char>> {
    args.map_values(|a: &str| a@)
}

/// The command line that an error reports: `git` and the arguments, joined by spaces.
pub open spec fn command_text(args: Seq<Seq<char>>) -> Seq<char> {
    "git "@ + join(args, " "@)
}

/// Runs git with the given arguments and returns its standard output.
pub trait CommandRunner {
    /// Whether `out` is an outcome this runner can give for `args` (and the
    /// text written to git's standard input, if any). Unless a runner says
    /// more, any outcome is possible: what git answers depends on the
    /// repository it runs in.
    open spec fn run_outcome(&self, args: Seq<Seq<char>>, stdin: Option<Seq<char>>, out: Result<Seq<char>, GitErrorView>) -> bool {
        true
    }

    fn run(&self, args: &[&str]) -> (r: Result<String, GitError>)
        ensures
            self.run_outcome(args_view(args@), None, out_view(r)),
    ;

    fn run_with_stdin(&self, args: &[&str], stdin_data: &str) -> (r: Result<String, GitError>)
        ensures
            self.run_outcome(args_view(args@), Some(stdin_data@), out_view(r)),
    ;
}

/// `"git " + args.join(" ")`.
pub fn command_line(args: &[&str]) -> (s: String)
    ensures
        s@ == command_text(args_view(args@)),
{
    let joined = join_strs(args, " ");
    let prefix = String::from_str("git ");
    concat(&prefix, joined.as_str())
}

/// Runs git as a child process in a repository.
pub struct ProcessRunner {
    pub repo_path: PathBuf,
}

impl ProcessRunner {
    pub fn new(repo_path: PathBuf) -> (r: Self)
        ensures
            r.repo_path == repo_path,
    {
        Self { repo_path }
    }

    /// What a finished git process amounts to: its standard output when it
    /// succeeded, else the failed command with its standard error and exit code
    /// (`-1` when it has none, as when a signal ended it).
    pub fn command_result(args: &[&str], success: bool, stdout: String, stderr: String, exit_code: Option<i32>) -> (r: Result<
        String,
        GitError,
    >)
        ensures
            out_view(r) == (if success {
                Ok(stdout@)
            } else {
                Err(GitErrorView::CommandFailed {
                    command: command_text(args_view(args@)),
                    stderr: stderr@,
                    exit_code: match exit_code {
                        Some(c) => c,
                        None => -1i32,
                    },
                })
            }),
    {
        if success {
            Ok(stdout)
        } else {
            let code = match exit_code {
                Some(c) => c,
                None => -1,
            };
            Err(GitError::CommandFailed { command: command_line(args), stderr, exit_code: code })
        }
    }
}

/// The map that a list of (key, output) pairs stands for: a later pair
/// overrides an earlier one with the same key.
pub open spec fn responses_map(entries: Seq<(String, String)>) -> Map<Seq<char>, Seq<char>>
    decreases entries.len(),
{
    if entries.len() == 0 {
        Map::empty()
    } else {
        responses_map(entries.drop_last()).insert(entries.last().0@, entries.last().1@)
    }
}

/// What a mock runner with table `m` answers to `args`.
pub open spec fn mock_outcome(m: Map<Seq<char>, Seq<char>>, args: Seq<Seq<char>>) -> Result<Seq<char>, GitErrorView> {
    let key = join(args, " "@);
    if m.contains_key(key) {
        Ok(m[key])
    } else {
        Err(GitErrorView::CommandFailed {
            command: "git "@ + key,
            stderr: "mock: no response configured"@,
            exit_code: 1,
        })
    }
}

/// A runner that answers each command line from a table set up in advance.
pub struct MockRunner {
    responses: Vec<(String, String)>,
}

impl View for MockRunner {
    type V = Map<Seq<char>, Seq<char>>;

    closed spec fn view(&self) -> Map<Seq<char>, Seq<char>> {
        responses_map(self.responses@)
    }
}

impl MockRunner {
    pub fn new() -> (r: Self)
        ensures
            r@ == Map::<Seq<char>, Seq<char>>::empty(),
    {
        let r = Self { responses: Vec::new() };
        assert(r@ =~= Map::<Seq<char>, Seq<char>>::empty()) by {
            assert(r.responses@.len() == 0);
        }
        r
    }

    /// The runner that answers the command line `key` (the arguments joined
    /// by spaces) with `output`.
    pub fn with_response(self, key: &str, output: &str) -> (r: Self)
        ensures
            r@ == self@.insert(key@, output@),
    {
        let mut responses = self.responses;
        let ghost old_entries = responses@;
        responses.push((String::from_str(key), String::from_str(output)));
        assert(responses@.drop_last() =~= old_entries);
        Self { responses }
    }

    /// The output set up for `key`, if any.
    fn lookup(&self, key: &String) -> (r: Option<String>)
        ensures
            match r {
                Some(v) => self@.contains_key(key@) && v@ == self@[key@],
                None => !self@.contains_key(key@),
            },
    {
        let mut i = self.responses.len();
        assert(self.responses@.take(i as int) =~= self.responses@);
        while i > 0
            invariant
                i <= self.responses@.len(),
                responses_map(self.responses@).contains_key(key@) == responses_map(self.responses@.take(i as int)).contains_key(key@),
                responses_map(self.responses@).contains_key(key@) ==> responses_map(self.responses@)[key@] == responses_map(self.responses@.take(i as int))[key@],
            decreases i,
        {
            let entry = &self.responses[i - 1];
            assert(self.responses@.take(i as int).drop_last() =~= self.responses@.take(i - 1));
            if entry.0 == *key {
                return Some(entry.1.clone());
            }
            i -= 1;
        }
        None
    }
}

/// A mock runner answers a command with the output last set up for its
/// command line (the arguments joined by spaces).
pub proof fn lemma_mock_replays_response(m: Map<Seq<char>, Seq<char>>, key: Seq<char>, output: Seq<char>, args: Seq<Seq<char>>)
    requires
        join(args, " "@) == key,
    ensures
        mock_outcome(m.insert(key, output), args) == Ok::<Seq<char>, GitErrorView>(output),
{
}

/// Setting up a response for one command line leaves the answers to every
/// other command line as they were.
pub proof fn lemma_mock_other_lines_unchanged(
    m: Map<Seq<char>, Seq<char>>,
    key: Seq<char>,
    output: Seq<char>,
    args: Seq<Seq<char>>,
)
    requires
        join(args, " "@) != key,
    ensures
        mock_outcome(m.insert(key, output), args) == mock_outcome(m, args),
{
    let line = join(args, " "@);
    assert(m.insert(key, output).contains_key(line) == m.contains_key(line));
}

impl Default for MockRunner {
    fn default() -> (r: Self)
        ensures
            r@ == Map::<Seq<char>, Seq<char>>::empty(),
    {
        Self::new()
    }
}

impl CommandRunner for MockRunner {
    open spec fn run_outcome(&self, args: Seq<Seq<char>>, stdin: Option<Seq<char>>, out: Result<Seq<char>, GitErrorView>) -> bool {
        out == mock_outcome(self@, args)
    }

    fn run(&self, args: &[&str]) -> (r: Result<String, GitError>) {
        let key = join_strs(args, " ");
        match self.lookup(&key) {
            Some(v) => Ok(v),
            None => {
                let prefix = String::from_str("git ");
                let command = concat(&prefix, key.as_str());
                Err(GitError::CommandFailed {
                    command,
                    stderr: String::from_str("mock: no response configured"),
                    exit_code: 1,
                })
            },
        }
    }

    fn run_with_stdin(&self, args: &[&str], stdin_data: &str) -> (r: Result<String, GitError>) {
        self.run(args)
    }
}

} // verus!

verus! {

/// `r` reports the outcome `out` of a command whose output is not used:
/// success exactly when the command succeeded, with the command's error otherwise.
pub open spec fn unit_result(out: Result<Seq<char>, GitErrorView>, r: Result<(), GitError>) -> bool {
    match out {
        Ok(_) => r is Ok,
        Err(e) => r matches Err(err) && err@ == e,
    }
}

/// Runs a command whose output is not used.
pub fn run_unit<R: CommandRunner>(runner: &R, args: &[&str]) -> (r: Result<(), GitError>)
    ensures
        exists|out: Result<Seq<char>, GitErrorView>|
            #[trigger] runner.run_outcome(args_view(args@), None, out) && unit_result(out, r),
{
    let out = runner.run(args);
    match out {
        Ok(_) => Ok(()),
        Err(e) => Err(e),
    }
}

} // verus!
