//! Running a command.
use vstd::prelude::*;

use crate::error::Result;

verus! {

#[derive(Debug, Clone, PartialEq, Eq, Structural)]
pub struct ExecutionResult {
    pub exit_code: i32,
}

/// A command run in a shell, with what the run gave back.
pub struct ExecCall {
    pub shell: Seq<char>,
    pub command: Seq<char>,
    pub result: Result<ExecutionResult>,
}

/// Runs a command in a shell.
pub trait Executor {
    /// The commands run so far, oldest first, each with its outcome. A
    /// verified implementation gives its own record. The empty default exists
    /// because implementations in plain Rust cannot name this function; it
    /// does not meet the contract below, which for such implementations is
    /// trusted.
    open spec fn runs(&self) -> Seq<ExecCall> {
        Seq::empty()
    }

    /// Runs `command` in `shell`; the run is added to the record.
    fn execute(&mut self, shell: &str, command: &str) -> (r: Result<ExecutionResult>)
        ensures
            final(self).runs() == old(self).runs().push(
                (ExecCall { shell: shell@, command: command@, result: r }),
            ),
    ;
}

/// The result of a finished process, given its exit code (`None` where a
/// signal ended it, which counts as exit code 1).
pub fn execution_result(status_code: Option<i32>) -> (r: ExecutionResult)
    ensures
        r.exit_code == match status_code {
            Some(c) => c,
            None => 1,
        },
{
    ExecutionResult {
        exit_code: match status_code {
            Some(c) => c,
            None => 1,
        },
    }
}

} // verus!
