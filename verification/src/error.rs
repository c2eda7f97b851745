//! Domain-level failures of the execution core. A child that exits
//! nonzero is not an error: it is reported through an exit status.

use vstd::prelude::*;
use crate::jobs::Jid;

verus! {

/// The kinds of failure the core can report. Errors unwind evaluation
/// immediately; there is no per-command recovery.
#[derive(Debug, Clone, PartialEq, Eq)]
pub enum ErrorKind {
    /// Fork failed, exec failed, or argv construction failed; the OS
    /// errno is carried when the OS caused it.
    ExecFailed(Option<i32>),
    /// Creating a pipe failed, with the OS errno.
    PipelineCreationFailed(Option<i32>),
    /// The blocking wait returned an unrecoverable error, with the OS
    /// errno when one was reported.
    WaitFailed(Option<i32>),
    /// The PATH search found no executable of this name.
    MissingExecutable(Vec<u8>),
    /// A status query named a job this manager never issued.
    InvalidJobId(Jid),
    /// A command-tree variant the core does not handle.
    NotImplemented,
}

impl ErrorKind {
    /// A short fixed description of the failure kind.
    pub fn message(&self) -> (r: &'static str)
        ensures
            r@.len() > 0,
    {
        let r = match self {
            ErrorKind::ExecFailed(_) => "could not execute the command",
            ErrorKind::PipelineCreationFailed(_) => "could not create a pipe",
            ErrorKind::WaitFailed(_) => "could not wait for a child process",
            ErrorKind::MissingExecutable(_) => "missing executable",
            ErrorKind::InvalidJobId(_) => "invalid job id",
            ErrorKind::NotImplemented => "not implemented",
        };
        proof {
            reveal_strlit("could not execute the command");
            reveal_strlit("could not create a pipe");
            reveal_strlit("could not wait for a child process");
            reveal_strlit("missing executable");
            reveal_strlit("invalid job id");
            reveal_strlit("not implemented");
        }
        r
    }
}

} // verus!
