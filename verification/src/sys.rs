//! Trusted boundary to the operating system. Each item wraps one step of
//! outside work — forking, piping, waiting — and its contract states only
//! what holds of every outcome; the logic around these calls is verified.

use vstd::prelude::*;
use std::rc::Rc;
use crate::ast::Command;
use nix::errno::Errno;
use nix::sys::signal::{kill, Signal};
use nix::sys::wait::{wait, WaitStatus};
use nix::unistd::{chdir, close, dup2, execv, execve, fork, getpid, pipe, ForkResult};

verus! {

/// What one blocking wait on any child reported.
#[derive(Debug, Clone, Copy, PartialEq, Eq, Structural)]
pub enum WaitEvent {
    /// A child exited normally with this (pid, exit code).
    Exited(i32, i32),
    /// A child was killed by this (pid, signal number, core dumped).
    Signaled(i32, i32, bool),
    /// A state change the core ignores (stopped, continued).
    Other,
    /// The wait was interrupted and should be retried.
    Interrupted,
    /// The wait failed with an unrecoverable error, with its errno.
    Failed(i32),
}

/// A byte string in C form: nonempty, NUL-terminated, no interior NUL.
pub open spec fn c_bytes(s: Seq<u8>) -> bool {
    s.len() >= 1 && s.last() == 0 && forall|i: int| 0 <= i < s.len() - 1 ==> s[i] != 0
}

/// A byte string free of NUL bytes.
pub open spec fn no_nul(s: Seq<u8>) -> bool {
    forall|i: int| 0 <= i < s.len() ==> s[i] != 0
}

/// Relies on nix's fork, close, dup2, chdir and execv, which make up one
/// fork/exec step: in the child, close the listed descriptors, duplicate
/// the optional descriptors onto stdin and stdout, change directory and
/// exec with the inherited environment; the child is killed outright if
/// exec returns. The parent gets the child's pid, or the errno if fork
/// failed.
#[verifier::external_body]
pub(crate) fn sys_spawn(
    exe: &Vec<u8>,
    args: &Vec<Vec<u8>>,
    cwd: &Vec<u8>,
    close_fds: &Vec<i32>,
    stdin: Option<i32>,
    stdout: Option<i32>,
) -> (r: Result<i32, i32>)
    requires
        c_bytes(exe@),
        no_nul(cwd@),
        forall|i: int| 0 <= i < args@.len() ==> c_bytes(#[trigger] args@[i]@),
{
    match fork() {
        Err(e) => Err(e.as_errno().map_or(-1, |x| x as i32)),
        Ok(ForkResult::Parent { child }) => Ok(child.as_raw()),
        Ok(ForkResult::Child) => {
            for fd in close_fds { close(*fd); }
            stdin.map(|fd| dup2(fd, 0));
            stdout.map(|fd| dup2(fd, 1));
            chdir(cwd.as_slice());
            let a: Vec<_> = args.iter().map(|x| core::ffi::CStr::from_bytes_with_nul(x).unwrap()).collect();
            execv(core::ffi::CStr::from_bytes_with_nul(exe).unwrap(), &a);
            kill(getpid(), Signal::SIGKILL);
            Err(-1)
        }
    }
}

/// Relies on nix's fork, close, dup2, chdir and execve: the same
/// fork/exec step as `sys_spawn`, but the child execs with an explicit
/// environment instead of the inherited one. The first `nargs` entries
/// of `argv_env` are argv; the rest are the environment entries.
#[verifier::external_body]
pub(crate) fn sys_spawn_env(
    exe: &Vec<u8>,
    argv_env: &Vec<Vec<u8>>,
    nargs: usize,
    cwd: &Vec<u8>,
    close_fds: &Vec<i32>,
    stdin: Option<i32>,
    stdout: Option<i32>,
) -> (r: Result<i32, i32>)
    requires
        c_bytes(exe@),
        no_nul(cwd@),
        nargs <= argv_env@.len(),
        forall|i: int| 0 <= i < argv_env@.len() ==> c_bytes(#[trigger] argv_env@[i]@),
{
    match fork() {
        Err(e) => Err(e.as_errno().map_or(-1, |x| x as i32)),
        Ok(ForkResult::Parent { child }) => Ok(child.as_raw()),
        Ok(ForkResult::Child) => {
            for fd in close_fds { close(*fd); }
            stdin.map(|fd| dup2(fd, 0));
            stdout.map(|fd| dup2(fd, 1));
            chdir(cwd.as_slice());
            let v: Vec<_> = argv_env.iter().map(|x| core::ffi::CStr::from_bytes_with_nul(x).unwrap()).collect();
            execve(core::ffi::CStr::from_bytes_with_nul(exe).unwrap(), &v[..nargs], &v[nargs..]);
            kill(getpid(), Signal::SIGKILL);
            Err(-1)
        }
    }
}

/// Relies on nix's pipe: on success the pair is (read end, write end) of
/// a fresh pipe; on failure the errno.
#[verifier::external_body]
pub(crate) fn sys_pipe() -> (r: Result<(i32, i32), i32>)
{
    match pipe() {
        Ok(p) => Ok(p),
        Err(e) => Err(e.as_errno().map_or(-1, |x| x as i32)),
    }
}

/// Relies on nix's close: closes this descriptor in the calling process;
/// a failure to close is ignored, as the descriptor may already be gone.
#[verifier::external_body]
pub(crate) fn sys_close(fd: i32)
{
    let _ = close(fd);
}

/// Relies on nix's wait: blocks until any child changes state and
/// reports what happened; an interrupted wait is told apart from an
/// unrecoverable failure. A normal exit's code is decoded with
/// WEXITSTATUS, which masks it to one byte.
#[verifier::external_body]
pub(crate) fn sys_wait() -> (r: WaitEvent)
    ensures
        r matches WaitEvent::Exited(_, c) ==> 0 <= c <= 255,
{
    match wait() {
        Ok(WaitStatus::Exited(p, c)) => WaitEvent::Exited(p.as_raw(), c),
        Ok(WaitStatus::Signaled(p, s, d)) => WaitEvent::Signaled(p.as_raw(), s as i32, d),
        Ok(_) => WaitEvent::Other,
        Err(nix::Error::Sys(Errno::EINTR)) => WaitEvent::Interrupted,
        Err(e) => WaitEvent::Failed(e.as_errno().map_or(-1, |x| x as i32)),
    }
}

/// Relies on nix's getpid: the calling process's own id.
#[verifier::external_body]
pub(crate) fn sys_getpid() -> (r: i32)
{
    getpid().as_raw()
}

/// Relies on std's Path::exists: whether a directory entry at this path
/// resolves; bytes that are not valid UTF-8 name no path here.
#[verifier::external_body]
pub(crate) fn sys_path_exists(p: &Vec<u8>) -> (r: bool)
{
    match std::str::from_utf8(p) {
        Ok(s) => std::path::Path::new(s).exists(),
        Err(_) => false,
    }
}

/// Relies on std's Rc::clone: a clone of a reference-counted pointer is
/// the same value, sharing the same allocation.
#[verifier::external_body]
pub(crate) fn rc_command_dup(c: &Rc<Command>) -> (r: Rc<Command>)
    ensures
        *r == **c,
{
    c.clone()
}

} // verus!
