//! Exit codes and the result of a built-in command.
use vstd::prelude::*;

verus! {

/// The exit code of a finished process.
#[derive(Debug, Clone, Copy, PartialEq, Eq, Structural)]
pub struct ExitCode(pub i32);

/// How waiting for an external process ended.
#[derive(Debug, Clone, Copy, PartialEq, Eq, Structural)]
pub enum WaitOutcome {
    /// The process exited on its own with this code.
    Exited(i32),
    /// The process was ended by a signal and has no exit code.
    Signaled,
    /// Waiting for the process failed.
    WaitFailed,
}

impl ExitCode {
    /// The exit code of a process from how waiting for it ended: its own
    /// code, or `-1` when waiting failed. A process ended by a signal has no
    /// code to report.
    pub fn from_exit_status(exit_status: WaitOutcome) -> (r: Self)
        requires
            exit_status != WaitOutcome::Signaled,
        ensures
            match exit_status {
                WaitOutcome::Exited(c) => r.0 == c,
                _ => r.0 == -1,
            },
    {
        match exit_status {
            WaitOutcome::Exited(c) => ExitCode(c),
            _ => ExitCode(-1),
        }
    }

    pub fn code(&self) -> (c: i32)
        ensures
            c == self.0,
    {
        self.0
    }
}

/// A built-in command that has run: what it printed, and its status.
#[derive(Debug)]
pub struct BuildInProcess {
    pub stdout: Option<String>,
    pub status: ExitCode,
}

impl BuildInProcess {
    pub fn new(stdout: Option<String>, status: ExitCode) -> (r: Self)
        ensures
            r.stdout == stdout,
            r.status == status,
    {
        BuildInProcess { stdout, status }
    }
}

} // verus!
