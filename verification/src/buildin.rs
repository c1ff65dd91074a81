//! The commands that the shell runs itself: `cd` and `pwd`.
use vstd::prelude::*;

use crate::parser::{Call, CallModel};
use crate::subprocess::{BuildInProcess, ExitCode};
use crate::text::string_is;

verus! {

#[derive(Debug, Clone, Copy, PartialEq, Eq, Structural)]
pub enum BuildInErrors {
    CdFailed,
    PwdFailed,
}

/// A built-in command.
#[derive(Debug)]
pub enum BuildInCommand {
    /// Change the working directory to this path.
    CD(String),
    /// Report the working directory.
    PWD,
}

/// A built-in command as plain values.
pub enum BuildInModel {
    CD(Seq<char>),
    PWD,
}

impl View for BuildInCommand {
    type V = BuildInModel;

    open spec fn view(&self) -> BuildInModel {
        match self {
            BuildInCommand::CD(p) => BuildInModel::CD(p@),
            BuildInCommand::PWD => BuildInModel::PWD,
        }
    }
}

/// What the environment answered when a built-in command asked it.
#[derive(Debug)]
pub enum BuildInOutcome {
    /// The working directory was changed.
    DirectoryChanged,
    /// The working directory, as text.
    CurrentDirectory(String),
    /// The environment refused or failed.
    Failed,
}

/// The built-in command that a call names: `cd` with its first argument as
/// the path (there must be one), or `pwd`; any other program is not built in.
pub open spec fn builtin_of(c: CallModel) -> Option<BuildInModel> {
    if c.prog == seq!['c', 'd'] {
        if c.arguments.len() > 0 {
            Some(BuildInModel::CD(c.arguments[0]))
        } else {
            None
        }
    } else if c.prog == seq!['p', 'w', 'd'] {
        Some(BuildInModel::PWD)
    } else {
        None
    }
}

/// Whether an answer of the environment is one that `command` can get:
/// a changed directory for `cd`, the directory for `pwd`, or a failure.
pub open spec fn outcome_fits(command: BuildInModel, outcome: BuildInOutcome) -> bool {
    match outcome {
        BuildInOutcome::Failed => true,
        BuildInOutcome::DirectoryChanged => command is CD,
        BuildInOutcome::CurrentDirectory(_) => command is PWD,
    }
}

/// `cd` with at least one argument, however many, is the built-in `cd` to
/// its first argument; `cd` alone is not built in.
pub proof fn law_cd_takes_its_first_argument(arguments: Seq<Seq<char>>)
    ensures
        arguments.len() >= 1 ==> builtin_of(CallModel { prog: seq!['c', 'd'], arguments }) == Some(
            BuildInModel::CD(arguments[0]),
        ),
        arguments.len() == 0 ==> builtin_of(CallModel { prog: seq!['c', 'd'], arguments }) is None,
{
}

/// `pwd` is built in whatever its arguments; a program named anything but
/// `cd` or `pwd` is never built in.
pub proof fn law_only_cd_and_pwd_are_built_in(c: CallModel)
    ensures
        c.prog == seq!['p', 'w', 'd'] ==> builtin_of(c) == Some(BuildInModel::PWD),
        c.prog != seq!['c', 'd'] && c.prog != seq!['p', 'w', 'd'] ==> builtin_of(c) is None,
{
}

impl BuildInCommand {
    pub fn build_from_call(call: &Call) -> (r: Option<Self>)
        ensures
            r matches Some(c) ==> builtin_of(call@) == Some(c@),
            r is None ==> builtin_of(call@) is None,
    {
        proof {
            reveal_strlit("cd");
            reveal_strlit("pwd");
            assert("cd"@ =~= seq!['c', 'd']);
            assert("pwd"@ =~= seq!['p', 'w', 'd']);
            assert(call@.arguments.len() == call.arguments@.len());
        }
        if string_is(&call.prog, "cd") {
            if call.arguments.len() == 0 {
                return None;
            }
            let arg = call.arguments[0].clone();
            assert(call@.arguments[0] == call.arguments@[0]@);
            Some(BuildInCommand::CD(arg))
        } else if string_is(&call.prog, "pwd") {
            Some(BuildInCommand::PWD)
        } else {
            None
        }
    }

    /// The process that the command became, given what the environment
    /// answered: `cd` prints nothing, `pwd` prints the directory, both with
    /// status 0; a failure is the command's own error.
    pub fn execute(&self, outcome: BuildInOutcome) -> (r: Result<BuildInProcess, BuildInErrors>)
        requires
            outcome_fits(self@, outcome),
        ensures
            outcome is Failed && self is CD ==> r == Err::<BuildInProcess, BuildInErrors>(BuildInErrors::CdFailed),
            outcome is Failed && self is PWD ==> r == Err::<BuildInProcess, BuildInErrors>(BuildInErrors::PwdFailed),
            outcome is DirectoryChanged ==> (r matches Ok(p) && p.stdout is None && p.status == ExitCode(0)),
            outcome matches BuildInOutcome::CurrentDirectory(d) ==> (r matches Ok(p) && p.stdout == Some(d)
                && p.status == ExitCode(0)),
    {
        match self {
            BuildInCommand::CD(_) => execute_cd(outcome),
            BuildInCommand::PWD => execute_pwd(outcome),
        }
    }
}

fn execute_cd(outcome: BuildInOutcome) -> (r: Result<BuildInProcess, BuildInErrors>)
    requires
        !(outcome is CurrentDirectory),
    ensures
        outcome is Failed ==> r == Err::<BuildInProcess, BuildInErrors>(BuildInErrors::CdFailed),
        outcome is DirectoryChanged ==> (r matches Ok(p) && p.stdout is None && p.status == ExitCode(0)),
{
    match outcome {
        BuildInOutcome::Failed => Err(BuildInErrors::CdFailed),
        _ => Ok(BuildInProcess::new(None, ExitCode(0))),
    }
}

fn execute_pwd(outcome: BuildInOutcome) -> (r: Result<BuildInProcess, BuildInErrors>)
    requires
        !(outcome is DirectoryChanged),
    ensures
        outcome is Failed ==> r == Err::<BuildInProcess, BuildInErrors>(BuildInErrors::PwdFailed),
        outcome matches BuildInOutcome::CurrentDirectory(d) ==> (r matches Ok(p) && p.stdout == Some(d)
            && p.status == ExitCode(0)),
{
    match outcome {
        BuildInOutcome::CurrentDirectory(d) => Ok(BuildInProcess::new(Some(d), ExitCode(0))),
        _ => Err(BuildInErrors::PwdFailed),
    }
}

} // verus!
