//! One command line: quitting, an empty line, or the plan that runs it; and
//! what its run reports back.
use vstd::prelude::*;

use crate::interpreter::{
    interpret_shell, result_of_code, plan_of, steps_view, InterperterError, InterpreterResult, Plan, Sink, Source,
};
use crate::parser::{grammar_ok, parse_input, tokens_of, tree_of};
use crate::subprocess::ExitCode;
use crate::text::{chars_of, is_space, lemma_trim_around, lemma_trim_end_shape, lemma_trim_start_shape, trim, trim_bounds, trim_end, trim_start};

verus! {

#[derive(Debug, Clone, Copy, PartialEq, Eq, Structural)]
pub enum ExecutionError {
    ParsingFailed,
    ExecutionFailed,
}

/// What a command line came to.
#[derive(Debug, Clone, Copy, PartialEq, Eq, Structural)]
pub enum ExecutionResult {
    /// The user asked the shell to stop.
    ShellStop,
    /// The line ran, with this exit code.
    ShellRun { exit_code: ExitCode },
    /// The line was empty.
    Empty,
}

/// What the shell does with a command line.
#[derive(Debug)]
pub enum ShellAction {
    /// Stop the shell.
    Stop,
    /// Nothing: the line is empty.
    Empty,
    /// Carry out this plan.
    Run(Plan),
}

/// The line asks the shell to stop: it is `q`, with white space around it.
pub open spec fn is_quit(line: Seq<char>) -> bool {
    trim(line) == seq!['q']
}

/// The decision for a command line: stop on `q`, nothing on an empty line,
/// and otherwise the plan of the expression that the line denotes, or
/// `ParsingFailed` when it denotes none.
pub fn execute_shell(command: String) -> (r: Result<ShellAction, ExecutionError>)
    ensures
        is_quit(command@) ==> r matches Ok(ShellAction::Stop),
        !is_quit(command@) && command@.len() == 0 ==> r matches Ok(ShellAction::Empty),
        !is_quit(command@) && command@.len() > 0 && !(tokens_of(command@).len() > 0 && grammar_ok(
            tokens_of(command@),
        )) ==> r == Err::<ShellAction, ExecutionError>(ExecutionError::ParsingFailed),
        !is_quit(command@) && command@.len() > 0 && tokens_of(command@).len() > 0 && grammar_ok(
            tokens_of(command@),
        ) ==> r matches Ok(ShellAction::Run(_)),
        r matches Ok(ShellAction::Run(plan)) ==> tree_of(tokens_of(command@)) is Some && steps_view(plan.steps@)
            == plan_of(tree_of(tokens_of(command@))->0, Source::Stdin, Sink::Stdout, 0).0 && plan.result@
            == plan_of(tree_of(tokens_of(command@))->0, Source::Stdin, Sink::Stdout, 0).1,
{
    let chars = chars_of(command.as_str());
    let (lo, hi) = trim_bounds(&chars);
    if hi - lo == 1 && chars[lo] == 'q' {
        assert(trim(command@) =~= seq!['q']);
        return Ok(ShellAction::Stop);
    }
    assert(!is_quit(command@)) by {
        if is_quit(command@) {
            assert(chars@.subrange(lo as int, hi as int).len() == 1);
            assert(chars@.subrange(lo as int, hi as int)[0] == chars@[lo as int]);
        }
    }
    if command.as_str().is_empty() {
        return Ok(ShellAction::Empty);
    }
    match parse_input(command.as_str()) {
        Ok(shell_expr) => Ok(ShellAction::Run(interpret_shell(shell_expr))),
        Err(_) => Err(ExecutionError::ParsingFailed),
    }
}

/// How an interpreter result reads as an exit code.
pub open spec fn exit_code_of(r: Result<InterpreterResult, InterperterError>) -> i32 {
    match r {
        Ok(InterpreterResult::ExitSuccess) => 0,
        Ok(InterpreterResult::ExitFailure(code)) => code as i32,
        Ok(InterpreterResult::ExitCrash(code)) => code,
        Err(_) => 1,
    }
}

/// A line that ran reports the exit code of its interpreter result; a line
/// that the interpreter could not run reports 1.
pub fn map_interpreter_result_to_execution_result(
    interpreter_result: Result<InterpreterResult, InterperterError>,
) -> (r: ExecutionResult)
    ensures
        r == (ExecutionResult::ShellRun { exit_code: ExitCode(exit_code_of(interpreter_result)) }),
{
    match interpreter_result {
        Ok(InterpreterResult::ExitSuccess) => ExecutionResult::ShellRun { exit_code: ExitCode(0) },
        Ok(InterpreterResult::ExitFailure(code)) => ExecutionResult::ShellRun { exit_code: ExitCode(code as i32) },
        Ok(InterpreterResult::ExitCrash(code)) => ExecutionResult::ShellRun { exit_code: ExitCode(code) },
        Err(_) => ExecutionResult::ShellRun { exit_code: ExitCode(1) },
    }
}

/// An exit code survives its reading as an interpreter result and its
/// report unchanged: the shell reports the code that the process gave.
pub proof fn exit_code_round_trip(code: i32)
    ensures
        exit_code_of(Ok(result_of_code(code))) == code,
{
}

/// A line that the interpreter could not run reports exit code 1.
pub proof fn law_failed_line_reports_one(e: InterperterError)
    ensures
        exit_code_of(Err(e)) == 1,
{
}

/// A line asks the shell to stop exactly when it is the letter `q` with only
/// white space around it.
pub proof fn law_quit_line(line: Seq<char>, a: Seq<char>, b: Seq<char>)
    ensures
        (forall|i: int| 0 <= i < a.len() ==> is_space(#[trigger] a[i])) && (forall|i: int|
            0 <= i < b.len() ==> is_space(#[trigger] b[i])) ==> is_quit(a + seq!['q'] + b),
        is_quit(line) ==> exists|k: int|
            0 <= k < line.len() && line[k] == 'q' && forall|i: int|
                0 <= i < line.len() && i != k ==> is_space(#[trigger] line[i]),
{
    if (forall|i: int| 0 <= i < a.len() ==> is_space(#[trigger] a[i])) && (forall|i: int|
        0 <= i < b.len() ==> is_space(#[trigger] b[i])) {
        lemma_trim_around(a, seq!['q'], b);
    }
    if is_quit(line) {
        lemma_trim_start_shape(line);
        let lo = choose|lo: int|
            0 <= lo <= line.len() && (forall|i: int| 0 <= i < lo ==> is_space(#[trigger] line[i]))
                && trim_start(line) == line.subrange(lo, line.len() as int) && (lo < line.len() ==> !is_space(
                line[lo],
            ));
        let t = line.subrange(lo, line.len() as int);
        lemma_trim_end_shape(t);
        let hi = choose|hi: int|
            0 <= hi <= t.len() && (forall|i: int| hi <= i < t.len() ==> is_space(#[trigger] t[i])) && trim_end(t)
                == t.subrange(0, hi) && (hi > 0 ==> !is_space(t[hi - 1]));
        assert(trim(line) == trim_end(t));
        assert(t.subrange(0, hi) == seq!['q']);
        assert(hi == 1);
        assert(t.subrange(0, hi)[0] == t[0]);
        assert(line[lo] == t[0]);
        assert forall|i: int| 0 <= i < line.len() && i != lo implies is_space(#[trigger] line[i]) by {
            if i > lo {
                assert(line[i] == t[i - lo]);
                assert(is_space(t[i - lo]));
            }
        }
        assert(t.len() > 0);
        assert(line[lo] == 'q');
    }
}

} // verus!
