use minishell::executor::{execute_shell, map_interpreter_result_to_execution_result, ExecutionError, ExecutionResult, ShellAction};
use minishell::interpreter::{InterperterError, InterpreterResult};
use minishell::shell::{decimal_string, shell_reply, ShellReply};
use minishell::subprocess::{BuildInProcess, ExitCode, WaitOutcome};

#[test]
fn q_stops_the_shell() {
    assert!(matches!(execute_shell("q".to_string()), Ok(ShellAction::Stop)));
    assert!(matches!(execute_shell("  q \n".to_string()), Ok(ShellAction::Stop)));
}

#[test]
fn other_words_with_q_run() {
    assert!(matches!(execute_shell("qq".to_string()), Ok(ShellAction::Run(_))));
    assert!(matches!(execute_shell("q x".to_string()), Ok(ShellAction::Run(_))));
}

#[test]
fn an_empty_line_does_nothing() {
    assert!(matches!(execute_shell(String::new()), Ok(ShellAction::Empty)));
}

#[test]
fn lines_that_do_not_parse_fail() {
    assert!(matches!(execute_shell("ls |".to_string()), Err(ExecutionError::ParsingFailed)));
    assert!(matches!(execute_shell("\n".to_string()), Err(ExecutionError::ParsingFailed)));
}

#[test]
fn interpreter_results_become_exit_codes() {
    let run = |r| match map_interpreter_result_to_execution_result(r) {
        ExecutionResult::ShellRun { exit_code } => exit_code.code(),
        _ => panic!("expected a run"),
    };
    assert_eq!(run(Ok(InterpreterResult::ExitSuccess)), 0);
    assert_eq!(run(Ok(InterpreterResult::ExitFailure(2))), 2);
    assert_eq!(run(Ok(InterpreterResult::ExitCrash(-6))), -6);
    assert_eq!(run(Err(InterperterError::FailedToSpawn)), 1);
    assert_eq!(run(Ok(InterpreterResult::ExitFailure(u32::MAX))), -1);
}

#[test]
fn exit_codes_survive_the_round_trip() {
    for code in [0, 1, 42, -1, i32::MAX, i32::MIN] {
        let r = InterpreterResult::from_exit_code(ExitCode(code));
        assert_eq!(
            map_interpreter_result_to_execution_result(Ok(r)),
            ExecutionResult::ShellRun { exit_code: ExitCode(code) }
        );
    }
}

#[test]
fn finished_lines_are_reported_with_their_code() {
    match shell_reply(ExecutionResult::ShellRun { exit_code: ExitCode(0) }) {
        ShellReply::Print(m) => assert_eq!(m, "Program Finished with code: 0 \n"),
        other => panic!("expected a message, got {:?}", other),
    }
    match shell_reply(ExecutionResult::ShellRun { exit_code: ExitCode(-127) }) {
        ShellReply::Print(m) => assert_eq!(m, "Program Finished with code: -127 \n"),
        other => panic!("expected a message, got {:?}", other),
    }
}

#[test]
fn stop_and_empty_replies() {
    assert!(matches!(shell_reply(ExecutionResult::ShellStop), ShellReply::Stop));
    assert!(matches!(shell_reply(ExecutionResult::Empty), ShellReply::Continue));
}

#[test]
fn decimal_text_of_integers() {
    for n in [0, 7, 10, 99, 100, 12345, -1, -10, i32::MAX, i32::MIN] {
        assert_eq!(decimal_string(n), n.to_string());
    }
}

#[test]
fn exit_status_of_processes() {
    assert_eq!(ExitCode::from_exit_status(WaitOutcome::Exited(0)), ExitCode(0));
    assert_eq!(ExitCode::from_exit_status(WaitOutcome::Exited(5)), ExitCode(5));
    assert_eq!(ExitCode::from_exit_status(WaitOutcome::WaitFailed), ExitCode(-1));
    assert_eq!(ExitCode(9).code(), 9);
}

#[test]
fn build_in_process_keeps_its_parts() {
    let p = BuildInProcess::new(Some("x".to_string()), ExitCode(4));
    assert_eq!(p.stdout.as_deref(), Some("x"));
    assert_eq!(p.status, ExitCode(4));
}
