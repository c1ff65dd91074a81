use minishell::buildin::{BuildInCommand, BuildInOutcome};
use minishell::interpreter::{
    interpret_buildin_call, interpret_shell, InterperterError, InterpreterResult, Outcome, Plan, Sink,
    Source, Step,
};
use minishell::parser::parse_input;
use minishell::subprocess::ExitCode;

fn plan_of(line: &str) -> Plan {
    interpret_shell(parse_input(line).unwrap())
}

fn describe(step: &Step) -> String {
    match step {
        Step::OpenPipe => "open-pipe".to_string(),
        Step::CreateFile(n) => format!("create {}", n),
        Step::RunBuildIn(b, s, k) => format!("builtin {:?} {:?} {:?}", b, s, k),
        Step::Spawn(c, s, k) => format!("spawn {} {:?} {:?} {:?}", c.prog, c.arguments, s, k),
        Step::Wait(i) => format!("wait {}", i),
        Step::Write(t, k) => format!("write {} {:?}", t, k),
    }
}

#[test]
fn exit_codes_classify() {
    assert_eq!(InterpreterResult::from_exit_code(ExitCode(0)), InterpreterResult::ExitSuccess);
    assert_eq!(InterpreterResult::from_exit_code(ExitCode(3)), InterpreterResult::ExitFailure(3));
    assert_eq!(InterpreterResult::from_exit_code(ExitCode(-9)), InterpreterResult::ExitCrash(-9));
}

#[test]
fn a_call_is_one_step() {
    let plan = plan_of("ls -l");
    let steps: Vec<String> = plan.steps.iter().map(describe).collect();
    assert_eq!(steps, vec![r#"spawn ls ["-l"] Stdin Stdout"#.to_string()]);
    assert!(matches!(plan.result, Outcome::Process(0)));
}

#[test]
fn a_pipe_runs_both_sides_and_waits_for_the_left() {
    let plan = plan_of("ls | wc -l");
    let steps: Vec<String> = plan.steps.iter().map(describe).collect();
    assert_eq!(
        steps,
        vec![
            "open-pipe".to_string(),
            "spawn ls [] Stdin PipeWriter(0)".to_string(),
            r#"spawn wc ["-l"] PipeReader(0) Stdout"#.to_string(),
            "wait 1".to_string(),
        ]
    );
    assert!(matches!(plan.result, Outcome::Process(2)));
}

#[test]
fn a_redirect_writes_into_the_file_and_echoes_its_name() {
    let plan = plan_of("echo hi > out.txt ignored");
    let steps: Vec<String> = plan.steps.iter().map(describe).collect();
    assert_eq!(
        steps,
        vec![
            "create out.txt".to_string(),
            r#"spawn echo ["hi"] Stdin File(0)"#.to_string(),
            "wait 1".to_string(),
            "write out.txt Stdout".to_string(),
        ]
    );
    match plan.result {
        Outcome::Finished(p) => {
            assert_eq!(p.stdout.as_deref(), Some("out.txt"));
            assert_eq!(p.status, ExitCode(0));
        }
        other => panic!("expected a finished result, got {:?}", other),
    }
}

#[test]
fn built_in_commands_run_in_the_plan() {
    let plan = plan_of("pwd | cat");
    let steps: Vec<String> = plan.steps.iter().map(describe).collect();
    assert_eq!(
        steps,
        vec![
            "open-pipe".to_string(),
            "builtin PWD Stdin PipeWriter(0)".to_string(),
            "spawn cat [] PipeReader(0) Stdout".to_string(),
            "wait 1".to_string(),
        ]
    );
}

#[test]
fn nested_redirects_need_no_wait_for_a_finished_side() {
    let plan = plan_of("a > f1 > f2");
    let steps: Vec<String> = plan.steps.iter().map(describe).collect();
    assert_eq!(
        steps,
        vec![
            "create f2".to_string(),
            "create f1".to_string(),
            "spawn a [] Stdin File(1)".to_string(),
            "wait 2".to_string(),
            "write f1 File(0)".to_string(),
            "write f2 Stdout".to_string(),
        ]
    );
}

#[test]
fn each_pipe_end_is_used_once_on_an_example() {
    let plan = plan_of("a | b | c > f | d");
    let mut reads = std::collections::HashMap::new();
    let mut writes = std::collections::HashMap::new();
    for step in &plan.steps {
        match step {
            Step::Spawn(_, s, k) | Step::RunBuildIn(_, s, k) => {
                *reads.entry(format!("{:?}", s)).or_insert(0) += 1;
                *writes.entry(format!("{:?}", k)).or_insert(0) += 1;
            }
            Step::Write(_, k) => *writes.entry(format!("{:?}", k)).or_insert(0) += 1,
            _ => {}
        }
    }
    assert!(reads.values().all(|n| *n == 1));
    assert!(writes.values().all(|n| *n == 1));
    assert_eq!(reads.get(&format!("{:?}", Source::Stdin)), Some(&1));
    assert_eq!(writes.get(&format!("{:?}", Sink::Stdout)), Some(&1));
}

#[test]
fn failing_built_ins_fail_to_spawn() {
    let r = interpret_buildin_call(&BuildInCommand::PWD, BuildInOutcome::Failed);
    assert!(matches!(r, Err(InterperterError::FailedToSpawn)));
    let ok = interpret_buildin_call(&BuildInCommand::CD("/".to_string()), BuildInOutcome::DirectoryChanged).unwrap();
    assert!(ok.stdout.is_none());
}
