use minishell::buildin::{BuildInCommand, BuildInErrors, BuildInOutcome};
use minishell::parser::Call;
use minishell::subprocess::ExitCode;

fn call(prog: &str, args: &[&str]) -> Call {
    Call { prog: prog.to_string(), arguments: args.iter().map(|s| s.to_string()).collect() }
}

#[test]
fn cd_takes_its_first_argument() {
    match BuildInCommand::build_from_call(&call("cd", &["/tmp", "extra"])) {
        Some(BuildInCommand::CD(p)) => assert_eq!(p, "/tmp"),
        other => panic!("expected cd, got {:?}", other),
    }
}

#[test]
fn cd_without_argument_is_not_built_in() {
    assert!(BuildInCommand::build_from_call(&call("cd", &[])).is_none());
}

#[test]
fn pwd_is_built_in() {
    assert!(matches!(BuildInCommand::build_from_call(&call("pwd", &["x"])), Some(BuildInCommand::PWD)));
}

#[test]
fn other_programs_are_not_built_in() {
    assert!(BuildInCommand::build_from_call(&call("ls", &["cd"])).is_none());
    assert!(BuildInCommand::build_from_call(&call("cdx", &["a"])).is_none());
    assert!(BuildInCommand::build_from_call(&call("PWD", &[])).is_none());
}

#[test]
fn cd_that_succeeds_prints_nothing() {
    let p = BuildInCommand::CD("/".to_string()).execute(BuildInOutcome::DirectoryChanged).unwrap();
    assert!(p.stdout.is_none());
    assert_eq!(p.status, ExitCode(0));
}

#[test]
fn pwd_prints_the_directory() {
    let p = BuildInCommand::PWD.execute(BuildInOutcome::CurrentDirectory("/home/u".to_string())).unwrap();
    assert_eq!(p.stdout.as_deref(), Some("/home/u"));
    assert_eq!(p.status, ExitCode(0));
}

#[test]
fn failures_are_the_commands_errors() {
    assert!(matches!(
        BuildInCommand::CD("/nowhere".to_string()).execute(BuildInOutcome::Failed),
        Err(BuildInErrors::CdFailed)
    ));
    assert!(matches!(BuildInCommand::PWD.execute(BuildInOutcome::Failed), Err(BuildInErrors::PwdFailed)));
}
