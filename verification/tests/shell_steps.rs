use lib::commands::{help_lines, lookup, Builtin, Command};
use lib::shell::{step_job, Job, JobAction, Shell};

fn job(command: &str, args: &[&str]) -> Job {
    Job { command: command.to_string(), args: args.iter().map(|a| a.to_string()).collect() }
}

fn modes(shell: &Shell) -> Vec<bool> {
    shell.mode.iter().map(|m| m.value()).collect()
}

fn message(a: JobAction) -> Option<String> {
    match a {
        JobAction::Message(m) => Some(m),
        _ => None,
    }
}

#[test]
fn command_table() {
    let table = Command::map();
    assert_eq!(table.len(), 17);
    let names: Vec<&str> = table.iter().map(|c| c.name).collect();
    let mut sorted = names.clone();
    sorted.sort();
    assert_eq!(names, sorted);
    let i = lookup(&table, "echo").unwrap();
    assert_eq!(table[i].main, Builtin::Echo);
    assert_eq!(lookup(&table, "nothere"), None);
    let m = lookup(&table, "mkdir").unwrap();
    assert_eq!(table[m].help, "To create a directory in the current directory\n    mkdir <my_new_directory>");
}

#[test]
fn help_for_a_command() {
    let table = Command::map();
    let args = vec!["help".to_string(), "ls".to_string()];
    assert_eq!(help_lines(&table, &args), vec!["To list the content of the current directory\n    ls"]);
}

#[test]
fn help_for_unknown_command() {
    let table = Command::map();
    let args = vec!["help".to_string(), "nope".to_string()];
    assert_eq!(help_lines(&table, &args), vec!["Command helper not found [run 'help']..."]);
    let args = vec!["help".to_string(), "help".to_string()];
    assert_eq!(help_lines(&table, &args), vec!["Command helper not found [run 'help']..."]);
}

#[test]
fn help_lists_commands() {
    let table = Command::map();
    let args = vec!["help".to_string()];
    let lines = help_lines(&table, &args);
    assert_eq!(lines.len(), 16);
    assert_eq!(lines[0], "cat");
    assert_eq!(lines[15], "touch");
    assert!(!lines.iter().any(|l| l == "help"));
    let mut sorted = lines.clone();
    sorted.sort();
    sorted.dedup();
    assert_eq!(lines, sorted);
}

#[test]
fn if_equal_words() {
    let table = Command::map();
    let mut sh = Shell::new();
    let a = step_job(&mut sh, &table, &job("if", &["a", "==", "a"]));
    assert!(matches!(a, JobAction::Nothing));
    assert_eq!(modes(&sh), vec![true]);
    step_job(&mut sh, &table, &job("if", &["a", "!=", "a"]));
    assert_eq!(modes(&sh), vec![false, true]);
}

#[test]
fn if_numbers() {
    let table = Command::map();
    let mut sh = Shell::new();
    step_job(&mut sh, &table, &job("if", &["10", ">", "9"]));
    step_job(&mut sh, &table, &job("if", &["-3", ">=", "2"]));
    step_job(&mut sh, &table, &job("if", &["2", "<", "3"]));
    step_job(&mut sh, &table, &job("if", &["4", "<=", "3"]));
    assert_eq!(modes(&sh), vec![false, true, false, true]);
}

#[test]
fn malformed_conditions() {
    let table = Command::map();
    let mut sh = Shell::new();
    assert_eq!(message(step_job(&mut sh, &table, &job("if", &[]))), Some("No left hand side".to_string()));
    assert_eq!(message(step_job(&mut sh, &table, &job("if", &["a"]))), Some("No comparison operator".to_string()));
    assert_eq!(message(step_job(&mut sh, &table, &job("if", &["a", "=="]))), Some("No right hand side".to_string()));
    assert_eq!(
        message(step_job(&mut sh, &table, &job("if", &["a", "~", "b"]))),
        Some("Unknown comparison: ~".to_string())
    );
    assert_eq!(modes(&sh), vec![false, false, false, false]);
}

#[test]
fn else_and_fi() {
    let table = Command::map();
    let mut sh = Shell::new();
    step_job(&mut sh, &table, &job("if", &["1", "==", "2"]));
    assert_eq!(modes(&sh), vec![false]);
    step_job(&mut sh, &table, &job("else", &[]));
    assert_eq!(modes(&sh), vec![true]);
    step_job(&mut sh, &table, &job("else", &[]));
    assert_eq!(modes(&sh), vec![false]);
    step_job(&mut sh, &table, &job("fi", &[]));
    assert!(modes(&sh).is_empty());
}

#[test]
fn else_and_fi_without_if() {
    let table = Command::map();
    let mut sh = Shell::new();
    assert_eq!(
        message(step_job(&mut sh, &table, &job("else", &[]))),
        Some("Syntax error: else found with no previous if".to_string())
    );
    assert_eq!(
        message(step_job(&mut sh, &table, &job("fi", &[]))),
        Some("Syntax error: fi found with no previous if".to_string())
    );
    assert!(modes(&sh).is_empty());
}

#[test]
fn skipped_jobs_do_nothing() {
    let table = Command::map();
    let mut sh = Shell::new();
    step_job(&mut sh, &table, &job("if", &["a", "==", "b"]));
    assert!(matches!(step_job(&mut sh, &table, &job("x=1", &[])), JobAction::Nothing));
    assert!(matches!(step_job(&mut sh, &table, &job("echo", &["hi"])), JobAction::Nothing));
    assert_eq!(sh.variables.get("x"), None);
    step_job(&mut sh, &table, &job("fi", &[]));
    assert!(matches!(step_job(&mut sh, &table, &job("echo", &["hi"])), JobAction::Builtin(Builtin::Echo, _)));
}

#[test]
fn assignment_jobs() {
    let table = Command::map();
    let mut sh = Shell::new();
    step_job(&mut sh, &table, &job(" x = hello ", &["big", "world"]));
    assert_eq!(sh.variables.get("x"), Some("hello big world".to_string()));
    step_job(&mut sh, &table, &job("y=", &["v"]));
    assert_eq!(sh.variables.get("y"), Some(" v".to_string()));
    step_job(&mut sh, &table, &job("x=", &[]));
    assert_eq!(sh.variables.get("x"), None);
    step_job(&mut sh, &table, &job("=z", &[]));
    assert!(sh.variables.get("").is_none());
    step_job(&mut sh, &table, &job("a=b=c", &[]));
    assert_eq!(sh.variables.get("a"), Some("b=c".to_string()));
}

#[test]
fn builtin_and_external_jobs() {
    let table = Command::map();
    let mut sh = Shell::new();
    match step_job(&mut sh, &table, &job("ls", &["/tmp"])) {
        JobAction::Builtin(b, args) => {
            assert_eq!(b, Builtin::Ls);
            assert_eq!(args, vec!["ls", "/tmp"]);
        }
        _ => panic!("expected a builtin"),
    }
    match step_job(&mut sh, &table, &job("/bin/true", &["x"])) {
        JobAction::External(args) => assert_eq!(args, vec!["/bin/true", "x"]),
        _ => panic!("expected an outside program"),
    }
}

#[test]
fn exit_job_ends_session() {
    let table = Command::map();
    let mut sh = Shell::new();
    assert!(matches!(step_job(&mut sh, &table, &job("exit", &[])), JobAction::Exit));
    step_job(&mut sh, &table, &job("if", &["a", "==", "b"]));
    assert!(matches!(step_job(&mut sh, &table, &job("exit", &[])), JobAction::Nothing));
}

#[test]
fn mode_depth_over_a_line() {
    let table = Command::map();
    let mut sh = Shell::new();
    let line = [
        job("if", &["1", "==", "1"]),
        job("if", &["1", "==", "2"]),
        job("else", &[]),
        job("echo", &["x"]),
        job("fi", &[]),
        job("if", &["a"]),
        job("x=1", &[]),
    ];
    for j in line.iter() {
        step_job(&mut sh, &table, j);
    }
    // three `if`, one `fi`
    assert_eq!(sh.mode.len(), 2);
}
