use lib::builtins::{echo_text, ls_lines, prompt_text, read_assign, read_prompt, record_exit_status, sleep_millis, status_text};
use lib::commands::Command;
use lib::line::{classify_line, on_command, parse_jobs, Input, LineAction};
use lib::shell::{step_job, Job, Shell};
use lib::variables::{set_var, Variables};

fn strings(v: &[&str]) -> Vec<String> {
    v.iter().map(|s| s.to_string()).collect()
}

#[test]
fn echo_joins_and_trims() {
    assert_eq!(echo_text(&strings(&["echo", "Hello", "world!"])), "Hello world!");
    assert_eq!(echo_text(&strings(&["echo"])), "");
    assert_eq!(echo_text(&strings(&[])), "");
    assert_eq!(echo_text(&strings(&["echo", "", "a", " "])), "a");
}

#[test]
fn prompt_shows_modes_outermost_first() {
    let table = Command::map();
    let mut sh = Shell::new();
    assert_eq!(prompt_text(&sh.mode, "/home"), "ion:/home# ");
    let if_job = |a: &str, b: &str| Job { command: "if".to_string(), args: strings(&[a, "==", b]) };
    step_job(&mut sh, &table, &if_job("a", "a"));
    step_job(&mut sh, &table, &if_job("a", "b"));
    assert_eq!(prompt_text(&sh.mode, "?"), "+ - ion:?# ");
}

#[test]
fn ls_sorts_and_marks_directories() {
    let entries = vec![
        ("zeta".to_string(), false),
        ("alpha".to_string(), true),
        ("Beta".to_string(), false),
    ];
    assert_eq!(ls_lines(&entries), vec!["Beta", "alpha/", "zeta"]);
    assert!(ls_lines(&vec![]).is_empty());
}

#[test]
fn exit_codes_in_decimal() {
    for code in [0, 7, 10, 42, -1, -10, 255, i32::MAX, i32::MIN] {
        assert_eq!(status_text(code), format!("{}", code));
    }
}

#[test]
fn exit_status_variable() {
    let mut v = Variables::new();
    record_exit_status(&mut v, 3);
    assert_eq!(v.get("?"), Some("3".to_string()));
    record_exit_status(&mut v, -2);
    assert_eq!(v.get("?"), Some("-2".to_string()));
}

#[test]
fn sleep_durations() {
    assert_eq!(sleep_millis(&strings(&["sleep", "2"])), 2000);
    assert_eq!(sleep_millis(&strings(&["sleep"])), 0);
    assert_eq!(sleep_millis(&strings(&["sleep", "x"])), 0);
    assert_eq!(sleep_millis(&strings(&["sleep", "5000000"])), 5_000_000u32.wrapping_mul(1000));
}

#[test]
fn read_builtin_parts() {
    assert_eq!(read_prompt("  name "), "name=");
    let mut v = Variables::new();
    read_assign(&mut v, " name ", "  some value \n");
    assert_eq!(v.get("name"), Some("some value".to_string()));
    read_assign(&mut v, "name", "   ");
    assert_eq!(v.get("name"), None);
}

#[test]
fn jobs_of_a_line() {
    let mut v = Variables::new();
    set_var(&mut v, "who", "world");
    let jobs = parse_jobs("echo hello $who; ;ls  -l\nx=1 $none", &v);
    assert_eq!(jobs.len(), 3);
    assert_eq!(jobs[0].command, "echo");
    assert_eq!(jobs[0].args, strings(&["hello", "world"]));
    assert_eq!(jobs[1].command, "ls");
    assert_eq!(jobs[1].args, strings(&["-l"]));
    assert_eq!(jobs[2].command, "x=1");
    assert_eq!(jobs[2].args, strings(&[""]));
    assert!(parse_jobs("   ", &v).is_empty());
}

#[test]
fn dollar_lists_variables() {
    let mut sh = Shell::new();
    set_var(&mut sh.variables, "b", "2");
    set_var(&mut sh.variables, "a", "1");
    match on_command(&sh, "$") {
        LineAction::ShowVariables(lines) => assert_eq!(lines, vec!["a=1", "b=2"]),
        LineAction::Jobs(_) => panic!("expected the variables"),
    }
    match on_command(&sh, "echo $a") {
        LineAction::Jobs(jobs) => assert_eq!(jobs[0].args, strings(&["1"])),
        LineAction::ShowVariables(_) => panic!("expected jobs"),
    }
}

#[test]
fn lines_typed_at_the_prompt() {
    assert!(matches!(classify_line("  exit \n"), Input::Exit));
    assert!(matches!(classify_line(" \t "), Input::Blank));
    match classify_line(" ls -l ") {
        Input::Command(c) => assert_eq!(c, "ls -l"),
        _ => panic!("expected a command"),
    }
}

#[test]
fn exit_status_reads_back_as_number() {
    for code in [0, 1, -1, 99, -255, i32::MAX, i32::MIN] {
        assert_eq!(lib::to_num::to_num_signed(&status_text(code)), code as isize);
    }
}

#[test]
fn assigned_variable_expands_in_next_line() {
    let table = Command::map();
    let mut sh = Shell::new();
    for job in parse_jobs("greeting=hi there", &sh.variables) {
        step_job(&mut sh, &table, &job);
    }
    let jobs = parse_jobs("echo $greeting", &sh.variables);
    assert_eq!(jobs[0].args, strings(&["hi there"]));
    for job in parse_jobs("greeting=", &sh.variables) {
        step_job(&mut sh, &table, &job);
    }
    let jobs = parse_jobs("echo $greeting", &sh.variables);
    assert_eq!(jobs[0].args, strings(&[""]));
}
