use myshell::command::{command_specfn, plan_line, record_command};
use myshell::pipeline::{pipeline_plan, stage_io, Sink, StageIo};

fn strings(v: &[&str]) -> Vec<String> {
    v.iter().map(|s| s.to_string()).collect()
}

fn builtins() -> Vec<String> {
    myshell::builtins::help::builtins()
}

#[test]
fn plain_command() {
    let c = command_specfn(strings(&["ls", "-l", "/tmp"]), &builtins());
    assert_eq!(c.cmd, "ls");
    assert_eq!(c.args, strings(&["-l", "/tmp"]));
    assert_eq!(c.stdout_target, None);
    assert_eq!(c.stderr_target, None);
    assert!(!c.stdout_append && !c.stderr_append);
    assert!(!c.isbuiltin);
}

#[test]
fn builtin_command() {
    let c = command_specfn(strings(&["echo", "hi"]), &builtins());
    assert!(c.isbuiltin);
    assert_eq!(c.cmd, "echo");
}

#[test]
fn stdout_redirections() {
    let c = command_specfn(strings(&["echo", "hi", ">", "out.txt"]), &builtins());
    assert_eq!(c.args, strings(&["hi"]));
    assert_eq!(c.stdout_target.as_deref(), Some("out.txt"));
    assert!(!c.stdout_append);
    let c = command_specfn(strings(&["echo", "hi", "1>>", "log"]), &builtins());
    assert_eq!(c.stdout_target.as_deref(), Some("log"));
    assert!(c.stdout_append);
    let c = command_specfn(strings(&["echo", "hi", "1>", "f"]), &builtins());
    assert_eq!(c.stdout_target.as_deref(), Some("f"));
    let c = command_specfn(strings(&["echo", "hi", ">>", "g"]), &builtins());
    assert_eq!(c.stdout_target.as_deref(), Some("g"));
    assert!(c.stdout_append);
}

#[test]
fn stderr_and_combined_redirections() {
    let c = command_specfn(strings(&["ls", "nope", "2>", "err", ">>", "out"]), &builtins());
    assert_eq!(c.args, strings(&["nope"]));
    assert_eq!(c.stderr_target.as_deref(), Some("err"));
    assert!(!c.stderr_append);
    assert_eq!(c.stdout_target.as_deref(), Some("out"));
    assert!(c.stdout_append);
    let c = command_specfn(strings(&["ls", "2>>", "e"]), &builtins());
    assert_eq!(c.stderr_target.as_deref(), Some("e"));
    assert!(c.stderr_append);
    assert_eq!(c.stdout_target, None);
}

#[test]
fn words_after_redirection_target_stay_arguments() {
    let c = command_specfn(strings(&["cat", ">", "f", "extra"]), &builtins());
    assert_eq!(c.args, strings(&["extra"]));
    assert_eq!(c.stdout_target.as_deref(), Some("f"));
    let c = command_specfn(strings(&["echo", "a", ">", "f.txt", "b"]), &builtins());
    assert_eq!(c.cmd, "echo");
    assert!(c.isbuiltin);
    assert_eq!(c.args, strings(&["a", "b"]));
    assert_eq!(c.stdout_target.as_deref(), Some("f.txt"));
    assert!(!c.stdout_append);
    let c = command_specfn(strings(&["ls", "2>", "e", "-l", ">>", "o", "x"]), &builtins());
    assert_eq!(c.args, strings(&["-l", "x"]));
    assert_eq!(c.stderr_target.as_deref(), Some("e"));
    assert_eq!(c.stdout_target.as_deref(), Some("o"));
    assert!(c.stdout_append);
}

#[test]
fn later_redirection_replaces_earlier() {
    let c = command_specfn(strings(&["cmd", ">", "a", ">>", "b"]), &builtins());
    assert_eq!(c.stdout_target.as_deref(), Some("b"));
    assert!(c.stdout_append);
    // An operator with nothing after it sends the stream back to the terminal.
    let c = command_specfn(strings(&["cmd", ">", "a", ">"]), &builtins());
    assert_eq!(c.stdout_target, None);
}

#[test]
fn lone_operator_redirects_nothing() {
    let c = command_specfn(strings(&["cmd", ">"]), &builtins());
    assert_eq!(c.cmd, "cmd");
    assert_eq!(c.stdout_target, None);
    let c = command_specfn(strings(&["cmd", ">>"]), &builtins());
    assert_eq!(c.stdout_target, None);
    assert!(!c.stdout_append);
    let c = command_specfn(strings(&["cmd", "x", "2>>"]), &builtins());
    assert_eq!(c.args, strings(&["x"]));
    assert_eq!(c.stderr_target, None);
    assert!(!c.stderr_append);
    // With an earlier operator, a trailing one still sets its append mode.
    let c = command_specfn(strings(&["cmd", ">", "a", ">>"]), &builtins());
    assert_eq!(c.stdout_target, None);
    assert!(c.stdout_append);
}

#[test]
fn word_after_operator_is_its_file() {
    // The word right after an operator is its file, even another operator.
    let c = command_specfn(strings(&["cmd", ">", "2>", "f"]), &builtins());
    assert_eq!(c.stdout_target.as_deref(), Some("2>"));
    assert!(!c.stdout_append);
    assert_eq!(c.stderr_target.as_deref(), Some("f"));
    assert!(!c.stderr_append);
    assert!(c.args.is_empty());
    let c = command_specfn(strings(&["cmd", "2>>", ">", "f"]), &builtins());
    assert_eq!(c.stderr_target.as_deref(), Some(">"));
    assert!(c.stderr_append);
    assert_eq!(c.stdout_target.as_deref(), Some("f"));
    let c = command_specfn(strings(&["cmd", ">", ">>", "f"]), &builtins());
    assert_eq!(c.stdout_target.as_deref(), Some("f"));
    assert!(c.stdout_append);
}

#[test]
fn last_operator_decides() {
    let c = command_specfn(strings(&["cmd", "2>", "e1", ">", "o1", "2>>", "e2", "1>", "o2"]), &builtins());
    assert_eq!(c.stdout_target.as_deref(), Some("o2"));
    assert!(!c.stdout_append);
    assert_eq!(c.stderr_target.as_deref(), Some("e2"));
    assert!(c.stderr_append);
    assert!(c.args.is_empty());
}

#[test]
fn empty_stage_has_empty_command() {
    let c = command_specfn(Vec::new(), &builtins());
    assert_eq!(c.cmd, "");
    assert!(c.args.is_empty());
    assert!(!c.isbuiltin);
    let c = command_specfn(strings(&[">", "f"]), &builtins());
    assert_eq!(c.cmd, "");
    assert_eq!(c.stdout_target.as_deref(), Some("f"));
}

#[test]
fn plan_a_pipeline() {
    let plan = plan_line("cat 'my file' | grep x > out | wc -l".to_string(), &builtins());
    assert_eq!(plan.len(), 3);
    assert_eq!(plan[0].cmd, "cat");
    assert_eq!(plan[0].args, strings(&["my file"]));
    assert_eq!(plan[1].cmd, "grep");
    assert_eq!(plan[1].args, strings(&["x"]));
    assert_eq!(plan[1].stdout_target.as_deref(), Some("out"));
    assert_eq!(plan[2].cmd, "wc");
    assert!(plan_line("   ".to_string(), &builtins()).is_empty());
}

#[test]
fn pipeline_wiring() {
    let plan = plan_line("echo hi > f | cat 2> e | wc > n".to_string(), &builtins());
    let io = pipeline_plan(&plan);
    assert_eq!(
        io,
        vec![
            StageIo {
                stdin_from_previous: false,
                pipe_to_next: true,
                stdout: Sink::Redirected,
                stderr: Sink::Terminal,
            },
            StageIo {
                stdin_from_previous: true,
                pipe_to_next: true,
                stdout: Sink::NextStage,
                stderr: Sink::Redirected,
            },
            StageIo {
                stdin_from_previous: true,
                pipe_to_next: false,
                stdout: Sink::Redirected,
                stderr: Sink::Terminal,
            },
        ]
    );
    // A builtin at the end of a pipeline honours its redirection.
    let plan = plan_line("ls | echo hi > f".to_string(), &builtins());
    assert_eq!(stage_io(1, 2, &plan[1]).stdout, Sink::Redirected);
    assert_eq!(pipeline_plan(&plan)[1].stdout, Sink::Redirected);
    let plan = plan_line("echo hi | cat".to_string(), &builtins());
    assert_eq!(pipeline_plan(&plan)[0].stdout, Sink::NextStage);
    assert_eq!(pipeline_plan(&plan)[1].stdout, Sink::Terminal);
}

#[test]
fn lone_command_routing() {
    let plan = plan_line("echo hi > f 2>> e".to_string(), &builtins());
    let io = stage_io(0, 1, &plan[0]);
    assert_eq!(
        io,
        StageIo {
            stdin_from_previous: false,
            pipe_to_next: false,
            stdout: Sink::Redirected,
            stderr: Sink::Redirected,
        }
    );
    let plan = plan_line("ls".to_string(), &builtins());
    assert_eq!(stage_io(0, 1, &plan[0]).stdout, Sink::Terminal);
    assert_eq!(stage_io(0, 1, &plan[0]).stderr, Sink::Terminal);
}

#[test]
fn unspaced_bar_splits_stages() {
    let plan = plan_line("ls|wc -l".to_string(), &builtins());
    assert_eq!(plan.len(), 2);
    assert_eq!(plan[0].cmd, "ls");
    assert_eq!(plan[1].cmd, "wc");
    assert_eq!(plan[1].args, strings(&["-l"]));
}

#[test]
fn record_in_both_lists() {
    let mut history = strings(&["ls"]);
    let mut new_commands = Vec::new();
    record_command("pwd", &mut history, &mut new_commands);
    assert_eq!(history, strings(&["ls", "pwd"]));
    assert_eq!(new_commands, strings(&["pwd"]));
    record_command("echo hi", &mut history, &mut new_commands);
    assert_eq!(history, strings(&["ls", "pwd", "echo hi"]));
    assert_eq!(new_commands, strings(&["pwd", "echo hi"]));
}
