use myshell::builtins::{self, BuiltinContext, Request};
use myshell::builtins::{cd, echo, exit, help, history, pwd, rtype};
use myshell::history_helper::History;

fn strings(v: &[&str]) -> Vec<String> {
    v.iter().map(|s| s.to_string()).collect()
}

fn ctx(args: &[&str]) -> BuiltinContext {
    BuiltinContext::new(
        strings(args),
        help::builtins(),
        History::new(),
        Some("/home/me".to_string()),
        Ok("/work".to_string()),
        Vec::new(),
    )
}

#[test]
fn echo_prints_arguments() {
    let mut c = ctx(&["hello", "world"]);
    assert!(echo::run(&mut c));
    assert_eq!(c.builtin_out, "hello world\n");
    assert_eq!(c.builtin_err, "");
    let mut c = ctx(&[]);
    echo::run(&mut c);
    assert_eq!(c.builtin_out, "\n");
}

#[test]
fn echo_refuses_z() {
    let mut c = ctx(&["-z", "x"]);
    assert!(echo::run(&mut c));
    assert_eq!(c.builtin_out, "");
    assert_eq!(c.builtin_err, "echo: invalid option '-z'\n");
}

#[test]
fn exit_stops() {
    let mut c = ctx(&[]);
    assert!(!exit::run(&mut c));
    assert!(!builtins::run("exit", &mut c));
    assert_eq!(exit::info(), "exit\nExit the shell.\n");
}

#[test]
fn unknown_builtin_stops_and_does_nothing() {
    let mut c = ctx(&["a"]);
    assert!(!builtins::run("ls", &mut c));
    assert_eq!(c.builtin_out, "");
}

#[test]
fn dispatch_runs_builtins() {
    let mut c = ctx(&["a"]);
    assert!(builtins::run("echo", &mut c));
    assert_eq!(c.builtin_out, "a\n");
    let mut c = ctx(&[]);
    assert!(builtins::run("help", &mut c));
    assert!(c.builtin_out.starts_with("\necho [args..]"));
}

#[test]
fn pwd_prints_directory_or_error() {
    let mut c = ctx(&[]);
    assert!(pwd::run(&mut c));
    assert_eq!(c.builtin_out, "/work");
    let mut c = ctx(&[]);
    c.current_dir = Err("gone".to_string());
    pwd::run(&mut c);
    assert_eq!(c.builtin_out, "");
    assert_eq!(c.builtin_err, "gone");
}

#[test]
fn cd_requests_change() {
    let mut c = ctx(&["/tmp"]);
    assert!(cd::run(&mut c));
    assert!(matches!(&c.request, Request::ChangeDir(d) if d == "/tmp"));
    let mut c = ctx(&["~"]);
    cd::run(&mut c);
    assert!(matches!(&c.request, Request::ChangeDir(d) if d == "/home/me"));
    let mut c = ctx(&[]);
    cd::run(&mut c);
    assert!(matches!(c.request, Request::Nothing));
    assert_eq!(c.console_out, "cd: missing operand\n");
    let mut c = ctx(&["~"]);
    c.home = None;
    cd::run(&mut c);
    assert_eq!(c.console_out, "cd: missing operand\n");
    assert_eq!(cd::no_such_directory("/x"), "cd: /x: No such file or directory\n");
}

#[test]
fn type_describes_names() {
    let mut c = ctx(&["echo", "ls", "nope"]);
    c.located = vec![None, Some("/bin/ls".to_string()), None];
    assert!(rtype::run(&mut c));
    assert_eq!(c.builtin_out, "echo is a shell builtin\nls is /bin/ls\n");
    assert_eq!(c.builtin_err, "nope: not found\n");
    let mut c = ctx(&[]);
    rtype::run(&mut c);
    assert_eq!(c.builtin_err, "type: missing operand\n");
}

#[test]
fn history_lists_and_requests_files() {
    let mut h = History::new();
    h.add_command("one".to_string());
    h.add_command("two".to_string());
    let mut c = ctx(&[]);
    c.history = h;
    assert!(history::run(&mut c));
    assert_eq!(c.builtin_out, "\t1  one\n\t2  two\n");
    c.args = strings(&["1"]);
    c.builtin_out = String::new();
    history::run(&mut c);
    assert_eq!(c.builtin_out, "\t2  two\n");
    c.args = strings(&["+1"]);
    c.builtin_out = String::new();
    history::run(&mut c);
    assert_eq!(c.builtin_out, "\t2  two\n");

    c.args = strings(&["-w", "file"]);
    history::run(&mut c);
    assert!(matches!(&c.request, Request::WriteHistory { path, text, append: false }
        if path == "file" && text == "one\ntwo\n"));
    c.args = strings(&["-a", "file"]);
    history::run(&mut c);
    assert!(matches!(&c.request, Request::WriteHistory { path, text, append: true }
        if path == "file" && text == "one\ntwo\n"));
    c.args = strings(&["-a", "file"]);
    history::run(&mut c);
    assert!(matches!(&c.request, Request::WriteHistory { text, .. } if text.is_empty()));
    c.args = strings(&["-r", "in"]);
    history::run(&mut c);
    assert!(matches!(&c.request, Request::ReadHistory(p) if p == "in"));
    c.args = strings(&["-x"]);
    history::run(&mut c);
    assert_eq!(c.console_err, "invalid flag\n");
}

#[test]
fn help_texts() {
    let mut c = ctx(&[]);
    assert!(help::run(&mut c));
    assert_eq!(
        c.builtin_out,
        "\necho [args..]\ncd [dir]\nexit\nhistory [n] or history -arw [filename]\nhelp [name..]\npwd\ntype [name..]\n\n"
    );
    let mut c = ctx(&["exit"]);
    help::run(&mut c);
    assert_eq!(c.builtin_out, "\nexit\nExit the shell.\n\n");
    let mut c = ctx(&["help"]);
    help::run(&mut c);
    assert_eq!(c.builtin_out, "\nhelp [name..]\nDisplay information about builtin commands.\n\n");
    let mut c = ctx(&["ls"]);
    help::run(&mut c);
    assert_eq!(c.builtin_err, "help: no help topics match `ls`\n");
    assert_eq!(help::builtins(), strings(&["exit", "echo", "pwd", "type", "cd", "history", "help"]));
}

#[test]
fn help_describes_each_name() {
    let mut c = ctx(&["exit", "ls", "help"]);
    assert!(help::run(&mut c));
    assert_eq!(
        c.builtin_out,
        "\nexit\nExit the shell.\n\n\nhelp [name..]\nDisplay information about builtin commands.\n\n"
    );
    assert_eq!(c.builtin_err, "help: no help topics match `ls`\n");
}
