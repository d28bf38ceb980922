//! The builtin commands. Each reads its arguments from a context and
//! writes what it prints into it; what needs the file system or the
//! process (changing directory, history files) it asks for in a request.

use vstd::prelude::*;
use crate::history_helper::History;
use crate::text::same_chars;

pub mod cd;
pub mod echo;
pub mod exit;
pub mod help;
pub mod history;
pub mod pwd;
pub mod rtype;

verus! {

/// Work a builtin leaves for the caller to carry out.
pub enum Request {
    /// Nothing to do.
    Nothing,
    /// Change the working directory to this path; on failure print
    /// `cd::no_such_directory` of it.
    ChangeDir(String),
    /// Read the history file at this path and add its lines to the history
    /// (`History::read_from_file`); nothing if it cannot be read.
    ReadHistory(String),
    /// Write this text to the history file at this path, appending to it or
    /// replacing it, creating it if needed.
    WriteHistory { path: String, text: String, append: bool },
}

/// What a builtin runs with: its arguments and what it may consult, and
/// what it prints.
pub struct BuiltinContext {
    /// The arguments after the command name.
    pub args: Vec<String>,
    /// What the builtin writes to its standard output.
    pub builtin_out: String,
    /// What the builtin writes to its standard error.
    pub builtin_err: String,
    /// What it prints on the shell's own standard output.
    pub console_out: String,
    /// What it prints on the shell's own standard error.
    pub console_err: String,
    /// The names of the builtins.
    pub builtin_set: Vec<String>,
    /// The command history.
    pub history: History,
    /// The home directory, if known.
    pub home: Option<String>,
    /// The working directory, or the error text of failing to get it.
    pub current_dir: Result<String, String>,
    /// For each argument, the first executable found for it on the search
    /// path, if any.
    pub located: Vec<Option<String>>,
    /// Work left for the caller.
    pub request: Request,
}

/// The inputs of a context are as they were.
pub open spec fn kept(a: BuiltinContext, b: BuiltinContext) -> bool {
    &&& b.args == a.args
    &&& b.builtin_set == a.builtin_set
    &&& b.home == a.home
    &&& b.current_dir == a.current_dir
    &&& b.located == a.located
}

/// From `a` to `b` exactly this was printed on the four streams.
pub open spec fn wrote(
    a: BuiltinContext,
    b: BuiltinContext,
    out: Seq<char>,
    err: Seq<char>,
    console_out: Seq<char>,
    console_err: Seq<char>,
) -> bool {
    &&& b.builtin_out@ == a.builtin_out@ + out
    &&& b.builtin_err@ == a.builtin_err@ + err
    &&& b.console_out@ == a.console_out@ + console_out
    &&& b.console_err@ == a.console_err@ + console_err
}

impl BuiltinContext {
    /// A context with nothing printed yet and nothing requested.
    pub fn new(
        args: Vec<String>,
        builtin_set: Vec<String>,
        history: History,
        home: Option<String>,
        current_dir: Result<String, String>,
        located: Vec<Option<String>>,
    ) -> (ctx: Self)
        ensures
            ctx.args == args,
            ctx.builtin_set == builtin_set,
            ctx.history == history,
            ctx.home == home,
            ctx.current_dir == current_dir,
            ctx.located == located,
            ctx.builtin_out@.len() == 0,
            ctx.builtin_err@.len() == 0,
            ctx.console_out@.len() == 0,
            ctx.console_err@.len() == 0,
            ctx.request is Nothing,
    {
        BuiltinContext {
            args,
            builtin_out: String::new(),
            builtin_err: String::new(),
            console_out: String::new(),
            console_err: String::new(),
            builtin_set,
            history,
            home,
            current_dir,
            located,
            request: Request::Nothing,
        }
    }
}

/// Runs builtin `cmd`; false when the shell is to exit, or when `cmd` is
/// no builtin (and then nothing happens).
pub fn run(cmd: &str, ctx: &mut BuiltinContext) -> (keep_going: bool)
    ensures
        cmd@ == "exit"@ ==> !keep_going && *final(ctx) == *old(ctx),
        cmd@ == "echo"@ ==> keep_going && echo::effect(*old(ctx), *final(ctx)),
        cmd@ == "pwd"@ ==> keep_going && pwd::effect(*old(ctx), *final(ctx)),
        cmd@ == "cd"@ ==> keep_going && cd::effect(*old(ctx), *final(ctx)),
        cmd@ == "type"@ ==> keep_going && rtype::effect(*old(ctx), *final(ctx)),
        cmd@ == "history"@ ==> keep_going && history::effect(*old(ctx), *final(ctx)),
        cmd@ == "help"@ ==> keep_going && help::effect(*old(ctx), *final(ctx)),
        !help::builtin_names().contains(cmd@) ==> !keep_going && *final(ctx) == *old(ctx),
{
    proof {
        reveal_strlit("exit");
        reveal_strlit("echo");
        reveal_strlit("pwd");
        reveal_strlit("cd");
        reveal_strlit("type");
        reveal_strlit("history");
        reveal_strlit("help");
        assert("exit"@.len() == 4 && "echo"@.len() == 4 && "type"@.len() == 4 && "help"@.len() == 4);
        assert("pwd"@.len() == 3 && "cd"@.len() == 2 && "history"@.len() == 7);
        assert("exit"@[1] != "echo"@[1]);
        assert("exit"@[0] != "type"@[0]);
        assert("echo"@[0] != "type"@[0]);
        assert("exit"@[0] != "help"@[0]);
        assert("echo"@[0] != "help"@[0]);
        assert("type"@[0] != "help"@[0]);
        assert(help::builtin_names().contains("exit"@)) by {
            assert(help::builtin_names()[0] == "exit"@);
        }
        assert(help::builtin_names().contains("echo"@)) by {
            assert(help::builtin_names()[1] == "echo"@);
        }
        assert(help::builtin_names().contains("pwd"@)) by {
            assert(help::builtin_names()[2] == "pwd"@);
        }
        assert(help::builtin_names().contains("type"@)) by {
            assert(help::builtin_names()[3] == "type"@);
        }
        assert(help::builtin_names().contains("cd"@)) by {
            assert(help::builtin_names()[4] == "cd"@);
        }
        assert(help::builtin_names().contains("history"@)) by {
            assert(help::builtin_names()[5] == "history"@);
        }
        assert(help::builtin_names().contains("help"@)) by {
            assert(help::builtin_names()[6] == "help"@);
        }
    }
    if same_chars(cmd, "exit") {
        exit::run(ctx)
    } else if same_chars(cmd, "echo") {
        echo::run(ctx)
    } else if same_chars(cmd, "pwd") {
        pwd::run(ctx)
    } else if same_chars(cmd, "cd") {
        cd::run(ctx)
    } else if same_chars(cmd, "type") {
        rtype::run(ctx)
    } else if same_chars(cmd, "history") {
        history::run(ctx)
    } else if same_chars(cmd, "help") {
        help::run(ctx)
    } else {
        false
    }
}

} // verus!
