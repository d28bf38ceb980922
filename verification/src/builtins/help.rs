//! `help`: describe the builtins.

use vstd::prelude::*;
use super::{BuiltinContext, kept, wrote};
use crate::text::{contains_str, is_prefix, owned, push_char, push_str, same_chars, views};

verus! {

/// The names of the builtin commands.
pub open spec fn builtin_names() -> Seq<Seq<char>> {
    seq!["exit"@, "echo"@, "pwd"@, "type"@, "cd"@, "history"@, "help"@]
}

/// The names of the builtin commands, each once.
pub fn builtins() -> (names: Vec<String>)
    ensures
        views(names@) == builtin_names(),
        builtin_names().no_duplicates(),
{
    proof {
        reveal_strlit("exit");
        reveal_strlit("echo");
        reveal_strlit("pwd");
        reveal_strlit("type");
        reveal_strlit("cd");
        reveal_strlit("history");
        reveal_strlit("help");
        let b = builtin_names();
        assert forall|i: int, j: int| 0 <= i < b.len() && 0 <= j < b.len() && i != j implies b[i]
            != b[j] by {
            assert(b[i].len() != b[j].len() || b[i][0] != b[j][0] || b[i][1] != b[j][1]
                || b[i][2] != b[j][2]);
        }
    }
    let names = vec![
        owned("exit"),
        owned("echo"),
        owned("pwd"),
        owned("type"),
        owned("cd"),
        owned("history"),
        owned("help"),
    ];
    assert(views(names@) =~= builtin_names());
    names
}

/// The overview printed by `help` without arguments.
pub open spec fn help_text() -> Seq<char> {
    "\necho [args..]\ncd [dir]\nexit\nhistory [n] or history -arw [filename]\nhelp [name..]\npwd\ntype [name..]\n\n"@
}

/// The help text of `help`.
pub open spec fn info_text() -> Seq<char> {
    "help [name..]\nDisplay information about builtin commands.\n"@
}

/// The help text of the builtin `name`.
pub open spec fn topic_info(name: Seq<char>) -> Seq<char> {
    if name == "exit"@ {
        super::exit::info_text()
    } else if name == "echo"@ {
        super::echo::info_text()
    } else if name == "pwd"@ {
        super::pwd::info_text()
    } else if name == "type"@ {
        super::rtype::info_text()
    } else if name == "cd"@ {
        super::cd::info_text()
    } else if name == "history"@ {
        super::history::info_text()
    } else {
        info_text()
    }
}

/// Law: the help text of each builtin begins with its own name, followed by
/// a space or a line end: `help n` describes `n` and no other builtin.
pub proof fn law_help_topic_names_itself(n: Seq<char>)
    requires
        builtin_names().contains(n),
    ensures
        is_prefix(n, topic_info(n)),
        topic_info(n).len() > n.len(),
        topic_info(n)[n.len() as int] == ' ' || topic_info(n)[n.len() as int] == '\n',
{
    reveal_strlit("exit");
    reveal_strlit("echo");
    reveal_strlit("pwd");
    reveal_strlit("type");
    reveal_strlit("cd");
    reveal_strlit("history");
    reveal_strlit("help");
    reveal_strlit("exit\nExit the shell.\n");
    reveal_strlit("echo [args..]\nPrint arguments to standard output.\n");
    reveal_strlit("pwd\nPrint the current working directory.\n");
    reveal_strlit("type [name..]\nDisplay whether a command is a builtin or an external executable.\n");
    reveal_strlit("cd [dir]\nChange the current working directory.\n");
    reveal_strlit("history [n]\nhistory -a|-r|-w [filename]\nDisplay command history, or append, read, or write history to a file.\n");
    reveal_strlit("help [name..]\nDisplay information about builtin commands.\n");
    let b = builtin_names();
    let i = choose|i: int| 0 <= i < b.len() && b[i] == n;
    let t = topic_info(n);
    assert(t.take(n.len() as int) =~= n);
}

/// What `help` prints about one name, on standard output and standard
/// error: for a builtin, its help text between empty lines; for another
/// name, that no topic matches.
pub open spec fn describe(name: Seq<char>) -> (Seq<char>, Seq<char>) {
    if !builtin_names().contains(name) {
        (seq![], "help: no help topics match `"@ + name + "`\n"@)
    } else {
        (seq!['\n'] + topic_info(name) + seq!['\n'], seq![])
    }
}

/// What `help` prints about its first `k` arguments.
pub open spec fn describe_all(args: Seq<Seq<char>>, k: int) -> (Seq<char>, Seq<char>)
    decreases k,
{
    if k <= 0 {
        (seq![], seq![])
    } else {
        let (out, err) = describe_all(args, k - 1);
        let (o, e) = describe(args[k - 1]);
        (out + o, err + e)
    }
}

/// What `help` prints on its standard output and standard error: the
/// overview without arguments, else a description of each name given, in
/// order.
pub open spec fn output(args: Seq<Seq<char>>) -> (Seq<char>, Seq<char>) {
    if args.len() == 0 {
        (help_text(), seq![])
    } else {
        describe_all(args, args.len() as int)
    }
}

/// What running `help` does to a context.
pub open spec fn effect(a: BuiltinContext, b: BuiltinContext) -> bool {
    let (out, err) = output(views(a.args@));
    &&& kept(a, b)
    &&& wrote(a, b, out, err, seq![], seq![])
    &&& b.history == a.history
    &&& b.request == a.request
}

/// Prints help on the builtins: an overview, or each builtin named.
pub fn run(ctx: &mut BuiltinContext) -> (keep_going: bool)
    ensures
        keep_going,
        effect(*old(ctx), *final(ctx)),
{
    assert(ctx.console_out@ =~= old(ctx).console_out@ + Seq::<char>::empty());
    assert(ctx.console_err@ =~= old(ctx).console_err@ + Seq::<char>::empty());
    if ctx.args.len() == 0 {
        push_str(
            &mut ctx.builtin_out,
            "\necho [args..]\ncd [dir]\nexit\nhistory [n] or history -arw [filename]\nhelp [name..]\npwd\ntype [name..]\n\n",
        );
        assert(ctx.builtin_err@ =~= old(ctx).builtin_err@ + Seq::<char>::empty());
        return true;
    }
    let names = builtins();
    let ghost args = views(ctx.args@);
    assert(ctx.builtin_out@ =~= old(ctx).builtin_out@ + Seq::<char>::empty());
    assert(ctx.builtin_err@ =~= old(ctx).builtin_err@ + Seq::<char>::empty());
    let n = ctx.args.len();
    for i in 0..n
        invariant
            n == ctx.args.len(),
            args == views(ctx.args@),
            views(names@) == builtin_names(),
            kept(*old(ctx), *ctx),
            ctx.history == old(ctx).history,
            ctx.request == old(ctx).request,
            ctx.console_out@ == old(ctx).console_out@,
            ctx.console_err@ == old(ctx).console_err@,
            ctx.builtin_out@ == old(ctx).builtin_out@ + describe_all(args, i as int).0,
            ctx.builtin_err@ == old(ctx).builtin_err@ + describe_all(args, i as int).1,
    {
        let name = ctx.args[i].clone();
        let ghost out0 = ctx.builtin_out@;
        let ghost err0 = ctx.builtin_err@;
        if !contains_str(&names, name.as_str()) {
            push_str(&mut ctx.builtin_err, "help: no help topics match `");
            push_str(&mut ctx.builtin_err, name.as_str());
            push_str(&mut ctx.builtin_err, "`\n");
            assert(ctx.builtin_out@ =~= out0 + Seq::<char>::empty());
            assert(ctx.builtin_err@ =~= err0 + ("help: no help topics match `"@ + name@ + "`\n"@));
        } else {
            let info = if same_chars(name.as_str(), "exit") {
                super::exit::info()
            } else if same_chars(name.as_str(), "echo") {
                super::echo::info()
            } else if same_chars(name.as_str(), "pwd") {
                super::pwd::info()
            } else if same_chars(name.as_str(), "type") {
                super::rtype::info()
            } else if same_chars(name.as_str(), "cd") {
                super::cd::info()
            } else if same_chars(name.as_str(), "history") {
                super::history::info()
            } else {
                info()
            };
            push_char(&mut ctx.builtin_out, '\n');
            push_str(&mut ctx.builtin_out, info);
            push_char(&mut ctx.builtin_out, '\n');
            assert(ctx.builtin_out@ =~= out0 + (seq!['\n'] + topic_info(name@) + seq!['\n']));
            assert(ctx.builtin_err@ =~= err0 + Seq::<char>::empty());
        }
    }
    true
}

/// The help text of `help`.
pub fn info() -> (text: &'static str)
    ensures
        text@ == info_text(),
{
    "help [name..]\nDisplay information about builtin commands.\n"
}

} // verus!
