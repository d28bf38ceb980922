//! `cd`: change the working directory.

use vstd::prelude::*;
use super::{BuiltinContext, Request, kept, wrote};
use crate::command::opt_view;
use crate::text::{owned, push_str, same_chars, views};

verus! {

/// The help text of `cd`.
pub open spec fn info_text() -> Seq<char> {
    "cd [dir]\nChange the current working directory.\n"@
}

/// The directory `cd` changes to: its first argument, or the home
/// directory for `~`; none without an argument (or without a known home).
pub open spec fn target(args: Seq<Seq<char>>, home: Option<Seq<char>>) -> Option<Seq<char>> {
    if args.len() > 0 {
        if args[0] == "~"@ {
            home
        } else {
            Some(args[0])
        }
    } else {
        None
    }
}

/// What running `cd` does to a context: it asks for the change of
/// directory, or prints that the operand is missing.
pub open spec fn effect(a: BuiltinContext, b: BuiltinContext) -> bool {
    &&& kept(a, b)
    &&& b.history == a.history
    &&& match target(views(a.args@), opt_view(a.home)) {
        Some(p) => {
            &&& wrote(a, b, seq![], seq![], seq![], seq![])
            &&& b.request matches Request::ChangeDir(d) && d@ == p
        },
        None => {
            &&& wrote(a, b, seq![], seq![], "cd: missing operand\n"@, seq![])
            &&& b.request == a.request
        },
    }
}

/// Asks to change to the directory given (or home for `~`).
pub fn run(ctx: &mut BuiltinContext) -> (keep_going: bool)
    ensures
        keep_going,
        effect(*old(ctx), *final(ctx)),
{
    let dir: Option<String> = if ctx.args.len() > 0 {
        if same_chars(ctx.args[0].as_str(), "~") {
            match &ctx.home {
                Some(h) => Some(h.clone()),
                None => None,
            }
        } else {
            Some(ctx.args[0].clone())
        }
    } else {
        None
    };
    match dir {
        Some(path) => {
            ctx.request = Request::ChangeDir(path);
            assert(ctx.console_out@ =~= old(ctx).console_out@ + Seq::<char>::empty());
        },
        None => {
            push_str(&mut ctx.console_out, "cd: missing operand\n");
        },
    }
    assert(ctx.builtin_out@ =~= old(ctx).builtin_out@ + Seq::<char>::empty());
    assert(ctx.builtin_err@ =~= old(ctx).builtin_err@ + Seq::<char>::empty());
    assert(ctx.console_err@ =~= old(ctx).console_err@ + Seq::<char>::empty());
    true
}

/// What `cd` prints when it cannot change to `path`.
pub fn no_such_directory(path: &str) -> (msg: String)
    ensures
        msg@ == "cd: "@ + path@ + ": No such file or directory\n"@,
{
    let mut msg = owned("cd: ");
    push_str(&mut msg, path);
    push_str(&mut msg, ": No such file or directory\n");
    msg
}

/// The help text of `cd`.
pub fn info() -> (text: &'static str)
    ensures
        text@ == info_text(),
{
    "cd [dir]\nChange the current working directory.\n"
}

} // verus!
