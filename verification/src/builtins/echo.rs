//! `echo`: print the arguments.

use vstd::prelude::*;
use super::{BuiltinContext, kept, wrote};
use crate::text::{join, push_char, push_str, same_chars, spec_join, views};

verus! {

/// The help text of `echo`.
pub open spec fn info_text() -> Seq<char> {
    "echo [args..]\nPrint arguments to standard output.\n"@
}

/// What `echo` prints on its standard output and standard error: the
/// option `-z` is refused; otherwise the arguments separated by spaces and
/// a newline.
pub open spec fn output(args: Seq<Seq<char>>) -> (Seq<char>, Seq<char>) {
    if args.len() > 0 && args[0] == "-z"@ {
        (seq![], "echo: invalid option '-z'\n"@)
    } else {
        (spec_join(args, " "@) + seq!['\n'], seq![])
    }
}

/// What running `echo` does to a context.
pub open spec fn effect(a: BuiltinContext, b: BuiltinContext) -> bool {
    let (out, err) = output(views(a.args@));
    &&& kept(a, b)
    &&& wrote(a, b, out, err, seq![], seq![])
    &&& b.history == a.history
    &&& b.request == a.request
}

/// Prints the arguments, separated by spaces, and a newline.
pub fn run(ctx: &mut BuiltinContext) -> (keep_going: bool)
    ensures
        keep_going,
        effect(*old(ctx), *final(ctx)),
{
    if ctx.args.len() > 0 && same_chars(ctx.args[0].as_str(), "-z") {
        push_str(&mut ctx.builtin_err, "echo: invalid option '-z'\n");
        assert(ctx.console_out@ =~= old(ctx).console_out@ + Seq::<char>::empty());
        assert(ctx.console_err@ =~= old(ctx).console_err@ + Seq::<char>::empty());
        assert(ctx.builtin_out@ =~= old(ctx).builtin_out@ + Seq::<char>::empty());
        return true;
    }
    let mut text = join(&ctx.args, " ");
    push_char(&mut text, '\n');
    assert(text@ =~= spec_join(views(ctx.args@), " "@) + seq!['\n']);
    push_str(&mut ctx.builtin_out, text.as_str());
    assert(ctx.console_out@ =~= old(ctx).console_out@ + Seq::<char>::empty());
    assert(ctx.console_err@ =~= old(ctx).console_err@ + Seq::<char>::empty());
    assert(ctx.builtin_err@ =~= old(ctx).builtin_err@ + Seq::<char>::empty());
    true
}

/// The help text of `echo`.
pub fn info() -> (text: &'static str)
    ensures
        text@ == info_text(),
{
    "echo [args..]\nPrint arguments to standard output.\n"
}

} // verus!
