//! `pwd`: print the working directory.

use vstd::prelude::*;
use super::{BuiltinContext, kept, wrote};
use crate::text::push_str;

verus! {

/// The help text of `pwd`.
pub open spec fn info_text() -> Seq<char> {
    "pwd\nPrint the current working directory.\n"@
}

/// What running `pwd` does to a context: the working directory goes to
/// standard output, as it is (no newline follows), or the error text of
/// failing to get it to standard error.
pub open spec fn effect(a: BuiltinContext, b: BuiltinContext) -> bool {
    &&& kept(a, b)
    &&& match a.current_dir {
        Ok(p) => wrote(a, b, p@, seq![], seq![], seq![]),
        Err(e) => wrote(a, b, seq![], e@, seq![], seq![]),
    }
    &&& b.history == a.history
    &&& b.request == a.request
}

/// Prints the working directory.
pub fn run(ctx: &mut BuiltinContext) -> (keep_going: bool)
    ensures
        keep_going,
        effect(*old(ctx), *final(ctx)),
{
    match &ctx.current_dir {
        Ok(p) => {
            let p = p.clone();
            push_str(&mut ctx.builtin_out, p.as_str());
            assert(ctx.builtin_err@ =~= old(ctx).builtin_err@ + Seq::<char>::empty());
        },
        Err(e) => {
            let e = e.clone();
            push_str(&mut ctx.builtin_err, e.as_str());
            assert(ctx.builtin_out@ =~= old(ctx).builtin_out@ + Seq::<char>::empty());
        },
    }
    assert(ctx.console_out@ =~= old(ctx).console_out@ + Seq::<char>::empty());
    assert(ctx.console_err@ =~= old(ctx).console_err@ + Seq::<char>::empty());
    true
}

/// The help text of `pwd`.
pub fn info() -> (text: &'static str)
    ensures
        text@ == info_text(),
{
    "pwd\nPrint the current working directory.\n"
}

} // verus!
