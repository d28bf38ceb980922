//! `exit`: leave the shell.

use vstd::prelude::*;
use super::BuiltinContext;

verus! {

/// The help text of `exit`.
pub open spec fn info_text() -> Seq<char> {
    "exit\nExit the shell.\n"@
}

/// Asks the shell to exit: returns false and changes nothing.
pub fn run(ctx: &mut BuiltinContext) -> (keep_going: bool)
    ensures
        !keep_going,
        *final(ctx) == *old(ctx),
{
    false
}

/// The help text of `exit`.
pub fn info() -> (text: &'static str)
    ensures
        text@ == info_text(),
{
    "exit\nExit the shell.\n"
}

} // verus!
