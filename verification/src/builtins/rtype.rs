//! `type`: tell whether each name is a builtin or an executable on the
//! search path.

use vstd::prelude::*;
use super::{BuiltinContext, kept, wrote};
use crate::command::opt_view;
use crate::text::{contains_str, push_char, push_str, views};

verus! {

/// The help text of `type`.
pub open spec fn info_text() -> Seq<char> {
    "type [name..]\nDisplay whether a command is a builtin or an external executable.\n"@
}

/// The executables found for the arguments, as plain values.
pub open spec fn located_views(l: Seq<Option<String>>) -> Seq<Option<Seq<char>>> {
    l.map_values(|o: Option<String>| opt_view(o))
}

/// The executable found for argument `i`, if any.
pub open spec fn found_at(l: Seq<Option<Seq<char>>>, i: int) -> Option<Seq<char>> {
    if 0 <= i < l.len() {
        l[i]
    } else {
        None
    }
}

/// What `type` prints about one name, on standard output and standard
/// error: a builtin is named as such; otherwise the executable found for
/// it, or that it is not found.
pub open spec fn describe(name: Seq<char>, builtins: Seq<Seq<char>>, found: Option<Seq<char>>) -> (
    Seq<char>,
    Seq<char>,
) {
    if builtins.contains(name) {
        (name + " is a shell builtin\n"@, seq![])
    } else {
        match found {
            Some(p) => (name + " is "@ + p + seq!['\n'], seq![]),
            None => (seq![], name + ": not found\n"@),
        }
    }
}

/// What `type` prints about its first `k` arguments.
pub open spec fn describe_all(
    args: Seq<Seq<char>>,
    builtins: Seq<Seq<char>>,
    located: Seq<Option<Seq<char>>>,
    k: int,
) -> (Seq<char>, Seq<char>)
    decreases k,
{
    if k <= 0 {
        (seq![], seq![])
    } else {
        let (out, err) = describe_all(args, builtins, located, k - 1);
        let (o, e) = describe(args[k - 1], builtins, found_at(located, k - 1));
        (out + o, err + e)
    }
}

/// Law: `type` names a builtin as a shell builtin, whatever executable was
/// found for it on the search path, and reports no error for it.
pub proof fn law_type_builtin_first(
    name: Seq<char>,
    builtins: Seq<Seq<char>>,
    found: Option<Seq<char>>,
)
    requires
        builtins.contains(name),
    ensures
        describe(name, builtins, found) == (name + " is a shell builtin\n"@, Seq::<char>::empty()),
{
}

/// Law: what `type` prints depends on the executables found only for the
/// arguments that are not builtins: two lookups that agree on those give
/// the same output.
pub proof fn law_type_ignores_lookup_of_builtins(
    args: Seq<Seq<char>>,
    builtins: Seq<Seq<char>>,
    l1: Seq<Option<Seq<char>>>,
    l2: Seq<Option<Seq<char>>>,
    k: int,
)
    requires
        forall|i: int|
            0 <= i < k && !builtins.contains(#[trigger] args[i]) ==> found_at(l1, i) == found_at(
                l2,
                i,
            ),
    ensures
        describe_all(args, builtins, l1, k) == describe_all(args, builtins, l2, k),
    decreases k,
{
    if k > 0 {
        law_type_ignores_lookup_of_builtins(args, builtins, l1, l2, k - 1);
        if builtins.contains(args[k - 1]) {
            law_type_builtin_first(args[k - 1], builtins, found_at(l1, k - 1));
            law_type_builtin_first(args[k - 1], builtins, found_at(l2, k - 1));
        }
    }
}

/// What running `type` does to a context.
pub open spec fn effect(a: BuiltinContext, b: BuiltinContext) -> bool {
    let args = views(a.args@);
    let (out, err) = describe_all(
        args,
        views(a.builtin_set@),
        located_views(a.located@),
        args.len() as int,
    );
    &&& kept(a, b)
    &&& if args.len() == 0 {
        wrote(a, b, seq![], "type: missing operand\n"@, seq![], seq![])
    } else {
        wrote(a, b, out, err, seq![], seq![])
    }
    &&& b.history == a.history
    &&& b.request == a.request
}

/// Describes each argument.
pub fn run(ctx: &mut BuiltinContext) -> (keep_going: bool)
    ensures
        keep_going,
        effect(*old(ctx), *final(ctx)),
{
    assert(ctx.console_out@ =~= old(ctx).console_out@ + Seq::<char>::empty());
    assert(ctx.console_err@ =~= old(ctx).console_err@ + Seq::<char>::empty());
    if ctx.args.len() == 0 {
        push_str(&mut ctx.builtin_err, "type: missing operand\n");
        assert(ctx.builtin_out@ =~= old(ctx).builtin_out@ + Seq::<char>::empty());
        return true;
    }
    let ghost args = views(ctx.args@);
    let ghost set = views(ctx.builtin_set@);
    let ghost loc = located_views(ctx.located@);
    assert(ctx.builtin_out@ =~= old(ctx).builtin_out@ + Seq::<char>::empty());
    assert(ctx.builtin_err@ =~= old(ctx).builtin_err@ + Seq::<char>::empty());
    let n = ctx.args.len();
    for i in 0..n
        invariant
            n == ctx.args.len(),
            args == views(ctx.args@),
            set == views(ctx.builtin_set@),
            loc == located_views(ctx.located@),
            kept(*old(ctx), *ctx),
            ctx.history == old(ctx).history,
            ctx.request == old(ctx).request,
            ctx.console_out@ == old(ctx).console_out@,
            ctx.console_err@ == old(ctx).console_err@,
            ctx.builtin_out@ == old(ctx).builtin_out@ + describe_all(args, set, loc, i as int).0,
            ctx.builtin_err@ == old(ctx).builtin_err@ + describe_all(args, set, loc, i as int).1,
    {
        let arg = ctx.args[i].clone();
        let ghost out0 = ctx.builtin_out@;
        let ghost err0 = ctx.builtin_err@;
        if contains_str(&ctx.builtin_set, arg.as_str()) {
            push_str(&mut ctx.builtin_out, arg.as_str());
            push_str(&mut ctx.builtin_out, " is a shell builtin\n");
            assert(ctx.builtin_out@ =~= out0 + (arg@ + " is a shell builtin\n"@));
            assert(ctx.builtin_err@ =~= err0 + Seq::<char>::empty());
        } else {
            let found: Option<String> = if i < ctx.located.len() {
                match &ctx.located[i] {
                    Some(p) => Some(p.clone()),
                    None => None,
                }
            } else {
                None
            };
            assert(opt_view(found) == found_at(loc, i as int));
            match found {
                Some(p) => {
                    push_str(&mut ctx.builtin_out, arg.as_str());
                    push_str(&mut ctx.builtin_out, " is ");
                    push_str(&mut ctx.builtin_out, p.as_str());
                    push_char(&mut ctx.builtin_out, '\n');
                    assert(ctx.builtin_out@ =~= out0 + (arg@ + " is "@ + p@ + seq!['\n']));
                    assert(ctx.builtin_err@ =~= err0 + Seq::<char>::empty());
                },
                None => {
                    push_str(&mut ctx.builtin_err, arg.as_str());
                    push_str(&mut ctx.builtin_err, ": not found\n");
                    assert(ctx.builtin_err@ =~= err0 + (arg@ + ": not found\n"@));
                    assert(ctx.builtin_out@ =~= out0 + Seq::<char>::empty());
                },
            }
        }
    }
    true
}

/// The help text of `type`.
pub fn info() -> (text: &'static str)
    ensures
        text@ == info_text(),
{
    "type [name..]\nDisplay whether a command is a builtin or an external executable.\n"
}

} // verus!
