//! `history`: list the history, or read, write or append a history file.

use vstd::prelude::*;
use super::{BuiltinContext, Request, kept, wrote};
use crate::history_helper::{file_text, listing_range, listing_start};
use crate::text::{parse_usize, push_str, same_chars, spec_parse_usize, views};

verus! {

/// The help text of `history`.
pub open spec fn info_text() -> Seq<char> {
    "history [n]\nhistory -a|-r|-w [filename]\nDisplay command history, or append, read, or write history to a file.\n"@
}

/// The number of entries to list that the arguments ask for: all without
/// an argument.
pub open spec fn count_asked(args: Seq<Seq<char>>) -> Option<usize> {
    if args.len() == 0 {
        None
    } else {
        match spec_parse_usize(args[0]) {
            Some(n) => Some(n as usize),
            None => None,
        }
    }
}

/// What running `history` does to a context: without an argument or with a
/// number `n`, it lists all or the last `n` entries; with `-r`, `-w` or `-a`
/// and a file name it asks to read the file into the history, to write the
/// whole history to it, or to append the entries not yet appended (which
/// are then no longer new); any other first argument is an invalid flag.
pub open spec fn effect(a: BuiltinContext, b: BuiltinContext) -> bool {
    let args = views(a.args@);
    let es = a.history.entries();
    &&& kept(a, b)
    &&& if args.len() == 0 || spec_parse_usize(args[0]) is Some {
        &&& wrote(
            a,
            b,
            listing_range(es, listing_start(es.len(), count_asked(args)) as int, es.len() as int),
            seq![],
            seq![],
            seq![],
        )
        &&& b.history == a.history
        &&& b.request == a.request
    } else if args[0] == "-r"@ || args[0] == "-w"@ || args[0] == "-a"@ {
        &&& wrote(a, b, seq![], seq![], seq![], seq![])
        &&& if args.len() < 2 {
            b.history == a.history && b.request == a.request
        } else if args[0] == "-r"@ {
            &&& b.history == a.history
            &&& b.request matches Request::ReadHistory(p) && p@ == args[1]
        } else if args[0] == "-w"@ {
            &&& b.history == a.history
            &&& b.request matches Request::WriteHistory { path, text, append } && path@ == args[1]
                && text@ == file_text(es) && !append
        } else {
            &&& b.history.entries() == es
            &&& b.history.new_entries() == Seq::<Seq<char>>::empty()
            &&& b.request matches Request::WriteHistory { path, text, append } && path@ == args[1]
                && text@ == file_text(a.history.new_entries()) && append
        }
    } else {
        &&& wrote(a, b, seq![], seq![], seq![], "invalid flag\n"@)
        &&& b.history == a.history
        &&& b.request == a.request
    }
}

/// Lists the history, or asks to read, write or append a history file.
pub fn run(ctx: &mut BuiltinContext) -> (keep_going: bool)
    ensures
        keep_going,
        effect(*old(ctx), *final(ctx)),
{
    let ghost args = views(ctx.args@);
    let n: Option<usize> = if ctx.args.len() == 0 {
        None
    } else {
        parse_usize(ctx.args[0].as_str())
    };
    if ctx.args.len() == 0 || n.is_some() {
        let text = ctx.history.print(n);
        push_str(&mut ctx.builtin_out, text.as_str());
        assert(ctx.builtin_err@ =~= old(ctx).builtin_err@ + Seq::<char>::empty());
        assert(ctx.console_out@ =~= old(ctx).console_out@ + Seq::<char>::empty());
        assert(ctx.console_err@ =~= old(ctx).console_err@ + Seq::<char>::empty());
        return true;
    }
    assert(ctx.builtin_out@ =~= old(ctx).builtin_out@ + Seq::<char>::empty());
    assert(ctx.builtin_err@ =~= old(ctx).builtin_err@ + Seq::<char>::empty());
    assert(ctx.console_out@ =~= old(ctx).console_out@ + Seq::<char>::empty());
    let flag = ctx.args[0].clone();
    if same_chars(flag.as_str(), "-r") {
        if ctx.args.len() > 1 {
            ctx.request = Request::ReadHistory(ctx.args[1].clone());
        }
    } else if same_chars(flag.as_str(), "-w") {
        if ctx.args.len() > 1 {
            let text = ctx.history.write_all();
            ctx.request = Request::WriteHistory {
                path: ctx.args[1].clone(),
                text,
                append: false,
            };
        }
    } else if same_chars(flag.as_str(), "-a") {
        if ctx.args.len() > 1 {
            let text = ctx.history.append_new();
            ctx.request = Request::WriteHistory {
                path: ctx.args[1].clone(),
                text,
                append: true,
            };
        }
    } else {
        push_str(&mut ctx.console_err, "invalid flag\n");
        return true;
    }
    assert(ctx.console_err@ =~= old(ctx).console_err@ + Seq::<char>::empty());
    true
}

/// The help text of `history`.
pub fn info() -> (text: &'static str)
    ensures
        text@ == info_text(),
{
    "history [n]\nhistory -a|-r|-w [filename]\nDisplay command history, or append, read, or write history to a file.\n"
}

} // verus!
