//! From a line of input to the commands to run: each pipeline stage's
//! command name, its arguments, and where its output streams go.

use vstd::prelude::*;
use crate::text::{clone_from, contains_str, same_chars, views};
use crate::tokenizer::{spec_split, spec_tokenize, split_commands, stage_views, tokenize_input};

verus! {

/// `>` or `1>`: standard output to a file, truncated.
pub open spec fn is_stdout_truncate(t: Seq<char>) -> bool {
    t == ">"@ || t == "1>"@
}

/// `>>` or `1>>`: standard output to a file, appended.
pub open spec fn is_stdout_append(t: Seq<char>) -> bool {
    t == ">>"@ || t == "1>>"@
}

/// `2>`: standard error to a file, truncated.
pub open spec fn is_stderr_truncate(t: Seq<char>) -> bool {
    t == "2>"@
}

/// `2>>`: standard error to a file, appended.
pub open spec fn is_stderr_append(t: Seq<char>) -> bool {
    t == "2>>"@
}

/// A redirection operator.
pub open spec fn is_redirect(t: Seq<char>) -> bool {
    is_stdout_truncate(t) || is_stdout_append(t) || is_stderr_truncate(t) || is_stderr_append(t)
}

/// Where the output streams of a command go.
pub struct Redirections {
    /// The file standard output goes to, if any.
    pub out_target: Option<Seq<char>>,
    /// Whether standard output is appended to it.
    pub out_append: bool,
    /// The file standard error goes to, if any.
    pub err_target: Option<Seq<char>>,
    /// Whether standard error is appended to it.
    pub err_append: bool,
}

/// No redirection.
pub open spec fn no_redirections() -> Redirections {
    Redirections { out_target: None, out_append: false, err_target: None, err_append: false }
}

/// The kind of a redirection operator: 1 for `>` or `1>`, 2 for `>>` or
/// `1>>`, 3 for `2>`, 4 for `2>>`; 0 for a word that is none.
pub open spec fn redirect_kind_of(t: Seq<char>) -> nat {
    if is_stdout_truncate(t) {
        1
    } else if is_stdout_append(t) {
        2
    } else if is_stderr_truncate(t) {
        3
    } else if is_stderr_append(t) {
        4
    } else {
        0
    }
}

/// Where reading the words of a stage stands: the command words so far,
/// the redirections so far, and the kind of an operator still waiting for
/// its file (0 for none).
pub struct WordScan {
    pub words: Seq<Seq<char>>,
    pub redirections: Redirections,
    pub pending: nat,
}

/// Reading no word yet.
pub open spec fn scan_init() -> WordScan {
    WordScan { words: seq![], redirections: no_redirections(), pending: 0 }
}

/// What reading one word does. A word right after an operator is that
/// operator's file, whatever the word is; an operator also sends its own
/// stream back to the terminal (with its append mode) and waits for the
/// next word as its file. Any other word is a command word.
pub open spec fn scan_step(st: WordScan, t: Seq<char>) -> WordScan {
    let k = redirect_kind_of(t);
    let r0 = st.redirections;
    let r = if st.pending == 1 || st.pending == 2 {
        Redirections { out_target: Some(t), ..r0 }
    } else if st.pending == 3 || st.pending == 4 {
        Redirections { err_target: Some(t), ..r0 }
    } else {
        r0
    };
    if k == 1 || k == 2 {
        WordScan {
            redirections: Redirections { out_target: None, out_append: k == 2, ..r },
            pending: k,
            ..st
        }
    } else if k == 3 || k == 4 {
        WordScan {
            redirections: Redirections { err_target: None, err_append: k == 4, ..r },
            pending: k,
            ..st
        }
    } else if st.pending != 0 {
        WordScan { redirections: r, pending: 0, ..st }
    } else {
        WordScan { words: st.words.push(t), ..st }
    }
}

/// The state after reading `toks`, starting from `st`.
pub open spec fn scan_from(st: WordScan, toks: Seq<Seq<char>>) -> WordScan
    decreases toks.len(),
{
    if toks.len() == 0 {
        st
    } else {
        scan_step(scan_from(st, toks.drop_last()), toks.last())
    }
}

/// The command words and redirections of the words of a stage.
pub open spec fn scan_words(toks: Seq<Seq<char>>) -> WordScan {
    scan_from(scan_init(), toks)
}

/// Some word of `toks` is a redirection operator.
pub open spec fn has_redirect(toks: Seq<Seq<char>>) -> bool
    decreases toks.len(),
{
    toks.len() > 0 && (is_redirect(toks.last()) || has_redirect(toks.drop_last()))
}

/// The only redirection operator of `toks` is its last word.
pub open spec fn lone_trailing_operator(toks: Seq<Seq<char>>) -> bool {
    toks.len() > 0 && is_redirect(toks.last()) && !has_redirect(toks.drop_last())
}

/// An operator for standard output (`stderr` false) or standard error
/// (`stderr` true).
pub open spec fn is_stream_op(t: Seq<char>, stderr: bool) -> bool {
    if stderr {
        redirect_kind_of(t) == 3 || redirect_kind_of(t) == 4
    } else {
        redirect_kind_of(t) == 1 || redirect_kind_of(t) == 2
    }
}

/// The place of the last operator for a stream in `toks`, if any.
pub open spec fn last_stream_op(toks: Seq<Seq<char>>, stderr: bool) -> Option<int>
    decreases toks.len(),
{
    if toks.len() == 0 {
        None
    } else if is_stream_op(toks.last(), stderr) {
        Some(toks.len() - 1)
    } else {
        last_stream_op(toks.drop_last(), stderr)
    }
}

/// The file a stream goes to: the word after its last operator, or none
/// when it has no operator or nothing follows the last one.
pub open spec fn stream_target(toks: Seq<Seq<char>>, stderr: bool) -> Option<Seq<char>> {
    match last_stream_op(toks, stderr) {
        Some(j) => if j + 1 < toks.len() {
            Some(toks[j + 1])
        } else {
            None
        },
        None => None,
    }
}

/// Whether a stream is appended to: its last operator is `>>`, `1>>` or
/// `2>>`.
pub open spec fn stream_append(toks: Seq<Seq<char>>, stderr: bool) -> bool {
    match last_stream_op(toks, stderr) {
        Some(j) => redirect_kind_of(toks[j]) == 2 || redirect_kind_of(toks[j]) == 4,
        None => false,
    }
}

/// A command to run, as plain values.
pub struct CommandPlan {
    pub cmd: Seq<char>,
    pub args: Seq<Seq<char>>,
    pub redirections: Redirections,
    pub isbuiltin: bool,
}

/// The command that the words of one pipeline stage describe: the words
/// that are neither redirection operators nor their files, the first of
/// them naming the command (empty when there is none) and the others its
/// arguments, and the redirections the operators ask for (none at all when
/// the only operator is the last word).
pub open spec fn spec_command(toks: Seq<Seq<char>>, builtins: Seq<Seq<char>>) -> CommandPlan {
    let sc = scan_words(toks);
    let words = sc.words;
    let cmd = if words.len() > 0 {
        words[0]
    } else {
        seq![]
    };
    CommandPlan {
        cmd,
        args: if words.len() > 0 {
            words.drop_first()
        } else {
            seq![]
        },
        redirections: if lone_trailing_operator(toks) {
            no_redirections()
        } else {
            sc.redirections
        },
        isbuiltin: builtins.contains(cmd),
    }
}

/// The characters of an optional string.
pub open spec fn opt_view(o: Option<String>) -> Option<Seq<char>> {
    match o {
        Some(s) => Some(s@),
        None => None,
    }
}

/// A command to run: its name, its arguments, the files its output
/// streams are redirected to, and whether it is a builtin.
pub struct CommandSpec {
    pub cmd: String,
    pub args: Vec<String>,
    pub stdout_target: Option<String>,
    pub stdout_append: bool,
    pub stderr_target: Option<String>,
    pub stderr_append: bool,
    pub isbuiltin: bool,
}

impl View for CommandSpec {
    type V = CommandPlan;

    open spec fn view(&self) -> CommandPlan {
        CommandPlan {
            cmd: self.cmd@,
            args: views(self.args@),
            redirections: Redirections {
                out_target: opt_view(self.stdout_target),
                out_append: self.stdout_append,
                err_target: opt_view(self.stderr_target),
                err_append: self.stderr_append,
            },
            isbuiltin: self.isbuiltin,
        }
    }
}

/// What kind of redirection operator a word is: 1 for `>` or `1>`, 2 for
/// `>>` or `1>>`, 3 for `2>`, 4 for `2>>`, 0 for none.
fn redirect_kind(t: &str) -> (k: u8)
    ensures
        k == 1 <==> is_stdout_truncate(t@),
        k == 2 <==> (!is_stdout_truncate(t@) && is_stdout_append(t@)),
        k == 3 <==> (!is_stdout_truncate(t@) && !is_stdout_append(t@) && is_stderr_truncate(t@)),
        k == 4 <==> (!is_stdout_truncate(t@) && !is_stdout_append(t@) && !is_stderr_truncate(t@)
            && is_stderr_append(t@)),
        k == 0 <==> !is_redirect(t@),
{
    if same_chars(t, ">") || same_chars(t, "1>") {
        1
    } else if same_chars(t, ">>") || same_chars(t, "1>>") {
        2
    } else if same_chars(t, "2>") {
        3
    } else if same_chars(t, "2>>") {
        4
    } else {
        0
    }
}

/// The command that the words of one pipeline stage describe; `builtin`
/// lists the builtin command names.
pub fn command_specfn(command_tokens: Vec<String>, builtin: &Vec<String>) -> (spec: CommandSpec)
    ensures
        spec@ == spec_command(views(command_tokens@), views(builtin@)),
{
    let ghost toks = views(command_tokens@);
    let mut words: Vec<String> = Vec::new();
    let mut stdout_target: Option<String> = None;
    let mut stderr_target: Option<String> = None;
    let mut out_append = false;
    let mut err_append = false;
    let mut pending: u8 = 0;
    let mut seen = false;
    let mut lone = false;
    assert(toks.take(0) =~= Seq::<Seq<char>>::empty());
    assert(views(words@) =~= Seq::<Seq<char>>::empty());
    for i in 0..command_tokens.len()
        invariant
            toks == views(command_tokens@),
            scan_from(scan_init(), toks.take(i as int)) == (WordScan {
                words: views(words@),
                redirections: Redirections {
                    out_target: opt_view(stdout_target),
                    out_append,
                    err_target: opt_view(stderr_target),
                    err_append,
                },
                pending: pending as nat,
            }),
            seen == has_redirect(toks.take(i as int)),
            lone == lone_trailing_operator(toks.take(i as int)),
    {
        assert(toks.take(i + 1).drop_last() =~= toks.take(i as int));
        assert(toks.take(i + 1).last() == command_tokens@[i as int]@);
        let kind = redirect_kind(command_tokens[i].as_str());
        lone = kind != 0 && !seen;
        seen = seen || kind != 0;
        if pending == 1 || pending == 2 {
            stdout_target = Some(command_tokens[i].clone());
        } else if pending == 3 || pending == 4 {
            stderr_target = Some(command_tokens[i].clone());
        }
        if kind == 1 || kind == 2 {
            stdout_target = None;
            out_append = kind == 2;
            pending = kind;
        } else if kind == 3 || kind == 4 {
            stderr_target = None;
            err_append = kind == 4;
            pending = kind;
        } else if pending != 0 {
            pending = 0;
        } else {
            let ghost before = views(words@);
            words.push(command_tokens[i].clone());
            assert(views(words@) =~= before.push(command_tokens@[i as int]@));
        }
    }
    assert(toks.take(command_tokens.len() as int) =~= toks);
    let cmd: String = if words.len() > 0 {
        words[0].clone()
    } else {
        String::new()
    };
    let args = if words.len() > 0 {
        clone_from(&words, 1)
    } else {
        Vec::new()
    };
    assert(views(args@) =~= spec_command(toks, views(builtin@)).args);
    let isbuiltin = contains_str(builtin, cmd.as_str());
    if lone {
        // The only operator is the last word: nothing is redirected.
        proof {
            lemma_lone_operator_targets(toks);
        }
        out_append = false;
        err_append = false;
    }
    CommandSpec {
        cmd,
        args,
        stdout_target,
        stdout_append: out_append,
        stderr_target,
        stderr_append: err_append,
        isbuiltin,
    }
}

proof fn lemma_scan_without_operator(toks: Seq<Seq<char>>)
    requires
        !has_redirect(toks),
    ensures
        scan_words(toks).redirections == no_redirections(),
        scan_words(toks).pending == 0,
    decreases toks.len(),
{
    if toks.len() > 0 {
        lemma_scan_without_operator(toks.drop_last());
    }
}

proof fn lemma_lone_operator_targets(toks: Seq<Seq<char>>)
    requires
        lone_trailing_operator(toks),
    ensures
        scan_words(toks).redirections.out_target is None,
        scan_words(toks).redirections.err_target is None,
{
    lemma_scan_without_operator(toks.drop_last());
}

proof fn lemma_scan_concat(st: WordScan, a: Seq<Seq<char>>, b: Seq<Seq<char>>)
    ensures
        scan_from(st, a + b) == scan_from(scan_from(st, a), b),
    decreases b.len(),
{
    if b.len() == 0 {
        assert(a + b =~= a);
    } else {
        lemma_scan_concat(st, a, b.drop_last());
        assert((a + b).drop_last() =~= a + b.drop_last());
        assert((a + b).last() == b.last());
    }
}

proof fn lemma_scan_plain(st: WordScan, toks: Seq<Seq<char>>)
    requires
        st.pending == 0,
        forall|i: int| 0 <= i < toks.len() ==> !is_redirect(#[trigger] toks[i]),
    ensures
        scan_from(st, toks) == (WordScan { words: st.words + toks, ..st }),
    decreases toks.len(),
{
    if toks.len() == 0 {
        assert(st.words + toks =~= st.words);
    } else {
        let p = toks.drop_last();
        assert(forall|i: int| 0 <= i < p.len() ==> p[i] == toks[i]);
        lemma_scan_plain(st, p);
        assert(!is_redirect(toks[toks.len() - 1]));
        assert((st.words + p).push(toks.last()) =~= st.words + toks);
    }
}

proof fn lemma_scan_words_no_redirect(st: WordScan, toks: Seq<Seq<char>>)
    requires
        forall|i: int| 0 <= i < st.words.len() ==> !is_redirect(#[trigger] st.words[i]),
    ensures
        forall|i: int|
            0 <= i < scan_from(st, toks).words.len() ==> !is_redirect(
                #[trigger] scan_from(st, toks).words[i],
            ),
    decreases toks.len(),
{
    if toks.len() > 0 {
        lemma_scan_words_no_redirect(st, toks.drop_last());
    }
}

/// Law: neither the command name nor any argument is a redirection
/// operator.
pub proof fn law_args_hold_no_redirect(toks: Seq<Seq<char>>, builtins: Seq<Seq<char>>)
    ensures
        scan_words(toks).words.len() > 0 ==> !is_redirect(spec_command(toks, builtins).cmd),
        forall|i: int|
            0 <= i < spec_command(toks, builtins).args.len() ==> !is_redirect(
                #[trigger] spec_command(toks, builtins).args[i],
            ),
{
    lemma_scan_words_no_redirect(scan_init(), toks);
    let w = scan_words(toks).words;
    if w.len() > 0 {
        assert(!is_redirect(w[0]));
        assert(forall|i: int| 0 <= i < w.len() - 1 ==> w.drop_first()[i] == w[i + 1]);
    }
}

/// Law: a stage without any redirection operator runs its first word with
/// the others as arguments, and redirects nothing.
pub proof fn law_no_operator_no_redirection(toks: Seq<Seq<char>>, builtins: Seq<Seq<char>>)
    requires
        toks.len() > 0,
        forall|i: int| 0 <= i < toks.len() ==> !is_redirect(#[trigger] toks[i]),
    ensures
        spec_command(toks, builtins).cmd == toks[0],
        spec_command(toks, builtins).args == toks.drop_first(),
        spec_command(toks, builtins).redirections == no_redirections(),
{
    lemma_scan_plain(scan_init(), toks);
    assert(Seq::<Seq<char>>::empty() + toks =~= toks);
}

/// Law: a redirection operator and its file leave the words; the words
/// before and after them stay, in order, and the operator's stream goes to
/// that file.
pub proof fn law_redirection_keeps_other_words(
    pre: Seq<Seq<char>>,
    op: Seq<char>,
    file: Seq<char>,
    post: Seq<Seq<char>>,
)
    requires
        is_redirect(op),
        !is_redirect(file),
        forall|i: int| 0 <= i < pre.len() ==> !is_redirect(#[trigger] pre[i]),
        forall|i: int| 0 <= i < post.len() ==> !is_redirect(#[trigger] post[i]),
    ensures
        scan_words(pre + seq![op, file] + post).words == pre + post,
        redirect_kind_of(op) <= 2 ==> scan_words(pre + seq![op, file] + post).redirections.out_target
            == Some(file),
        redirect_kind_of(op) > 2 ==> scan_words(pre + seq![op, file] + post).redirections.err_target
            == Some(file),
{
    let two = seq![op, file];
    lemma_scan_concat(scan_init(), pre + two, post);
    lemma_scan_concat(scan_init(), pre, two);
    lemma_scan_plain(scan_init(), pre);
    let s1 = scan_from(scan_init(), pre);
    assert(Seq::<Seq<char>>::empty() + pre =~= pre);
    assert(two.drop_last() =~= seq![op]);
    assert(seq![op].drop_last() =~= Seq::<Seq<char>>::empty());
    assert(scan_from(s1, Seq::<Seq<char>>::empty()) == s1);
    assert(seq![op].last() == op);
    assert(two.last() == file);
    assert(scan_from(s1, seq![op]) == scan_step(s1, op));
    let s2 = scan_from(s1, two);
    assert(s2 == scan_step(scan_step(s1, op), file));
    lemma_scan_plain(s2, post);
}

proof fn lemma_last_stream_op_bound(toks: Seq<Seq<char>>, stderr: bool)
    ensures
        last_stream_op(toks, stderr) matches Some(j) ==> 0 <= j < toks.len() && is_stream_op(
            toks[j],
            stderr,
        ),
    decreases toks.len(),
{
    if toks.len() > 0 {
        lemma_last_stream_op_bound(toks.drop_last(), stderr);
    }
}

proof fn lemma_scan_streams(toks: Seq<Seq<char>>)
    ensures
        scan_words(toks).pending == (if toks.len() == 0 {
            0
        } else {
            redirect_kind_of(toks.last())
        }),
        scan_words(toks).redirections.out_target == stream_target(toks, false),
        scan_words(toks).redirections.out_append == stream_append(toks, false),
        scan_words(toks).redirections.err_target == stream_target(toks, true),
        scan_words(toks).redirections.err_append == stream_append(toks, true),
    decreases toks.len(),
{
    if toks.len() > 0 {
        let p = toks.drop_last();
        lemma_scan_streams(p);
        lemma_last_stream_op_bound(p, false);
        lemma_last_stream_op_bound(p, true);
        assert(forall|i: int| 0 <= i < p.len() ==> toks[i] == p[i]);
    }
}

/// Law: for each stream, its last redirection operator decides: the
/// stream goes to the word right after that operator (whatever the word
/// is), appended for `>>`, `1>>` or `2>>`; with no operator, or nothing
/// after the last one, the stream is not redirected. The one exception:
/// when the only operator is the last word, nothing is redirected and
/// nothing appended.
pub proof fn law_last_operator_decides(toks: Seq<Seq<char>>, builtins: Seq<Seq<char>>)
    ensures
        spec_command(toks, builtins).redirections.out_target == stream_target(toks, false),
        spec_command(toks, builtins).redirections.err_target == stream_target(toks, true),
        !lone_trailing_operator(toks) ==> spec_command(toks, builtins).redirections.out_append
            == stream_append(toks, false),
        !lone_trailing_operator(toks) ==> spec_command(toks, builtins).redirections.err_append
            == stream_append(toks, true),
        lone_trailing_operator(toks) ==> spec_command(toks, builtins).redirections
            == no_redirections(),
{
    lemma_scan_streams(toks);
    if lone_trailing_operator(toks) {
        lemma_lone_operator_targets(toks);
    }
}

/// The commands of each pipeline stage of a line of input.
pub open spec fn spec_plan(input: Seq<char>, builtins: Seq<Seq<char>>) -> Seq<CommandPlan> {
    spec_split(spec_tokenize(input)).map_values(|st: Seq<Seq<char>>| spec_command(st, builtins))
}

/// Law: a planned command is a builtin exactly when its command name is one
/// of the builtin names, whatever its arguments and redirections.
pub proof fn law_builtin_flag_is_name_lookup(toks: Seq<Seq<char>>, builtins: Seq<Seq<char>>)
    ensures
        spec_command(toks, builtins).isbuiltin == builtins.contains(spec_command(toks, builtins).cmd),
{
}

/// Law: a line is planned stage by stage, each stage on its own words and
/// with the same builtin names, so a builtin is run as one in every stage
/// of a pipeline.
pub proof fn law_every_stage_planned_alike(input: Seq<char>, builtins: Seq<Seq<char>>)
    ensures
        spec_plan(input, builtins).len() == spec_split(spec_tokenize(input)).len(),
        forall|i: int|
            0 <= i < spec_plan(input, builtins).len() ==> #[trigger] spec_plan(input, builtins)[i]
                == spec_command(spec_split(spec_tokenize(input))[i], builtins),
        forall|i: int|
            0 <= i < spec_plan(input, builtins).len() ==> #[trigger] spec_plan(
                input,
                builtins,
            )[i].isbuiltin == builtins.contains(spec_plan(input, builtins)[i].cmd),
{
}

/// The plain values of a list of commands.
pub open spec fn plan_views(v: Seq<CommandSpec>) -> Seq<CommandPlan> {
    v.map_values(|c: CommandSpec| c@)
}

/// The commands to run for a line of input, one per pipeline stage.
pub fn plan_line(input: String, builtins: &Vec<String>) -> (plan: Vec<CommandSpec>)
    ensures
        plan_views(plan@) == spec_plan(input@, views(builtins@)),
{
    let stages = split_commands(tokenize_input(input));
    let ghost sv = stage_views(stages@);
    let mut plan: Vec<CommandSpec> = Vec::new();
    for i in 0..stages.len()
        invariant
            sv == stage_views(stages@),
            plan_views(plan@) == sv.take(i as int).map_values(
                |st: Seq<Seq<char>>| spec_command(st, views(builtins@)),
            ),
    {
        let stage = clone_from(&stages[i], 0);
        assert(views(stages@[i as int]@).skip(0) =~= views(stages@[i as int]@));
        let c = command_specfn(stage, builtins);
        let ghost before = plan_views(plan@);
        plan.push(c);
        assert(plan_views(plan@) =~= before.push(c@));
        assert(sv.take(i + 1) =~= sv.take(i as int).push(sv[i as int]));
        assert(sv.take(i + 1).map_values(|st: Seq<Seq<char>>| spec_command(st, views(builtins@)))
            =~= sv.take(i as int).map_values(
            |st: Seq<Seq<char>>| spec_command(st, views(builtins@)),
        ).push(spec_command(sv[i as int], views(builtins@))));
    }
    assert(sv.take(stages.len() as int) =~= sv);
    plan
}

/// Records an entered line in both lists of a history.
pub fn record_command(cmd: &str, history: &mut Vec<String>, new_commands: &mut Vec<String>)
    ensures
        views(final(history)@) == views(old(history)@).push(cmd@),
        views(final(new_commands)@) == views(old(new_commands)@).push(cmd@),
{
    let ghost h = views(history@);
    let ghost n = views(new_commands@);
    history.push(cmd.to_owned());
    new_commands.push(cmd.to_owned());
    assert(views(history@) =~= h.push(cmd@));
    assert(views(new_commands@) =~= n.push(cmd@));
}

} // verus!
