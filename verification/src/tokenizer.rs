//! Splitting a command line into words, and words into pipeline stages.

use vstd::prelude::*;
use crate::text::{chars_of, is_prefix, push_char, same_chars, starts_with, string_of, views};

verus! {

/// Where the tokenizer stands after reading part of a line.
pub struct TokState {
    /// The words completed so far.
    pub tokens: Seq<Seq<char>>,
    /// The word being read.
    pub curr: Seq<char>,
    /// Inside single quotes.
    pub single: bool,
    /// Inside double quotes.
    pub double: bool,
    /// The previous character was an escaping backslash.
    pub backslash: bool,
}

/// The tokenizer before the first character.
pub open spec fn tok_init() -> TokState {
    TokState { tokens: seq![], curr: seq![], single: false, double: false, backslash: false }
}

/// What reading one character does.
///
/// An escaped character is taken literally; inside double quotes the
/// backslash itself is kept unless it escapes `\` or `"`. Outside double
/// quotes a backslash escapes; outside double quotes a single quote toggles
/// single quoting; outside both kinds of quotes a space ends the current
/// word, if any, and a `|` ends it and is a word of its own; outside single
/// quotes a double quote toggles double quoting; every other character is
/// part of the word.
pub open spec fn tok_step(st: TokState, c: char) -> TokState {
    if st.backslash {
        let kept = if st.double && c != '\\' && c != '"' { st.curr.push('\\') } else { st.curr };
        TokState { curr: kept.push(c), backslash: false, ..st }
    } else if c == '\\' && !st.single {
        TokState { backslash: true, ..st }
    } else if c == '\'' && !st.double {
        TokState { single: !st.single, ..st }
    } else if c == ' ' && !st.single && !st.double {
        if st.curr.len() > 0 {
            TokState { tokens: st.tokens.push(st.curr), curr: seq![], ..st }
        } else {
            st
        }
    } else if c == '|' && !st.single && !st.double {
        let done = if st.curr.len() > 0 {
            st.tokens.push(st.curr)
        } else {
            st.tokens
        };
        TokState { tokens: done.push(seq!['|']), curr: seq![], ..st }
    } else if c == '"' && !st.single {
        TokState { double: !st.double, ..st }
    } else {
        TokState { curr: st.curr.push(c), ..st }
    }
}

/// The tokenizer state after reading all of `s`, starting from `st`.
pub open spec fn tok_run(st: TokState, s: Seq<char>) -> TokState
    decreases s.len(),
{
    if s.len() == 0 {
        st
    } else {
        tok_run(tok_step(st, s[0]), s.drop_first())
    }
}

/// The words of a whole line: those completed, then the last one if it is
/// not empty.
pub open spec fn spec_tokenize(s: Seq<char>) -> Seq<Seq<char>> {
    let f = tok_run(tok_init(), s);
    if f.curr.len() > 0 {
        f.tokens.push(f.curr)
    } else {
        f.tokens
    }
}

/// Splits a command line into words, honouring single quotes, double quotes
/// and backslash escapes; an unquoted `|` is a word of its own. No word is
/// empty.
pub fn tokenize_input(input: String) -> (tokens: Vec<String>)
    ensures
        views(tokens@) == spec_tokenize(input@),
        forall|i: int| 0 <= i < tokens.len() ==> tokens@[i]@.len() > 0,
{
    let mut tokens: Vec<String> = Vec::new();
    let mut in_single_quotes = false;
    let mut in_double_quotes = false;
    let mut backslash = false;
    let mut curr = String::new();
    let cs = chars_of(input.as_str());
    let n = cs.len();
    let mut i: usize = 0;
    assert(cs@.skip(0) =~= cs@);
    assert(views(tokens@) =~= Seq::<Seq<char>>::empty());
    while i < n
        invariant
            n == cs.len(),
            cs@ == input@,
            0 <= i <= n,
            tok_run(
                TokState {
                    tokens: views(tokens@),
                    curr: curr@,
                    single: in_single_quotes,
                    double: in_double_quotes,
                    backslash,
                },
                cs@.skip(i as int),
            ) == tok_run(tok_init(), input@),
            forall|k: int| 0 <= k < tokens.len() ==> tokens@[k]@.len() > 0,
        decreases n - i,
    {
        let c = cs[i];
        let ghost before = TokState {
            tokens: views(tokens@),
            curr: curr@,
            single: in_single_quotes,
            double: in_double_quotes,
            backslash,
        };
        assert(cs@.skip(i as int).drop_first() =~= cs@.skip(i + 1));
        assert(cs@.skip(i as int)[0] == c);
        let ghost old_tokens = tokens@;
        if backslash {
            if in_double_quotes && c != '\\' && c != '"' {
                push_char(&mut curr, '\\');
            }
            push_char(&mut curr, c);
            backslash = false;
        } else if c == '\\' && !in_single_quotes {
            backslash = true;
        } else if c == '\'' && !in_double_quotes {
            in_single_quotes = !in_single_quotes;
        } else if c == ' ' && !in_single_quotes && !in_double_quotes {
            if !curr.as_str().is_empty() {
                tokens.push(curr);
                curr = String::new();
                assert(views(tokens@) =~= views(old_tokens).push(before.curr));
            }
        } else if c == '|' && !in_single_quotes && !in_double_quotes {
            if !curr.as_str().is_empty() {
                tokens.push(curr);
                curr = String::new();
            }
            let ghost mid = tokens@;
            let mut bar = String::new();
            push_char(&mut bar, '|');
            assert(bar@ =~= seq!['|']);
            tokens.push(bar);
            assert(views(tokens@) =~= views(mid).push(seq!['|']));
            proof {
                assert(curr@ =~= Seq::<char>::empty());
                if before.curr.len() > 0 {
                    assert(views(mid) =~= views(old_tokens).push(before.curr));
                } else {
                    assert(mid == old_tokens);
                }
            }
        } else if c == '"' && !in_single_quotes && !backslash {
            in_double_quotes = !in_double_quotes;
        } else {
            push_char(&mut curr, c);
        }
        assert(TokState {
            tokens: views(tokens@),
            curr: curr@,
            single: in_single_quotes,
            double: in_double_quotes,
            backslash,
        } == tok_step(before, c));
        i = i + 1;
    }
    assert(cs@.skip(n as int) =~= Seq::<char>::empty());
    if !curr.as_str().is_empty() {
        let ghost old_tokens = tokens@;
        tokens.push(curr);
        assert(views(tokens@) =~= views(old_tokens).push(curr@));
    }
    tokens
}


/// Words separated by single spaces.
pub open spec fn join_spaced(ws: Seq<Seq<char>>) -> Seq<char>
    decreases ws.len(),
{
    if ws.len() == 0 {
        seq![]
    } else if ws.len() == 1 {
        ws[0]
    } else {
        join_spaced(ws.drop_last()) + seq![' '] + ws.last()
    }
}

/// A word that needs no quoting: it holds no space, quote, backslash or
/// `|`.
pub open spec fn plain_word(w: Seq<char>) -> bool {
    forall|i: int|
        0 <= i < w.len() ==> w[i] != ' ' && w[i] != '\'' && w[i] != '"' && w[i] != '\\' && w[i]
            != '|'
}

proof fn lemma_run_concat(st: TokState, a: Seq<char>, b: Seq<char>)
    ensures
        tok_run(st, a + b) == tok_run(tok_run(st, a), b),
    decreases a.len(),
{
    if a.len() == 0 {
        assert(a + b =~= b);
    } else {
        assert((a + b).drop_first() =~= a.drop_first() + b);
        assert((a + b)[0] == a[0]);
        lemma_run_concat(tok_step(st, a[0]), a.drop_first(), b);
    }
}

proof fn lemma_run_plain(st: TokState, w: Seq<char>)
    requires
        plain_word(w),
        !st.single,
        !st.double,
        !st.backslash,
    ensures
        tok_run(st, w) == (TokState { curr: st.curr + w, ..st }),
    decreases w.len(),
{
    if w.len() == 0 {
        assert(st.curr + w =~= st.curr);
    } else {
        let st1 = tok_step(st, w[0]);
        assert(plain_word(w.drop_first()));
        lemma_run_plain(st1, w.drop_first());
        assert(st.curr.push(w[0]) + w.drop_first() =~= st.curr + w);
    }
}

proof fn lemma_run_joined(ws: Seq<Seq<char>>)
    requires
        ws.len() >= 1,
        forall|i: int| 0 <= i < ws.len() ==> ws[i].len() > 0 && plain_word(#[trigger] ws[i]),
    ensures
        tok_run(tok_init(), join_spaced(ws)) == (TokState {
            tokens: ws.drop_last(),
            curr: ws.last(),
            single: false,
            double: false,
            backslash: false,
        }),
    decreases ws.len(),
{
    if ws.len() == 1 {
        lemma_run_plain(tok_init(), ws[0]);
        assert(Seq::<char>::empty() + ws[0] =~= ws[0]);
        assert(ws.drop_last() =~= Seq::<Seq<char>>::empty());
    } else {
        let p = ws.drop_last();
        assert(forall|i: int| 0 <= i < p.len() ==> p[i] == ws[i]);
        lemma_run_joined(p);
        let jp = join_spaced(p);
        lemma_run_concat(tok_init(), jp + seq![' '], ws.last());
        lemma_run_concat(tok_init(), jp, seq![' ']);
        let mid = tok_run(tok_init(), jp);
        assert(seq![' '].drop_first() =~= Seq::<char>::empty());
        let after_space = tok_run(mid, seq![' ']);
        assert(seq![' '][0] == ' ');
        assert(tok_run(tok_step(mid, ' '), Seq::<char>::empty()) == tok_step(mid, ' '));
        assert(after_space == tok_step(mid, ' '));
        assert(p.drop_last().push(p.last()) =~= p);
        assert(plain_word(ws.last()));
        lemma_run_plain(after_space, ws.last());
        assert(Seq::<char>::empty() + ws.last() =~= ws.last());
    }
}

/// Law: words that need no quoting, joined by single spaces, tokenize back
/// into the same words.
pub proof fn law_tokenize_joined_plain_words(ws: Seq<Seq<char>>)
    requires
        forall|i: int| 0 <= i < ws.len() ==> ws[i].len() > 0 && plain_word(#[trigger] ws[i]),
    ensures
        spec_tokenize(join_spaced(ws)) == ws,
{
    if ws.len() == 0 {
        assert(spec_tokenize(seq![]) == Seq::<Seq<char>>::empty());
    } else {
        lemma_run_joined(ws);
        assert(ws.drop_last().push(ws.last()) =~= ws);
    }
}


/// Law: an unquoted `|` separates the words around it and is a word of its
/// own, with or without spaces around it.
pub proof fn law_bar_is_a_word(a: Seq<char>, b: Seq<char>)
    requires
        a.len() > 0,
        b.len() > 0,
        plain_word(a),
        plain_word(b),
    ensures
        spec_tokenize(a + seq!['|'] + b) == seq![a, seq!['|'], b],
{
    lemma_run_concat(tok_init(), a + seq!['|'], b);
    lemma_run_concat(tok_init(), a, seq!['|']);
    lemma_run_plain(tok_init(), a);
    assert(Seq::<char>::empty() + a =~= a);
    let st1 = tok_run(tok_init(), a);
    assert(seq!['|'].drop_first() =~= Seq::<char>::empty());
    assert(seq!['|'][0] == '|');
    assert(tok_run(tok_step(st1, '|'), Seq::<char>::empty()) == tok_step(st1, '|'));
    let st2 = tok_step(st1, '|');
    lemma_run_plain(st2, b);
    assert(Seq::<char>::empty() + b =~= b);
    assert(Seq::<Seq<char>>::empty().push(a).push(seq!['|']).push(b) =~= seq![a, seq!['|'], b]);
}

proof fn lemma_run_single_quoted(st: TokState, w: Seq<char>)
    requires
        forall|i: int| 0 <= i < w.len() ==> w[i] != '\'',
        st.single,
        !st.double,
        !st.backslash,
    ensures
        tok_run(st, w) == (TokState { curr: st.curr + w, ..st }),
    decreases w.len(),
{
    if w.len() == 0 {
        assert(st.curr + w =~= st.curr);
    } else {
        lemma_run_single_quoted(tok_step(st, w[0]), w.drop_first());
        assert(st.curr.push(w[0]) + w.drop_first() =~= st.curr + w);
    }
}

proof fn lemma_run_double_quoted(st: TokState, w: Seq<char>)
    requires
        forall|i: int| 0 <= i < w.len() ==> w[i] != '"' && w[i] != '\\',
        !st.single,
        st.double,
        !st.backslash,
    ensures
        tok_run(st, w) == (TokState { curr: st.curr + w, ..st }),
    decreases w.len(),
{
    if w.len() == 0 {
        assert(st.curr + w =~= st.curr);
    } else {
        lemma_run_double_quoted(tok_step(st, w[0]), w.drop_first());
        assert(st.curr.push(w[0]) + w.drop_first() =~= st.curr + w);
    }
}

/// Law: text in double quotes with no double quote or backslash in it is
/// one word, taken literally: spaces, `|` and single quotes in it are
/// ordinary characters.
pub proof fn law_double_quoted_word(w: Seq<char>)
    requires
        w.len() > 0,
        forall|i: int| 0 <= i < w.len() ==> w[i] != '"' && w[i] != '\\',
    ensures
        spec_tokenize(seq!['"'] + w + seq!['"']) == seq![w],
{
    let s = seq!['"'] + w + seq!['"'];
    let st1 = tok_step(tok_init(), '"');
    assert(s.drop_first() =~= w + seq!['"']);
    assert(tok_run(tok_init(), s) == tok_run(st1, w + seq!['"']));
    lemma_run_concat(st1, w, seq!['"']);
    lemma_run_double_quoted(st1, w);
    let st2 = tok_run(st1, w);
    assert(seq!['"'].drop_first() =~= Seq::<char>::empty());
    assert(tok_run(tok_step(st2, '"'), Seq::<char>::empty()) == tok_step(st2, '"'));
    assert(Seq::<char>::empty() + w =~= w);
    assert(Seq::<Seq<char>>::empty().push(w) =~= seq![w]);
}

/// Law: text in single quotes is one word, taken literally: spaces,
/// double quotes and backslashes in it have no special meaning.
pub proof fn law_single_quoted_word(w: Seq<char>)
    requires
        w.len() > 0,
        forall|i: int| 0 <= i < w.len() ==> w[i] != '\'',
    ensures
        spec_tokenize(seq!['\''] + w + seq!['\'']) == seq![w],
{
    let s = seq!['\''] + w + seq!['\''];
    let st1 = tok_step(tok_init(), '\'');
    assert(s.drop_first() =~= w + seq!['\'']);
    assert(tok_run(tok_init(), s) == tok_run(st1, w + seq!['\'']));
    lemma_run_concat(st1, w, seq!['\'']);
    lemma_run_single_quoted(st1, w);
    let st2 = tok_run(st1, w);
    assert(seq!['\''].drop_first() =~= Seq::<char>::empty());
    assert(tok_run(tok_step(st2, '\''), Seq::<char>::empty()) == tok_step(st2, '\''));
    assert(Seq::<char>::empty() + w =~= w);
    assert(Seq::<Seq<char>>::empty().push(w) =~= seq![w]);
}

/// The word that separates pipeline stages.
pub open spec fn pipe_token() -> Seq<char> {
    seq!['|']
}

/// The stages completed, and the stage being collected, after reading the
/// words `toks`.
pub open spec fn split_acc(toks: Seq<Seq<char>>) -> (Seq<Seq<Seq<char>>>, Seq<Seq<char>>)
    decreases toks.len(),
{
    if toks.len() == 0 {
        (seq![], seq![])
    } else {
        let (done, cur) = split_acc(toks.drop_last());
        if toks.last() == pipe_token() {
            (done.push(cur), seq![])
        } else {
            (done, cur.push(toks.last()))
        }
    }
}

/// The pipeline stages of a list of words: a `|` closes the stage before
/// it, even an empty one; the last stage is kept only if it is not empty.
pub open spec fn spec_split(toks: Seq<Seq<char>>) -> Seq<Seq<Seq<char>>> {
    let (done, cur) = split_acc(toks);
    if cur.len() > 0 {
        done.push(cur)
    } else {
        done
    }
}

/// The character sequences of each stage.
pub open spec fn stage_views(v: Seq<Vec<String>>) -> Seq<Seq<Seq<char>>> {
    v.map_values(|s: Vec<String>| views(s@))
}

/// Splits words into pipeline stages at each `|`.
pub fn split_commands(tokens: Vec<String>) -> (commands: Vec<Vec<String>>)
    ensures
        stage_views(commands@) == spec_split(views(tokens@)),
{
    let mut commands: Vec<Vec<String>> = Vec::new();
    let mut current: Vec<String> = Vec::new();
    let ghost toks = views(tokens@);
    proof {
        reveal_strlit("|");
        assert(toks.take(0) =~= Seq::<Seq<char>>::empty());
        assert(stage_views(commands@) =~= Seq::<Seq<Seq<char>>>::empty());
        assert(views(current@) =~= Seq::<Seq<char>>::empty());
    }
    for i in 0..tokens.len()
        invariant
            toks == views(tokens@),
            "|"@ == pipe_token(),
            (stage_views(commands@), views(current@)) == split_acc(toks.take(i as int)),
    {
        let token = tokens[i].clone();
        assert(toks.take(i + 1).drop_last() =~= toks.take(i as int));
        assert(toks.take(i + 1).last() == token@);
        if same_chars(token.as_str(), "|") {
            let ghost old_commands = commands@;
            let ghost cur = views(current@);
            commands.push(current);
            current = Vec::new();
            assert(stage_views(commands@) =~= stage_views(old_commands).push(cur));
            assert(views(current@) =~= Seq::<Seq<char>>::empty());
        } else {
            let ghost old_current = current@;
            current.push(token);
            assert(views(current@) =~= views(old_current).push(token@));
        }
    }
    assert(toks.take(tokens.len() as int) =~= toks);
    if current.len() > 0 {
        let ghost old_commands = commands@;
        let ghost cur = views(current@);
        commands.push(current);
        assert(stage_views(commands@) =~= stage_views(old_commands).push(cur));
    } else {
        assert(views(current@) =~= Seq::<Seq<char>>::empty());
    }
    commands
}


/// All stages, one after another.
pub open spec fn flatten(gs: Seq<Seq<Seq<char>>>) -> Seq<Seq<char>>
    decreases gs.len(),
{
    if gs.len() == 0 {
        seq![]
    } else {
        flatten(gs.drop_last()) + gs.last()
    }
}

/// The words other than `|`, in order.
pub open spec fn drop_pipes(toks: Seq<Seq<char>>) -> Seq<Seq<char>>
    decreases toks.len(),
{
    if toks.len() == 0 {
        seq![]
    } else if toks.last() == pipe_token() {
        drop_pipes(toks.drop_last())
    } else {
        drop_pipes(toks.drop_last()).push(toks.last())
    }
}

proof fn lemma_split_acc_keeps_words(toks: Seq<Seq<char>>)
    ensures
        flatten(split_acc(toks).0) + split_acc(toks).1 == drop_pipes(toks),
    decreases toks.len(),
{
    if toks.len() == 0 {
        assert(flatten(seq![]) + Seq::<Seq<char>>::empty() =~= Seq::<Seq<char>>::empty());
    } else {
        lemma_split_acc_keeps_words(toks.drop_last());
        let (done, cur) = split_acc(toks.drop_last());
        if toks.last() == pipe_token() {
            assert(done.push(cur).drop_last() =~= done);
            assert(flatten(done.push(cur)) + Seq::<Seq<char>>::empty() =~= flatten(done) + cur);
        } else {
            assert(flatten(done) + cur.push(toks.last()) =~= (flatten(done) + cur).push(toks.last()));
        }
    }
}

/// Law: splitting into stages loses no word and adds none: the stages,
/// one after another, are the words without the `|` separators.
pub proof fn law_split_keeps_words(toks: Seq<Seq<char>>)
    ensures
        flatten(spec_split(toks)) == drop_pipes(toks),
{
    lemma_split_acc_keeps_words(toks);
    let (done, cur) = split_acc(toks);
    if cur.len() > 0 {
        assert(done.push(cur).drop_last() =~= done);
    } else {
        assert(flatten(done) + cur =~= flatten(done));
    }
}

/// `p` is a prefix of every word in `ws`.
pub open spec fn common_prefix(p: Seq<char>, ws: Seq<Seq<char>>) -> bool {
    forall|i: int| 0 <= i < ws.len() ==> is_prefix(p, #[trigger] ws[i])
}

/// `p` is a prefix of each of the first `n` words of `ws`.
pub open spec fn prefix_of_first(p: Seq<char>, ws: Seq<Seq<char>>, n: int) -> bool {
    forall|i: int| 0 <= i < n ==> is_prefix(p, #[trigger] ws[i])
}

/// The longest prefix that all of `ws` share.
pub open spec fn spec_lcp(ws: Seq<Seq<char>>) -> Seq<char> {
    choose|p: Seq<char>|
        common_prefix(p, ws) && forall|q: Seq<char>| #[trigger]
            common_prefix(q, ws) ==> q.len() <= p.len()
}

proof fn lemma_lcp_exists(ws: Seq<Seq<char>>, k: int)
    requires
        ws.len() > 0,
        0 <= k <= ws[0].len(),
        forall|q: Seq<char>| #[trigger] common_prefix(q, ws) ==> q.len() <= k,
    ensures
        exists|p: Seq<char>|
            common_prefix(p, ws) && forall|q: Seq<char>| #[trigger]
                common_prefix(q, ws) ==> q.len() <= p.len(),
    decreases k,
{
    let p = ws[0].take(k);
    if common_prefix(p, ws) {
        assert(p.len() == k);
    } else {
        if k == 0 {
            assert forall|i: int| 0 <= i < ws.len() implies is_prefix(p, #[trigger] ws[i]) by {
                assert(ws[i].take(0) =~= p);
            }
        }
        assert forall|q: Seq<char>| #[trigger] common_prefix(q, ws) implies q.len() <= k - 1 by {
            if q.len() == k {
                assert(is_prefix(q, ws[0]));
            }
        }
        lemma_lcp_exists(ws, k - 1);
    }
}

/// The longest common prefix of a nonempty list is a common prefix, and no
/// common prefix is longer.
pub proof fn lemma_spec_lcp(ws: Seq<Seq<char>>)
    requires
        ws.len() > 0,
    ensures
        common_prefix(spec_lcp(ws), ws),
        forall|q: Seq<char>| #[trigger] common_prefix(q, ws) ==> q.len() <= spec_lcp(ws).len(),
{
    assert forall|q: Seq<char>| #[trigger] common_prefix(q, ws) implies q.len() <= ws[0].len() by {
        assert(is_prefix(q, ws[0]));
    }
    lemma_lcp_exists(ws, ws[0].len() as int);
}

proof fn lemma_lcp_unique(p: Seq<char>, ws: Seq<Seq<char>>)
    requires
        ws.len() > 0,
        common_prefix(p, ws),
        forall|q: Seq<char>| #[trigger] common_prefix(q, ws) ==> q.len() <= p.len(),
    ensures
        spec_lcp(ws) == p,
{
    let l = spec_lcp(ws);
    assert(common_prefix(l, ws) && forall|q: Seq<char>| #[trigger]
        common_prefix(q, ws) ==> q.len() <= l.len());
    assert(is_prefix(l, ws[0]));
    assert(is_prefix(p, ws[0]));
    assert(l.len() == p.len());
    assert(l =~= p) by {
        assert(forall|j: int| 0 <= j < l.len() ==> l[j] == ws[0].take(l.len() as int)[j]);
    }
}

/// The longest prefix that all `words` share; empty when there are none.
pub fn longest_common_prefix(words: &[String]) -> (prefix: String)
    ensures
        words@.len() == 0 ==> prefix@.len() == 0,
        words@.len() > 0 ==> common_prefix(prefix@, views(words@)),
        words@.len() > 0 ==> forall|q: Seq<char>| #[trigger]
            common_prefix(q, views(words@)) ==> q.len() <= prefix@.len(),
        words@.len() > 0 ==> prefix@ == spec_lcp(views(words@)),
{
    if words.len() == 0 {
        return String::new();
    }
    let ghost ws = views(words@);
    let mut prefix = chars_of(words[0].as_str());
    assert(ws[0].take(prefix@.len() as int) =~= prefix@);
    let mut k: usize = 1;
    while k < words.len()
        invariant
            ws == views(words@),
            words@.len() > 0,
            1 <= k <= words@.len(),
            forall|i: int| 0 <= i < k ==> is_prefix(prefix@, #[trigger] ws[i]),
            forall|q: Seq<char>| #[trigger] prefix_of_first(q, ws, k as int) ==> q.len()
                <= prefix@.len(),
        decreases words@.len() - k,
    {
        let word = chars_of(words[k].as_str());
        assert forall|q: Seq<char>| #[trigger] prefix_of_first(q, ws, k + 1) implies q.len()
            <= prefix@.len() by {
            assert(prefix_of_first(q, ws, k as int));
        }
        while !starts_with(&word, &prefix)
            invariant
                ws == views(words@),
                1 <= k < words@.len(),
                word@ == ws[k as int],
                forall|i: int| 0 <= i < k ==> is_prefix(prefix@, #[trigger] ws[i]),
                forall|q: Seq<char>| #[trigger] prefix_of_first(q, ws, k + 1) ==> q.len()
                    <= prefix@.len(),
            decreases prefix@.len(),
        {
            let ghost before = prefix@;
            assert forall|q: Seq<char>| #[trigger] prefix_of_first(q, ws, k + 1) implies q.len()
                < before.len() by {
                if q.len() >= before.len() {
                    assert(is_prefix(q, ws[0]));
                    assert(is_prefix(before, ws[0]));
                    assert(q.len() == before.len());
                    assert(q =~= before) by {
                        assert(forall|j: int|
                            0 <= j < q.len() ==> q[j] == ws[0].take(q.len() as int)[j]);
                    };
                    assert(is_prefix(q, ws[k as int]));
                }
            }
            prefix.pop();
            assert forall|i: int| 0 <= i < k implies is_prefix(prefix@, #[trigger] ws[i]) by {
                assert(is_prefix(before, ws[i]));
                assert(ws[i].take(prefix@.len() as int) =~= prefix@);
            }
            if prefix.len() == 0 {
                assert(prefix@ =~= Seq::<char>::empty());
                assert forall|i: int| 0 <= i < ws.len() implies is_prefix(prefix@, #[trigger] ws[i]) by {
                    assert(ws[i].take(0) =~= prefix@);
                }
                assert forall|q: Seq<char>| #[trigger] common_prefix(q, views(words@)) implies q.len()
                    <= 0 by {
                    assert(prefix_of_first(q, ws, k + 1));
                }
                proof {
                    lemma_lcp_unique(prefix@, views(words@));
                }
                return String::new();
            }
        }
        k = k + 1;
    }
    assert forall|q: Seq<char>| #[trigger] common_prefix(q, views(words@)) implies q.len()
        <= prefix@.len() by {
        assert(prefix_of_first(q, ws, words@.len() as int));
    }
    proof {
        lemma_lcp_unique(prefix@, views(words@));
    }
    string_of(&prefix)
}

} // verus!
