//! Tab completion of command names: which names match, and what each press
//! of the Tab key does.

use vstd::prelude::*;
use crate::order::{insert_sorted, lemma_sorted_insert, lemma_sorted_unique, sorted_insert, strictly_sorted};
use crate::text::{chars_of, clone_from, contains_str, lemma_push_contains, is_prefix, join, owned, push_char, push_str, same_chars, spec_join, starts_with, views};
use crate::tokenizer::{common_prefix, lemma_spec_lcp, longest_common_prefix, spec_lcp};

verus! {

/// `m` lists, sorted and each once, the names among `builtins` and
/// `executables` that start with `prefix`.
pub open spec fn is_match_list(
    m: Seq<Seq<char>>,
    builtins: Seq<Seq<char>>,
    executables: Seq<Seq<char>>,
    prefix: Seq<char>,
) -> bool {
    &&& strictly_sorted(m)
    &&& forall|x: Seq<char>|
        #![trigger m.contains(x)]
        m.contains(x) <==> ((builtins.contains(x) || executables.contains(x)) && is_prefix(
            prefix,
            x,
        ))
}

/// `r` holds just those strings of `pool` that start with `prefix`.
pub open spec fn collected(r: Seq<Seq<char>>, pool: Seq<Seq<char>>, prefix: Seq<char>) -> bool {
    forall|x: Seq<char>| #[trigger] r.contains(x) <==> pool.contains(x) && is_prefix(prefix, x)
}

proof fn lemma_collect_step(
    before: Seq<Seq<char>>,
    after: Seq<Seq<char>>,
    pool: Seq<Seq<char>>,
    w: Seq<char>,
    prefix: Seq<char>,
)
    requires
        collected(before, pool, prefix),
        is_prefix(prefix, w) ==> forall|x: Seq<char>|
            after.contains(x) <==> (before.contains(x) || x == w),
        !is_prefix(prefix, w) ==> after == before,
    ensures
        collected(after, pool.push(w), prefix),
{
    assert forall|x: Seq<char>|
        #[trigger] after.contains(x) <==> pool.push(w).contains(x) && is_prefix(prefix, x) by {
        lemma_push_contains(pool, w, x);
        assert(before.contains(x) <==> pool.contains(x) && is_prefix(prefix, x));
    }
}

proof fn lemma_concat_contains(a: Seq<Seq<char>>, b: Seq<Seq<char>>, x: Seq<char>)
    ensures
        (a + b).contains(x) <==> (a.contains(x) || b.contains(x)),
{
    if (a + b).contains(x) {
        let k = choose|k: int| 0 <= k < (a + b).len() && (a + b)[k] == x;
        if k < a.len() {
            assert(a[k] == x);
        } else {
            assert(b[k - a.len()] == x);
        }
    }
    if a.contains(x) {
        let k = choose|k: int| 0 <= k < a.len() && a[k] == x;
        assert((a + b)[k] == x);
    }
    if b.contains(x) {
        let k = choose|k: int| 0 <= k < b.len() && b[k] == x;
        assert((a + b)[k + a.len()] == x);
    }
}

/// The strings of `pool` that start with `prefix`, sorted, each once.
pub open spec fn sorted_matching(pool: Seq<Seq<char>>, prefix: Seq<char>) -> Seq<Seq<char>>
    decreases pool.len(),
{
    if pool.len() == 0 {
        seq![]
    } else if is_prefix(prefix, pool.last()) {
        sorted_insert(sorted_matching(pool.drop_last(), prefix), pool.last())
    } else {
        sorted_matching(pool.drop_last(), prefix)
    }
}

/// The names that complete `prefix`, sorted, each once.
pub open spec fn spec_matches(
    builtins: Seq<Seq<char>>,
    executables: Seq<Seq<char>>,
    prefix: Seq<char>,
) -> Seq<Seq<char>> {
    sorted_matching(builtins + executables, prefix)
}

proof fn lemma_sorted_matching(pool: Seq<Seq<char>>, prefix: Seq<char>)
    ensures
        strictly_sorted(sorted_matching(pool, prefix)),
        collected(sorted_matching(pool, prefix), pool, prefix),
    decreases pool.len(),
{
    let r = sorted_matching(pool, prefix);
    if pool.len() == 0 {
        assert forall|x: Seq<char>| #[trigger] r.contains(x) <==> pool.contains(x) && is_prefix(
            prefix,
            x,
        ) by {}
    } else {
        let p = pool.drop_last();
        lemma_sorted_matching(p, prefix);
        let rp = sorted_matching(p, prefix);
        assert(pool =~= p.push(pool.last()));
        if is_prefix(prefix, pool.last()) {
            lemma_sorted_insert(rp, pool.last());
        }
        assert forall|x: Seq<char>| #[trigger] r.contains(x) <==> pool.contains(x) && is_prefix(
            prefix,
            x,
        ) by {
            lemma_push_contains(p, pool.last(), x);
            assert(rp.contains(x) <==> p.contains(x) && is_prefix(prefix, x));
        }
    }
}

/// The names that complete `prefix` are the sorted list of matches.
pub proof fn lemma_spec_matches(
    builtins: Seq<Seq<char>>,
    executables: Seq<Seq<char>>,
    prefix: Seq<char>,
)
    ensures
        is_match_list(spec_matches(builtins, executables, prefix), builtins, executables, prefix),
{
    lemma_sorted_matching(builtins + executables, prefix);
    let m = spec_matches(builtins, executables, prefix);
    assert forall|x: Seq<char>| m.contains(x) <==> ((builtins.contains(x) || executables.contains(
        x,
    )) && is_prefix(prefix, x)) by {
        lemma_concat_contains(builtins, executables, x);
    }
}

/// The names among `first` and `second` that start with `prefix`, sorted,
/// each once.
fn collect_matches(first: &Vec<String>, second: &Vec<String>, prefix: &str) -> (r: Vec<String>)
    ensures
        is_match_list(views(r@), views(first@), views(second@), prefix@),
        views(r@) == spec_matches(views(first@), views(second@), prefix@),
{
    let p = chars_of(prefix);
    let ghost bs = views(first@);
    let ghost es = views(second@);
    let mut result: Vec<String> = Vec::new();
    proof {
        assert(views(result@) =~= Seq::<Seq<char>>::empty());
        assert(bs.take(0) =~= Seq::<Seq<char>>::empty());
    }
    for i in 0..first.len()
        invariant
            p@ == prefix@,
            bs == views(first@),
            strictly_sorted(views(result@)),
            collected(views(result@), bs.take(i as int), prefix@),
    {
        let w = chars_of(first[i].as_str());
        let ghost before = views(result@);
        assert(bs.take(i + 1) =~= bs.take(i as int).push(w@));
        if starts_with(&w, &p) {
            insert_sorted(&mut result, first[i].clone());
        }
        proof {
            lemma_collect_step(before, views(result@), bs.take(i as int), w@, prefix@);
        }
    }
    assert(bs.take(first.len() as int) =~= bs);
    assert(es.take(0) =~= Seq::<Seq<char>>::empty());
    assert(bs + es.take(0) =~= bs);
    for i in 0..second.len()
        invariant
            p@ == prefix@,
            bs == views(first@),
            es == views(second@),
            strictly_sorted(views(result@)),
            collected(views(result@), bs + es.take(i as int), prefix@),
    {
        let w = chars_of(second[i].as_str());
        let ghost before = views(result@);
        assert(bs + es.take(i + 1) =~= (bs + es.take(i as int)).push(w@));
        if starts_with(&w, &p) {
            insert_sorted(&mut result, second[i].clone());
        }
        proof {
            lemma_collect_step(before, views(result@), bs + es.take(i as int), w@, prefix@);
        }
    }
    assert(es.take(second.len() as int) =~= es);
    proof {
        assert forall|x: Seq<char>| (bs + es).contains(x) <==> (bs.contains(x) || es.contains(x)) by {
            lemma_concat_contains(bs, es, x);
        }
    }
    let ghost r = views(result@);
    assert(is_match_list(r, bs, es, prefix@));
    proof {
        let c = spec_matches(bs, es, prefix@);
        lemma_spec_matches(bs, es, prefix@);
        lemma_sorted_unique(r, c);
    }
    result
}

/// The place just after the last `a` or `b` in `p`; 0 when there is none.
pub open spec fn after_last(p: Seq<char>, a: char, b: char) -> nat
    decreases p.len(),
{
    if p.len() == 0 {
        0
    } else if p.last() == a || p.last() == b {
        p.len()
    } else {
        after_last(p.drop_last(), a, b)
    }
}

proof fn lemma_after_last_bound(p: Seq<char>, a: char, b: char)
    ensures
        after_last(p, a, b) <= p.len(),
    decreases p.len(),
{
    if p.len() > 0 {
        lemma_after_last_bound(p.drop_last(), a, b);
    }
}

/// Where the word being completed starts: after the last space or `|`.
pub open spec fn word_start(prefix: Seq<char>) -> nat {
    after_last(prefix, ' ', '|')
}

/// The word being completed.
pub open spec fn current_word(prefix: Seq<char>) -> Seq<char> {
    prefix.skip(word_start(prefix) as int)
}

/// Text after which a word names a command: nothing but spaces, or a `|`
/// followed by spaces.
pub open spec fn command_position(before: Seq<char>) -> bool
    decreases before.len(),
{
    if before.len() == 0 {
        true
    } else if before.last() == ' ' {
        command_position(before.drop_last())
    } else {
        before.last() == '|'
    }
}

/// The word being completed is a command name: it stands where a command
/// does and holds no `/`. Otherwise it is a path.
pub open spec fn completes_command(prefix: Seq<char>) -> bool {
    command_position(prefix.take(word_start(prefix) as int)) && after_last(
        current_word(prefix),
        '/',
        '/',
    ) == 0
}

/// Where the part of the word that is matched against names starts: the
/// word's start, or for a path the place after its last `/`.
pub open spec fn stem_start(prefix: Seq<char>) -> nat {
    word_start(prefix) + after_last(current_word(prefix), '/', '/')
}

/// The typed text before the part that is matched.
pub open spec fn lead_of(prefix: Seq<char>) -> Seq<char> {
    prefix.take(stem_start(prefix) as int)
}

/// The part of the typed text that is matched against names.
pub open spec fn stem_of(prefix: Seq<char>) -> Seq<char> {
    prefix.skip(stem_start(prefix) as int)
}

/// The directory whose entries complete a path: the directory part of the
/// word, or `.` when it has none.
pub open spec fn scan_dir(prefix: Seq<char>) -> Seq<char> {
    let w = current_word(prefix);
    let d = w.take(after_last(w, '/', '/') as int);
    if d.len() > 0 {
        d
    } else {
        seq!['.']
    }
}

/// The names that complete `prefix`, sorted, each once: for a command name
/// the builtins and the `scanned` executables, for a path the `scanned`
/// entries of its directory, that start with the matched part.
pub open spec fn fresh_matches(
    builtins: Seq<Seq<char>>,
    scanned: Seq<Seq<char>>,
    prefix: Seq<char>,
) -> Seq<Seq<char>> {
    spec_matches(
        if completes_command(prefix) {
            builtins
        } else {
            seq![]
        },
        scanned,
        stem_of(prefix),
    )
}

/// What follows a completed name: a space, except after a directory (an
/// entry ending in `/`) of a path.
pub open spec fn end_mark(prefix: Seq<char>, m: Seq<char>) -> Seq<char> {
    if !completes_command(prefix) && m.len() > 0 && m.last() == '/' {
        seq![]
    } else {
        seq![' ']
    }
}

/// What the completer remembers between presses of Tab.
pub struct CompletionState {
    /// The text completed last time.
    pub last_prefix: Seq<char>,
    /// The names that matched it.
    pub last_matches: Seq<Seq<char>>,
    /// How often Tab was pressed on an ambiguous prefix, up to two.
    pub tab_count: nat,
}

/// What a press of Tab gives back.
pub struct CompletionOutcome {
    /// The replacements offered for the typed text.
    pub candidates: Seq<Seq<char>>,
    /// What is printed on the terminal.
    pub display: Seq<char>,
}

/// The terminal bell.
pub open spec fn bell() -> Seq<char> {
    seq!['\u{7}']
}

/// The list of all matches, shown on a second press of Tab, followed by a
/// fresh prompt with the typed text.
pub open spec fn listing(matches: Seq<Seq<char>>, prefix: Seq<char>) -> Seq<char> {
    seq!['\n'] + spec_join(matches, seq![' ', ' ']) + seq!['\n', '$', ' '] + prefix
}

/// One press of Tab with `prefix` (the line up to the cursor) typed. The
/// word being completed is the text after the last space or `|`; it is
/// matched against command names or, as a path, against the entries of its
/// directory. Names are looked up afresh only when the prefix differs from
/// last time (and the count of presses starts over); no match offers
/// nothing; one match completes the word, followed by a space (or nothing
/// after a directory); when the matches share a longer prefix than the
/// matched part, the word is completed to it; otherwise the first press
/// rings the bell and the second (and later) press lists the matches.
/// Each candidate replaces the whole typed prefix.
pub open spec fn spec_complete(
    st: CompletionState,
    builtins: Seq<Seq<char>>,
    scanned: Seq<Seq<char>>,
    prefix: Seq<char>,
) -> (CompletionState, CompletionOutcome) {
    let fresh = st.last_prefix != prefix;
    let matches = if fresh {
        fresh_matches(builtins, scanned, prefix)
    } else {
        st.last_matches
    };
    let t0: nat = if fresh {
        0
    } else {
        st.tab_count
    };
    let lead = lead_of(prefix);
    let st1 = CompletionState { last_prefix: prefix, last_matches: matches, tab_count: t0 };
    if matches.len() == 0 {
        (st1, CompletionOutcome { candidates: seq![], display: seq![] })
    } else if matches.len() == 1 {
        (
            st1,
            CompletionOutcome {
                candidates: seq![lead + matches[0] + end_mark(prefix, matches[0])],
                display: seq![],
            },
        )
    } else if spec_lcp(matches) != stem_of(prefix) {
        (st1, CompletionOutcome { candidates: seq![lead + spec_lcp(matches)], display: seq![] })
    } else {
        let t1: nat = if t0 < 2 {
            t0 + 1
        } else {
            t0
        };
        let st2 = CompletionState { tab_count: t1, ..st1 };
        if t1 == 1 {
            (st2, CompletionOutcome { candidates: seq![], display: bell() })
        } else if t1 == 2 {
            (st2, CompletionOutcome { candidates: seq![], display: listing(matches, prefix) })
        } else {
            (st2, CompletionOutcome { candidates: seq![], display: seq![] })
        }
    }
}

/// The completer's state before the first press of Tab.
pub open spec fn initial_completion_state() -> CompletionState {
    CompletionState { last_prefix: seq![], last_matches: seq![], tab_count: 0 }
}

/// A completer state that can arise: the remembered matches are sorted,
/// each once, each starts with the matched part of the remembered text, and
/// Tab has been counted at most twice.
pub open spec fn completion_wf(st: CompletionState) -> bool {
    &&& strictly_sorted(st.last_matches)
    &&& forall|i: int|
        0 <= i < st.last_matches.len() ==> is_prefix(
            stem_of(st.last_prefix),
            #[trigger] st.last_matches[i],
        )
    &&& st.tab_count <= 2
}

proof fn lemma_lead_stem(prefix: Seq<char>)
    ensures
        stem_start(prefix) <= prefix.len(),
        lead_of(prefix) + stem_of(prefix) == prefix,
{
    lemma_after_last_bound(prefix, ' ', '|');
    lemma_after_last_bound(current_word(prefix), '/', '/');
    assert(lead_of(prefix) + stem_of(prefix) =~= prefix);
}

proof fn lemma_extends(lead: Seq<char>, stem: Seq<char>, x: Seq<char>)
    requires
        is_prefix(stem, x),
    ensures
        is_prefix(lead + stem, lead + x),
{
    assert((lead + x).take((lead + stem).len() as int) =~= lead + stem);
}

/// Law: the completer starts in a state that can arise, and every press of
/// Tab leaves it in one.
pub proof fn law_completion_state_stays_wf(
    st: CompletionState,
    builtins: Seq<Seq<char>>,
    scanned: Seq<Seq<char>>,
    prefix: Seq<char>,
)
    requires
        completion_wf(st),
    ensures
        completion_wf(initial_completion_state()),
        completion_wf(spec_complete(st, builtins, scanned, prefix).0),
{
    let first = if completes_command(prefix) {
        builtins
    } else {
        seq![]
    };
    lemma_spec_matches(first, scanned, stem_of(prefix));
    let m = fresh_matches(builtins, scanned, prefix);
    assert forall|i: int| 0 <= i < m.len() implies is_prefix(stem_of(prefix), #[trigger] m[i]) by {
        assert(m.contains(m[i]));
    }
}

/// Law: whatever a press of Tab offers starts with the text that was typed.
pub proof fn law_candidates_extend_typed_text(
    st: CompletionState,
    builtins: Seq<Seq<char>>,
    scanned: Seq<Seq<char>>,
    prefix: Seq<char>,
)
    requires
        completion_wf(st),
    ensures
        forall|i: int|
            0 <= i < spec_complete(st, builtins, scanned, prefix).1.candidates.len() ==> is_prefix(
                prefix,
                #[trigger] spec_complete(st, builtins, scanned, prefix).1.candidates[i],
            ),
{
    law_completion_state_stays_wf(st, builtins, scanned, prefix);
    lemma_lead_stem(prefix);
    let (st1, out) = spec_complete(st, builtins, scanned, prefix);
    let m = st1.last_matches;
    let stem = stem_of(prefix);
    let lead = lead_of(prefix);
    assert(st1.last_prefix == prefix);
    if m.len() == 1 {
        assert(is_prefix(stem, m[0]));
        let x = m[0] + end_mark(prefix, m[0]);
        assert(x.take(stem.len() as int) =~= m[0].take(stem.len() as int));
        lemma_extends(lead, stem, x);
        assert(lead + x =~= lead + m[0] + end_mark(prefix, m[0]));
    } else if m.len() > 1 && spec_lcp(m) != stem {
        lemma_spec_lcp(m);
        let l = spec_lcp(m);
        assert(common_prefix(stem, m));
        assert(is_prefix(l, m[0]));
        assert(is_prefix(stem, m[0]));
        assert(l.take(stem.len() as int) =~= stem) by {
            assert(forall|j: int|
                0 <= j < stem.len() ==> l.take(stem.len() as int)[j] == m[0].take(
                    l.len() as int,
                )[j]);
        }
        lemma_extends(lead, stem, l);
    }
}

/// Law: pressing Tab again and again on a new prefix whose matches share no
/// longer prefix than the matched part first rings the bell, then lists all
/// matches, and keeps listing them.
pub proof fn law_repeated_tab(
    st: CompletionState,
    builtins: Seq<Seq<char>>,
    scanned: Seq<Seq<char>>,
    later_scanned: Seq<Seq<char>>,
    prefix: Seq<char>,
)
    requires
        st.last_prefix != prefix,
        fresh_matches(builtins, scanned, prefix).len() >= 2,
        spec_lcp(fresh_matches(builtins, scanned, prefix)) == stem_of(prefix),
    ensures
        ({
            let m = fresh_matches(builtins, scanned, prefix);
            let (st1, first) = spec_complete(st, builtins, scanned, prefix);
            let (st2, second) = spec_complete(st1, builtins, later_scanned, prefix);
            let (st3, third) = spec_complete(st2, builtins, later_scanned, prefix);
            &&& first.candidates.len() == 0 && first.display == bell()
            &&& second.candidates.len() == 0 && second.display == listing(m, prefix)
            &&& third.candidates.len() == 0 && third.display == listing(m, prefix)
        }),
{
}

/// Law: when exactly one name completes a newly typed word, Tab completes
/// the word to that name, followed by a space (nothing after a directory),
/// and prints nothing.
pub proof fn law_single_match_completes(
    st: CompletionState,
    builtins: Seq<Seq<char>>,
    scanned: Seq<Seq<char>>,
    prefix: Seq<char>,
)
    requires
        st.last_prefix != prefix,
        fresh_matches(builtins, scanned, prefix).len() == 1,
    ensures
        ({
            let m = fresh_matches(builtins, scanned, prefix)[0];
            spec_complete(st, builtins, scanned, prefix).1 == (CompletionOutcome {
                candidates: seq![lead_of(prefix) + m + end_mark(prefix, m)],
                display: seq![],
            })
        }),
{
}

/// Law: when several names complete a newly typed word and share a longer
/// prefix than its matched part, Tab completes the word to that shared
/// prefix, which starts with the typed text and is longer than it; nothing
/// is printed and the press is not counted.
pub proof fn law_shared_prefix_completes(
    st: CompletionState,
    builtins: Seq<Seq<char>>,
    scanned: Seq<Seq<char>>,
    prefix: Seq<char>,
)
    requires
        st.last_prefix != prefix,
        fresh_matches(builtins, scanned, prefix).len() >= 2,
        spec_lcp(fresh_matches(builtins, scanned, prefix)) != stem_of(prefix),
    ensures
        ({
            let m = fresh_matches(builtins, scanned, prefix);
            let c = lead_of(prefix) + spec_lcp(m);
            let (st1, out) = spec_complete(st, builtins, scanned, prefix);
            &&& out == (CompletionOutcome { candidates: seq![c], display: seq![] })
            &&& st1.tab_count == 0
            &&& is_prefix(prefix, c)
            &&& prefix.len() < c.len()
        }),
{
    let first = if completes_command(prefix) {
        builtins
    } else {
        seq![]
    };
    let stem = stem_of(prefix);
    let lead = lead_of(prefix);
    lemma_spec_matches(first, scanned, stem);
    lemma_lead_stem(prefix);
    let m = fresh_matches(builtins, scanned, prefix);
    assert forall|i: int| 0 <= i < m.len() implies is_prefix(stem, #[trigger] m[i]) by {
        assert(m.contains(m[i]));
    }
    lemma_spec_lcp(m);
    let l = spec_lcp(m);
    assert(common_prefix(stem, m));
    assert(is_prefix(l, m[0]));
    assert(l.take(stem.len() as int) =~= stem) by {
        assert(forall|j: int|
            0 <= j < stem.len() ==> l.take(stem.len() as int)[j] == m[0].take(l.len() as int)[j]);
    }
    if l.len() == stem.len() {
        assert(l =~= stem);
    }
    lemma_extends(lead, stem, l);
}

/// What the caller is to look up before a press of Tab.
pub enum Scan {
    /// Nothing: the names found last time are used again.
    Nothing,
    /// The names of the executable files on the search path.
    Executables,
    /// The entries of this directory, each directory's name followed by `/`.
    Directory(String),
}

/// The result of one press of Tab.
pub struct Completion {
    /// The replacements offered for the typed text.
    pub candidates: Vec<String>,
    /// What to print on the terminal.
    pub display: String,
}

/// What the completer remembers between presses of Tab.
struct Memory {
    last_prefix: String,
    last_matches: Vec<String>,
    tab_count: u8,
}

/// Completes command names (the builtins, and executables found on the
/// search path) and paths.
pub struct MyHelper {
    builtins: Vec<String>,
    memory: Memory,
}

/// The place just after the last `a` or `b` in `v` from `lo` on, counted
/// from the start of `v`.
fn after_last_from(v: &Vec<char>, lo: usize, a: char, b: char) -> (r: usize)
    requires
        lo <= v.len(),
    ensures
        r == lo + after_last(v@.skip(lo as int), a, b),
        r <= v.len(),
{
    let mut i = v.len();
    assert(v@.subrange(lo as int, i as int) =~= v@.skip(lo as int));
    while i > lo && v[i - 1] != a && v[i - 1] != b
        invariant
            lo <= i <= v.len(),
            after_last(v@.subrange(lo as int, i as int), a, b) == after_last(
                v@.skip(lo as int),
                a,
                b,
            ),
        decreases i,
    {
        assert(v@.subrange(lo as int, i as int).drop_last() =~= v@.subrange(
            lo as int,
            i - 1,
        ));
        i = i - 1;
    }
    if i == lo {
        assert(v@.subrange(lo as int, i as int) =~= Seq::<char>::empty());
        lo
    } else {
        i
    }
}

/// Whether a word after the first `end` characters of `v` names a command.
fn command_position_upto(v: &Vec<char>, end: usize) -> (r: bool)
    requires
        end <= v.len(),
    ensures
        r == command_position(v@.take(end as int)),
{
    let mut j = end;
    while j > 0 && v[j - 1] == ' '
        invariant
            j <= end <= v.len(),
            command_position(v@.take(j as int)) == command_position(v@.take(end as int)),
        decreases j,
    {
        assert(v@.take(j as int).drop_last() =~= v@.take(j - 1));
        j = j - 1;
    }
    j == 0 || v[j - 1] == '|'
}

/// The characters of `v` from `lo` up to `hi`, as a string.
fn sub_string(v: &Vec<char>, lo: usize, hi: usize) -> (s: String)
    requires
        lo <= hi <= v.len(),
    ensures
        s@ == v@.subrange(lo as int, hi as int),
{
    let mut s = String::new();
    let mut i = lo;
    while i < hi
        invariant
            lo <= i <= hi <= v.len(),
            s@ == v@.subrange(lo as int, i as int),
        decreases hi - i,
    {
        push_char(&mut s, v[i]);
        assert(v@.subrange(lo as int, i as int).push(v@[i as int]) =~= v@.subrange(
            lo as int,
            i + 1,
        ));
        i = i + 1;
    }
    s
}

/// How the typed text divides: whether it completes a command name, where
/// the word starts and where the matched part starts.
fn analyse(v: &Vec<char>) -> (r: (bool, usize, usize))
    ensures
        r.0 == completes_command(v@),
        r.1 == word_start(v@),
        r.2 == stem_start(v@),
        r.1 <= r.2 <= v.len(),
{
    let ws = after_last_from(v, 0, ' ', '|');
    assert(v@.skip(0) =~= v@);
    let ss = after_last_from(v, ws, '/', '/');
    let cp = command_position_upto(v, ws);
    (cp && ss == ws, ws, ss)
}

impl MyHelper {
    #[verifier::type_invariant]
    spec fn wf(self) -> bool {
        &&& completion_wf(self.state())
        &&& views(self.builtins@).no_duplicates()
    }

    /// The builtin names it completes.
    pub closed spec fn builtin_names(&self) -> Seq<Seq<char>> {
        views(self.builtins@)
    }

    /// What it remembers between presses of Tab.
    pub closed spec fn state(&self) -> CompletionState {
        CompletionState {
            last_prefix: self.memory.last_prefix@,
            last_matches: views(self.memory.last_matches@),
            tab_count: self.memory.tab_count as nat,
        }
    }

    /// A completer for the given builtin names, each kept once.
    pub fn new(builtins: Vec<String>) -> (h: Self)
        ensures
            h.builtin_names().no_duplicates(),
            forall|x: Seq<char>|
                #[trigger] h.builtin_names().contains(x) <==> views(builtins@).contains(x),
            h.state() == initial_completion_state(),
    {
        let ghost given = views(builtins@);
        let mut names: Vec<String> = Vec::new();
        assert(views(names@) =~= Seq::<Seq<char>>::empty());
        for i in 0..builtins.len()
            invariant
                given == views(builtins@),
                views(names@).no_duplicates(),
                forall|x: Seq<char>|
                    #[trigger] views(names@).contains(x) <==> given.take(i as int).contains(x),
        {
            let ghost before = views(names@);
            assert(given.take(i + 1) =~= given.take(i as int).push(given[i as int]));
            if !contains_str(&names, builtins[i].as_str()) {
                names.push(builtins[i].clone());
                assert(views(names@) =~= before.push(given[i as int]));
            }
            assert forall|x: Seq<char>|
                #[trigger] views(names@).contains(x) <==> given.take(i + 1).contains(x) by {
                lemma_push_contains(given.take(i as int), given[i as int], x);
                lemma_push_contains(before, given[i as int], x);
            }
        }
        assert(given.take(builtins.len() as int) =~= given);
        let builtins = names;
        let memory = Memory { last_prefix: String::new(), last_matches: Vec::new(), tab_count: 0 };
        assert(views(memory.last_matches@) =~= Seq::<Seq<char>>::empty());
        assert(memory.last_prefix@ =~= Seq::<char>::empty());
        proof {
            lemma_lead_stem(memory.last_prefix@);
        }
        MyHelper { builtins, memory }
    }

    /// The names among the builtins and `executables` (the names of the
    /// executable files found on the search path) that start with `prefix`,
    /// sorted, each once.
    pub fn find_matches(&self, prefix: &str, executables: &Vec<String>) -> (r: Vec<String>)
        ensures
            is_match_list(views(r@), self.builtin_names(), views(executables@), prefix@),
            views(r@) == spec_matches(self.builtin_names(), views(executables@), prefix@),
    {
        collect_matches(&self.builtins, executables, prefix)
    }

    /// What to look up before a press of Tab with `prefix` typed: nothing
    /// when it is what was typed last time; else the executables for a
    /// command name, or the entries of the directory of a path.
    pub fn what_to_scan(&self, prefix: &str) -> (r: Scan)
        ensures
            self.state().last_prefix == prefix@ ==> r is Nothing,
            self.state().last_prefix != prefix@ && completes_command(prefix@) ==> r is Executables,
            self.state().last_prefix != prefix@ && !completes_command(prefix@) ==> (
            r matches Scan::Directory(d) && d@ == scan_dir(prefix@)),
    {
        if same_chars(self.memory.last_prefix.as_str(), prefix) {
            return Scan::Nothing;
        }
        let v = chars_of(prefix);
        let (cmd, ws, ss) = analyse(&v);
        if cmd {
            Scan::Executables
        } else if ss > ws {
            let d = sub_string(&v, ws, ss);
            assert(d@ =~= current_word(prefix@).take(ss - ws));
            Scan::Directory(d)
        } else {
            let mut d = String::new();
            push_char(&mut d, '.');
            assert(d@ =~= seq!['.']);
            assert(current_word(prefix@).take(0) =~= Seq::<char>::empty());
            Scan::Directory(d)
        }
    }

    /// One press of Tab with `prefix` (the line up to the cursor) typed;
    /// `scanned` holds what `what_to_scan` asked for, and is looked at only
    /// when it asked for something.
    pub fn complete(&mut self, prefix: &str, scanned: &Vec<String>) -> (r: Completion)
        ensures
            final(self).builtin_names() == old(self).builtin_names(),
            (final(self).state(), CompletionOutcome {
                candidates: views(r.candidates@),
                display: r.display@,
            }) == spec_complete(
                old(self).state(),
                old(self).builtin_names(),
                views(scanned@),
                prefix@,
            ),
            forall|i: int|
                0 <= i < r.candidates.len() ==> is_prefix(prefix@, #[trigger] r.candidates@[i]@),
    {
        let ghost old_st = self.state();
        let ghost names = self.builtin_names();
        proof {
            use_type_invariant(&*self);
            law_candidates_extend_typed_text(old_st, names, views(scanned@), prefix@);
            lemma_lead_stem(prefix@);
        }
        let v = chars_of(prefix);
        let (cmd, _ws, ss) = analyse(&v);
        let lead = sub_string(&v, 0, ss);
        let stem = sub_string(&v, ss, v.len());
        assert(lead@ =~= lead_of(prefix@));
        assert(stem@ =~= stem_of(prefix@));
        let fresh = !same_chars(self.memory.last_prefix.as_str(), prefix);
        let matches: Vec<String>;
        let t0: u8;
        if fresh {
            if cmd {
                matches = collect_matches(&self.builtins, scanned, stem.as_str());
            } else {
                let nothing: Vec<String> = Vec::new();
                assert(views(nothing@) =~= Seq::<Seq<char>>::empty());
                matches = collect_matches(&nothing, scanned, stem.as_str());
            }
            t0 = 0;
        } else {
            matches = clone_from(&self.memory.last_matches, 0);
            assert(views(self.memory.last_matches@).skip(0) =~= views(self.memory.last_matches@));
            t0 = self.memory.tab_count;
        }
        let ghost m = views(matches@);
        let n = matches.len();
        let mut candidates: Vec<String> = Vec::new();
        let mut display = String::new();
        let mut t1 = t0;
        if n == 1 {
            let mut only = lead.clone();
            push_str(&mut only, matches[0].as_str());
            let w = chars_of(matches[0].as_str());
            if !(!cmd && w.len() > 0 && w[w.len() - 1] == '/') {
                push_char(&mut only, ' ');
            }
            assert(only@ =~= lead_of(prefix@) + m[0] + end_mark(prefix@, m[0]));
            candidates.push(only);
        } else if n > 1 {
            let lcf = longest_common_prefix(matches.as_slice());
            if !same_chars(lcf.as_str(), stem.as_str()) {
                let mut c = lead.clone();
                push_str(&mut c, lcf.as_str());
                candidates.push(c);
            } else {
                if t1 < 2 {
                    t1 = t1 + 1;
                }
                if t1 == 1 {
                    push_char(&mut display, '\u{7}');
                    assert(display@ =~= bell());
                } else if t1 == 2 {
                    push_char(&mut display, '\n');
                    let all = join(&matches, "  ");
                    push_str(&mut display, all.as_str());
                    push_char(&mut display, '\n');
                    push_char(&mut display, '$');
                    push_char(&mut display, ' ');
                    push_str(&mut display, prefix);
                    proof {
                        reveal_strlit("  ");
                        assert("  "@ =~= seq![' ', ' ']);
                    }
                    assert(display@ =~= listing(m, prefix@));
                }
            }
        }
        assert(display@.len() == 0 ==> display@ =~= Seq::<char>::empty());
        assert(views(candidates@).len() == 0 ==> views(candidates@) =~= Seq::<Seq<char>>::empty());
        assert(views(candidates@).len() == 1 ==> views(candidates@) =~= seq![candidates@[0]@]);
        let memory = Memory { last_prefix: owned(prefix), last_matches: matches, tab_count: t1 };
        let ghost next = CompletionState {
            last_prefix: memory.last_prefix@,
            last_matches: views(memory.last_matches@),
            tab_count: memory.tab_count as nat,
        };
        let ghost outcome = CompletionOutcome { candidates: views(candidates@), display: display@ };
        assert((next, outcome) == spec_complete(old_st, names, views(scanned@), prefix@));
        proof {
            law_completion_state_stays_wf(old_st, names, views(scanned@), prefix@);
            assert forall|i: int| 0 <= i < candidates.len() implies is_prefix(
                prefix@,
                #[trigger] candidates@[i]@,
            ) by {
                assert(spec_complete(old_st, names, views(scanned@), prefix@).1.candidates[i]
                    == candidates@[i]@);
            }
        }
        self.memory = memory;
        Completion { candidates, display }
    }
}

} // verus!
