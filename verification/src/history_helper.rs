//! The command history: every line entered, and those not yet appended to
//! a history file.

use vstd::prelude::*;
use crate::text::{chars_of, push_char, push_decimal, push_str, spec_decimal, views};

verus! {

/// A line without the carriage return that ends it, if any.
pub open spec fn strip_cr(l: Seq<char>) -> Seq<char> {
    if l.len() > 0 && l.last() == '\r' {
        l.drop_last()
    } else {
        l
    }
}

/// The lines completed, and the line being read, after reading `s`.
pub open spec fn lines_acc(s: Seq<char>) -> (Seq<Seq<char>>, Seq<char>)
    decreases s.len(),
{
    if s.len() == 0 {
        (seq![], seq![])
    } else {
        let (done, cur) = lines_acc(s.drop_last());
        if s.last() == '\n' {
            (done.push(strip_cr(cur)), seq![])
        } else {
            (done, cur.push(s.last()))
        }
    }
}

/// The lines of a text, as `str::lines` gives them: split at each `\n`, a
/// `\r` right before it dropped, and no empty line after a final `\n`.
pub open spec fn spec_lines(s: Seq<char>) -> Seq<Seq<char>> {
    let (done, cur) = lines_acc(s);
    if cur.len() > 0 {
        done.push(cur)
    } else {
        done
    }
}

/// Each line followed by a newline, as a history file holds them.
pub open spec fn file_text(lines: Seq<Seq<char>>) -> Seq<char>
    decreases lines.len(),
{
    if lines.len() == 0 {
        seq![]
    } else {
        file_text(lines.drop_last()) + lines.last() + seq!['\n']
    }
}

/// The listing of entry `i` (counted from zero): a tab, its number counted
/// from one, two spaces, the line, and a newline.
pub open spec fn listing_line(entries: Seq<Seq<char>>, i: int) -> Seq<char> {
    seq!['\t'] + spec_decimal((i + 1) as nat) + seq![' ', ' '] + entries[i] + seq!['\n']
}

/// The listing of entries `start` up to `end`.
pub open spec fn listing_range(entries: Seq<Seq<char>>, start: int, end: int) -> Seq<char>
    decreases end - start,
{
    if end <= start {
        seq![]
    } else {
        listing_range(entries, start, end - 1) + listing_line(entries, end - 1)
    }
}

/// The first entry listed when the last `n` are asked for (all when `n` is
/// absent).
pub open spec fn listing_start(total: nat, n: Option<usize>) -> nat {
    let k: nat = match n {
        Some(k) => k as nat,
        None => total,
    };
    if total >= k {
        (total - k) as nat
    } else {
        0
    }
}

/// A history entry that a history file keeps as it is: it holds no newline
/// and does not end in a carriage return.
pub open spec fn storable(l: Seq<char>) -> bool {
    (forall|i: int| 0 <= i < l.len() ==> l[i] != '\n') && !(l.len() > 0 && l.last() == '\r')
}

proof fn lemma_lines_acc_append(t: Seq<char>, e: Seq<char>)
    requires
        forall|i: int| 0 <= i < e.len() ==> e[i] != '\n',
    ensures
        lines_acc(t + e) == (lines_acc(t).0, lines_acc(t).1 + e),
    decreases e.len(),
{
    if e.len() == 0 {
        assert(t + e =~= t);
        assert(lines_acc(t).1 + e =~= lines_acc(t).1);
    } else {
        lemma_lines_acc_append(t, e.drop_last());
        assert((t + e).drop_last() =~= t + e.drop_last());
        assert((t + e).last() == e.last());
        assert((lines_acc(t).1 + e.drop_last()).push(e.last()) =~= lines_acc(t).1 + e);
    }
}

proof fn lemma_lines_of_file_text(es: Seq<Seq<char>>)
    requires
        forall|i: int| 0 <= i < es.len() ==> storable(#[trigger] es[i]),
    ensures
        lines_acc(file_text(es)) == (es, Seq::<char>::empty()),
    decreases es.len(),
{
    if es.len() == 0 {
        assert(es =~= Seq::<Seq<char>>::empty());
    } else {
        let p = es.drop_last();
        assert(forall|i: int| 0 <= i < p.len() ==> p[i] == es[i]);
        lemma_lines_of_file_text(p);
        let last = es.last();
        assert(storable(es[es.len() - 1]));
        lemma_lines_acc_append(file_text(p), last);
        let t = file_text(p) + last;
        assert(file_text(es) =~= t.push('\n'));
        assert(t.push('\n').drop_last() =~= t);
        assert(Seq::<char>::empty() + last =~= last);
        assert(p.push(last) =~= es);
    }
}

/// Law: writing a history to a file and reading the file back gives the
/// same entries, for entries that hold no newline and do not end in a
/// carriage return.
pub proof fn law_history_file_roundtrip(es: Seq<Seq<char>>)
    requires
        forall|i: int| 0 <= i < es.len() ==> storable(#[trigger] es[i]),
    ensures
        spec_lines(file_text(es)) == es,
{
    lemma_lines_of_file_text(es);
}

/// Law: a history file written in pieces, one append after another, holds
/// the same text as one written at once with all the lines.
pub proof fn law_appends_concatenate(a: Seq<Seq<char>>, b: Seq<Seq<char>>)
    ensures
        file_text(a + b) == file_text(a) + file_text(b),
    decreases b.len(),
{
    if b.len() == 0 {
        assert(a + b =~= a);
        assert(file_text(a) + file_text(b) =~= file_text(a));
    } else {
        law_appends_concatenate(a, b.drop_last());
        assert((a + b).drop_last() =~= a + b.drop_last());
        assert((a + b).last() == b.last());
        assert(file_text(a) + file_text(b) =~= file_text(a) + file_text(b.drop_last()) + b.last()
            + seq!['\n']);
    }
}

/// Every line entered, in order, and those not yet appended to a file.
pub struct History {
    history: Vec<String>,
    new_commands: Vec<String>,
}

impl History {
    /// Every line recorded, in order.
    pub closed spec fn entries(&self) -> Seq<Seq<char>> {
        views(self.history@)
    }

    /// The lines entered since the history was last appended to a file.
    pub closed spec fn new_entries(&self) -> Seq<Seq<char>> {
        views(self.new_commands@)
    }

    /// An empty history.
    pub fn new() -> (h: Self)
        ensures
            h.entries() == Seq::<Seq<char>>::empty(),
            h.new_entries() == Seq::<Seq<char>>::empty(),
    {
        let h = History { history: Vec::new(), new_commands: Vec::new() };
        assert(views(h.history@) =~= Seq::<Seq<char>>::empty());
        assert(views(h.new_commands@) =~= Seq::<Seq<char>>::empty());
        h
    }

    /// Adds the lines of a history file's contents (the file itself is read
    /// by the caller; a file that cannot be read adds nothing).
    pub fn read_from_file(&mut self, contents: &str)
        ensures
            final(self).entries() == old(self).entries() + spec_lines(contents@),
            final(self).new_entries() == old(self).new_entries(),
    {
        let cs = chars_of(contents);
        let ghost start = views(self.history@);
        let mut cur = String::new();
        assert(cs@.take(0) =~= Seq::<char>::empty());
        assert(start + Seq::<Seq<char>>::empty() =~= start);
        for i in 0..cs.len()
            invariant
                cs@ == contents@,
                views(self.history@) == start + lines_acc(cs@.take(i as int)).0,
                cur@ == lines_acc(cs@.take(i as int)).1,
                self.new_entries() == old(self).new_entries(),
                start == old(self).entries(),
        {
            let c = cs[i];
            assert(cs@.take(i + 1).drop_last() =~= cs@.take(i as int));
            assert(cs@.take(i + 1).last() == c);
            if c == '\n' {
                let ghost before = views(self.history@);
                let ghost line = strip_cr(cur@);
                let cv = chars_of(cur.as_str());
                let mut line_chars = cv;
                if line_chars.len() > 0 && line_chars[line_chars.len() - 1] == '\r' {
                    line_chars.pop();
                    assert(line_chars@ =~= cur@.drop_last());
                }
                let l = crate::text::string_of(&line_chars);
                self.history.push(l);
                assert(views(self.history@) =~= before.push(line));
                assert(start + lines_acc(cs@.take(i as int)).0.push(line) =~= before.push(line));
                cur = String::new();
            } else {
                push_char(&mut cur, c);
            }
        }
        assert(cs@.take(cs.len() as int) =~= cs@);
        if !cur.as_str().is_empty() {
            let ghost before = views(self.history@);
            let ghost last = cur@;
            self.history.push(cur);
            assert(views(self.history@) =~= before.push(last));
        }
        assert(views(self.history@) =~= start + spec_lines(contents@));
    }

    /// Records an entered line.
    pub fn add_command(&mut self, cmd: String)
        ensures
            final(self).entries() == old(self).entries().push(cmd@),
            final(self).new_entries() == old(self).new_entries().push(cmd@),
    {
        let ghost e = views(self.history@);
        let ghost n = views(self.new_commands@);
        self.history.push(cmd.clone());
        self.new_commands.push(cmd);
        assert(views(self.history@) =~= e.push(cmd@));
        assert(views(self.new_commands@) =~= n.push(cmd@));
    }

    /// The listing of the last `n` entries (all of them when `n` is absent),
    /// each numbered by its place in the whole history.
    pub fn print(&self, n: Option<usize>) -> (out: String)
        ensures
            out@ == listing_range(
                self.entries(),
                listing_start(self.entries().len(), n) as int,
                self.entries().len() as int,
            ),
    {
        let total = self.history.len();
        let k = match n {
            Some(k) => k,
            None => total,
        };
        let start = total.saturating_sub(k);
        let ghost es = views(self.history@);
        let mut out = String::new();
        let mut i = start;
        while i < total
            invariant
                es == views(self.history@),
                total == self.history.len(),
                start <= i <= total,
                start == listing_start(es.len(), n),
                out@ == listing_range(es, start as int, i as int),
            decreases total - i,
        {
            let ghost before = out@;
            push_char(&mut out, '\t');
            push_decimal(&mut out, i + 1);
            push_char(&mut out, ' ');
            push_char(&mut out, ' ');
            push_str(&mut out, self.history[i].as_str());
            push_char(&mut out, '\n');
            assert(out@ =~= before + listing_line(es, i as int));
            i = i + 1;
        }
        out
    }

    /// The text of a history file holding every entry.
    pub fn write_all(&self) -> (text: String)
        ensures
            text@ == file_text(self.entries()),
    {
        lines_text(&self.history)
    }

    /// The text to append to a history file: the lines entered since the
    /// last append. They are then no longer new.
    pub fn append_new(&mut self) -> (text: String)
        ensures
            text@ == file_text(old(self).new_entries()),
            final(self).new_entries() == Seq::<Seq<char>>::empty(),
            final(self).entries() == old(self).entries(),
    {
        let text = lines_text(&self.new_commands);
        self.new_commands.clear();
        assert(views(self.new_commands@) =~= Seq::<Seq<char>>::empty());
        text
    }
}

/// Each line followed by a newline.
fn lines_text(lines: &Vec<String>) -> (text: String)
    ensures
        text@ == file_text(views(lines@)),
{
    let ghost ls = views(lines@);
    let mut text = String::new();
    assert(ls.take(0) =~= Seq::<Seq<char>>::empty());
    for i in 0..lines.len()
        invariant
            ls == views(lines@),
            text@ == file_text(ls.take(i as int)),
    {
        assert(ls.take(i + 1).drop_last() =~= ls.take(i as int));
        push_str(&mut text, lines[i].as_str());
        push_char(&mut text, '\n');
        assert(text@ =~= file_text(ls.take(i + 1)));
    }
    assert(ls.take(lines.len() as int) =~= ls);
    text
}

} // verus!
