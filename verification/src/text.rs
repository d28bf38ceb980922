//! Character-level helpers on strings.

use vstd::prelude::*;

verus! {

/// Appends one character to a string by `String::push`. Trusted: the
/// contract claims that afterwards the string holds its former characters
/// followed by `c`, which is what the standard library documents.
#[verifier::external_body]
pub(crate) fn push_char(s: &mut String, c: char)
    ensures
        final(s)@ == old(s)@.push(c),
{
    s.push(c);
}

/// The characters of a string, in order.
pub fn chars_of(s: &str) -> (r: Vec<char>)
    ensures
        r@ == s@,
{
    broadcast use vstd::string::axiom_spec_iter;
    let mut r: Vec<char> = Vec::new();
    for c in it: s.chars()
        invariant
            r@ == it.seq().take(it.index() as int),
    {
        r.push(c);
    }
    r
}

} // verus!

verus! {

/// The character sequences of a sequence of strings.
pub open spec fn views(v: Seq<String>) -> Seq<Seq<char>> {
    v.map_values(|s: String| s@)
}

/// A string holding the given characters.
pub fn string_of(v: &Vec<char>) -> (s: String)
    ensures
        s@ == v@,
{
    let mut s = String::new();
    for i in 0..v.len()
        invariant
            s@ == v@.take(i as int),
    {
        push_char(&mut s, v[i]);
        assert(v@.take(i as int).push(v@[i as int]) =~= v@.take(i + 1));
    }
    assert(v@.take(v.len() as int) =~= v@);
    s
}

/// Whether two strings hold the same characters.
pub fn same_chars(a: &str, b: &str) -> (r: bool)
    ensures
        r == (a@ == b@),
{
    let x = chars_of(a);
    let y = chars_of(b);
    if x.len() != y.len() {
        return false;
    }
    for i in 0..x.len()
        invariant
            x@ == a@,
            y@ == b@,
            x.len() == y.len(),
            forall|j: int| 0 <= j < i ==> x@[j] == y@[j],
    {
        if x[i] != y[i] {
            return false;
        }
    }
    assert(x@ =~= y@);
    true
}

/// A string literal as an owned string.
pub fn owned(s: &str) -> (r: String)
    ensures
        r@ == s@,
{
    s.to_owned()
}

/// Appends the characters of `t` to `s`.
pub fn push_str(s: &mut String, t: &str)
    ensures
        final(s)@ == old(s)@ + t@,
{
    s.append(t);
}

} // verus!

verus! {

/// `p` is a prefix of `w`.
pub open spec fn is_prefix(p: Seq<char>, w: Seq<char>) -> bool {
    p.len() <= w.len() && w.take(p.len() as int) == p
}

/// Whether `w` starts with `p`.
pub fn starts_with(w: &Vec<char>, p: &Vec<char>) -> (r: bool)
    ensures
        r == is_prefix(p@, w@),
{
    if p.len() > w.len() {
        return false;
    }
    for i in 0..p.len()
        invariant
            p.len() <= w.len(),
            forall|j: int| 0 <= j < i ==> w@[j] == p@[j],
    {
        if w[i] != p[i] {
            assert(w@.take(p.len() as int)[i as int] != p@[i as int]);
            return false;
        }
    }
    assert(w@.take(p.len() as int) =~= p@);
    true
}

} // verus!


verus! {

/// The strings of `list` with `sep` between each two.
pub open spec fn spec_join(list: Seq<Seq<char>>, sep: Seq<char>) -> Seq<char>
    decreases list.len(),
{
    if list.len() == 0 {
        seq![]
    } else if list.len() == 1 {
        list[0]
    } else {
        spec_join(list.drop_last(), sep) + sep + list.last()
    }
}

/// Joins the strings of `list`, putting `sep` between each two.
pub fn join(list: &Vec<String>, sep: &str) -> (r: String)
    ensures
        r@ == spec_join(views(list@), sep@),
{
    let ghost ls = views(list@);
    let mut r = String::new();
    assert(ls.take(0) =~= Seq::<Seq<char>>::empty());
    for i in 0..list.len()
        invariant
            ls == views(list@),
            r@ == spec_join(ls.take(i as int), sep@),
    {
        assert(ls.take(i + 1).drop_last() =~= ls.take(i as int));
        if i > 0 {
            push_str(&mut r, sep);
        } else {
            assert(r@ =~= Seq::<char>::empty());
        }
        push_str(&mut r, list[i].as_str());
        assert(ls.take(i + 1).last() == list@[i as int]@);
        if i == 0 {
            assert(Seq::<char>::empty() + list@[0]@ =~= list@[0]@);
        }
    }
    assert(ls.take(list.len() as int) =~= ls);
    r
}

} // verus!

verus! {

/// What a sequence holds after one more item.
pub proof fn lemma_push_contains<A>(s: Seq<A>, w: A, x: A)
    ensures
        s.push(w).contains(x) <==> (s.contains(x) || x == w),
{
    if s.push(w).contains(x) {
        let k = choose|k: int| 0 <= k < s.push(w).len() && s.push(w)[k] == x;
        if k < s.len() {
            assert(s[k] == x);
        }
    }
    if s.contains(x) {
        let k = choose|k: int| 0 <= k < s.len() && s[k] == x;
        assert(s.push(w)[k] == x);
    }
    if x == w {
        assert(s.push(w)[s.len() as int] == x);
    }
}

} // verus!

verus! {

/// The character of a decimal digit.
pub open spec fn digit_char(d: nat) -> char {
    ((48 + d) as u8) as char
}

/// The decimal representation of `n`, without leading zeros.
pub open spec fn spec_decimal(n: nat) -> Seq<char>
    decreases n,
{
    if n < 10 {
        seq![digit_char(n)]
    } else {
        spec_decimal(n / 10).push(digit_char(n % 10))
    }
}

/// Appends the decimal representation of `n`.
pub fn push_decimal(s: &mut String, n: usize)
    ensures
        final(s)@ == old(s)@ + spec_decimal(n as nat),
    decreases n,
{
    if n < 10 {
        let c = ((48 + n) as u8) as char;
        push_char(s, c);
        assert(old(s)@.push(c) =~= old(s)@ + seq![c]);
    } else {
        push_decimal(s, n / 10);
        let d = n % 10;
        let c = ((48 + d) as u8) as char;
        let ghost mid = s@;
        push_char(s, c);
        assert(mid.push(c) =~= old(s)@ + spec_decimal(n as nat));
    }
}

} // verus!

verus! {

/// A decimal digit.
pub open spec fn is_digit(c: char) -> bool {
    48 <= (c as int) <= 57
}

/// The number written by a string of decimal digits.
pub open spec fn digits_value(s: Seq<char>) -> nat
    decreases s.len(),
{
    if s.len() == 0 {
        0
    } else {
        digits_value(s.drop_last()) * 10 + ((s.last() as int) - 48) as nat
    }
}

/// The digits of an unsigned number: the text after an optional `+`.
pub open spec fn unsigned_body(s: Seq<char>) -> Seq<char> {
    if s.len() > 0 && s[0] == '+' {
        s.drop_first()
    } else {
        s
    }
}

/// What parsing `s` as a `usize` gives: an optional `+` followed by at least
/// one decimal digit and nothing else, whose value fits.
pub open spec fn spec_parse_usize(s: Seq<char>) -> Option<nat> {
    let b = unsigned_body(s);
    if b.len() > 0 && (forall|i: int| 0 <= i < b.len() ==> is_digit(#[trigger] b[i]))
        && digits_value(b) <= usize::MAX {
        Some(digits_value(b))
    } else {
        None
    }
}

proof fn lemma_digits_value_grows(s: Seq<char>, k: int)
    requires
        0 <= k <= s.len(),
        forall|i: int| 0 <= i < s.len() ==> is_digit(#[trigger] s[i]),
    ensures
        digits_value(s.take(k)) <= digits_value(s),
    decreases s.len() - k,
{
    if k < s.len() {
        lemma_digits_value_grows(s, k + 1);
        assert(s.take(k + 1).drop_last() =~= s.take(k));
    } else {
        assert(s.take(k) =~= s);
    }
}

/// Parses a decimal `usize`, as `str::parse::<usize>` does.
pub fn parse_usize(s: &str) -> (r: Option<usize>)
    ensures
        match r {
            Some(v) => spec_parse_usize(s@) == Some(v as nat),
            None => spec_parse_usize(s@) is None,
        },
{
    let cs = chars_of(s);
    let mut start: usize = 0;
    if cs.len() > 0 && cs[0] == '+' {
        start = 1;
    }
    let ghost b = unsigned_body(s@);
    assert(b =~= cs@.skip(start as int));
    if start >= cs.len() {
        return None;
    }
    let mut i = start;
    let mut v: usize = 0;
    assert(b.take(0) =~= Seq::<char>::empty());
    while i < cs.len()
        invariant
            cs@ == s@,
            b == cs@.skip(start as int),
            b == unsigned_body(s@),
            start <= i <= cs.len(),
            forall|j: int| 0 <= j < i - start ==> is_digit(#[trigger] b[j]),
            v as nat == digits_value(b.take(i - start)),
        decreases cs.len() - i,
    {
        let c = cs[i];
        assert(b[i - start] == c);
        if !(c >= '0' && c <= '9') {
            assert(!is_digit(b[i - start]));
            return None;
        }
        let d = (c as u32 - '0' as u32) as usize;
        assert(d as int == (c as int) - 48);
        assert(is_digit(c));
        assert(b.take(i + 1 - start).drop_last() =~= b.take(i - start));
        match v.checked_mul(10) {
            Some(t) => match t.checked_add(d) {
                Some(u) => {
                    v = u;
                },
                None => {
                    proof {
                        let k = i + 1 - start;
                        assert(b.take(k).last() == c);
                        assert(digits_value(b.take(k)) == digits_value(b.take(k).drop_last()) * 10
                            + ((c as int) - 48) as nat);
                        assert(t + d > usize::MAX);
                        if forall|j: int| 0 <= j < b.len() ==> is_digit(#[trigger] b[j]) {
                            lemma_digits_value_grows(b, k);
                        }
                    }
                    return None;
                },
            },
            None => {
                proof {
                    let k = i + 1 - start;
                    assert(b.take(k).last() == c);
                    assert(digits_value(b.take(k)) == digits_value(b.take(k).drop_last()) * 10 + (
                    (c as int) - 48) as nat);
                    assert(v * 10 > usize::MAX);
                    if forall|j: int| 0 <= j < b.len() ==> is_digit(#[trigger] b[j]) {
                        lemma_digits_value_grows(b, k);
                    }
                }
                return None;
            },
        }
        i = i + 1;
    }
    assert(b.take(i - start) =~= b);
    Some(v)
}

} // verus!

verus! {

/// Whether `list` holds a string with the characters of `s`.
pub fn contains_str(list: &Vec<String>, s: &str) -> (r: bool)
    ensures
        r == views(list@).contains(s@),
{
    let ghost ls = views(list@);
    for i in 0..list.len()
        invariant
            ls == views(list@),
            forall|j: int| 0 <= j < i ==> ls[j] != s@,
    {
        if same_chars(list[i].as_str(), s) {
            assert(ls[i as int] == s@);
            return true;
        }
    }
    false
}

/// A copy of the strings of `v` from index `from` on.
pub fn clone_from(v: &Vec<String>, from: usize) -> (r: Vec<String>)
    requires
        from <= v.len(),
    ensures
        views(r@) == views(v@).skip(from as int),
{
    let ghost vs = views(v@);
    let mut r: Vec<String> = Vec::new();
    let mut i = from;
    assert(views(r@) =~= vs.subrange(from as int, from as int));
    while i < v.len()
        invariant
            vs == views(v@),
            from <= i <= v.len(),
            views(r@) == vs.subrange(from as int, i as int),
        decreases v.len() - i,
    {
        let ghost before = views(r@);
        r.push(v[i].clone());
        assert(views(r@) =~= before.push(vs[i as int]));
        assert(vs.subrange(from as int, i + 1) =~= vs.subrange(from as int, i as int).push(
            vs[i as int],
        ));
        i = i + 1;
    }
    assert(vs.subrange(from as int, v.len() as int) =~= vs.skip(from as int));
    r
}

} // verus!
