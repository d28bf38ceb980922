//! Lexicographic order on strings (by code point, which is the order of
//! their UTF-8 bytes) and sorted lists of distinct strings.

use vstd::prelude::*;
use crate::text::{chars_of, views};

verus! {

/// `a` comes strictly before `b` in lexicographic order by code point; a
/// proper prefix comes first.
pub open spec fn lex_lt(a: Seq<char>, b: Seq<char>) -> bool
    decreases a.len(),
{
    if b.len() == 0 {
        false
    } else if a.len() == 0 {
        true
    } else if a[0] != b[0] {
        (a[0] as int) < (b[0] as int)
    } else {
        lex_lt(a.drop_first(), b.drop_first())
    }
}

/// Every string comes strictly before the later ones: sorted, with no
/// string twice.
pub open spec fn strictly_sorted(v: Seq<Seq<char>>) -> bool {
    forall|i: int, j: int| 0 <= i < j < v.len() ==> lex_lt(#[trigger] v[i], #[trigger] v[j])
}

pub proof fn lemma_lex_irreflexive(a: Seq<char>)
    ensures
        !lex_lt(a, a),
    decreases a.len(),
{
    if a.len() > 0 {
        lemma_lex_irreflexive(a.drop_first());
    }
}

pub proof fn lemma_lex_transitive(a: Seq<char>, b: Seq<char>, c: Seq<char>)
    requires
        lex_lt(a, b),
        lex_lt(b, c),
    ensures
        lex_lt(a, c),
    decreases a.len(),
{
    if a.len() > 0 && b.len() > 0 && c.len() > 0 {
        if a[0] == b[0] && b[0] == c[0] {
            lemma_lex_transitive(a.drop_first(), b.drop_first(), c.drop_first());
        }
    }
}

pub proof fn lemma_lex_total(a: Seq<char>, b: Seq<char>)
    ensures
        a == b || lex_lt(a, b) || lex_lt(b, a),
    decreases a.len(),
{
    if a.len() > 0 && b.len() > 0 {
        if a[0] == b[0] {
            lemma_lex_total(a.drop_first(), b.drop_first());
            if a.drop_first() == b.drop_first() {
                assert(a =~= seq![a[0]] + a.drop_first());
                assert(b =~= seq![b[0]] + b.drop_first());
            }
        } else {
        }
    } else if a.len() == 0 && b.len() == 0 {
        assert(a =~= b);
    }
}

/// Two strictly sorted lists with the same strings are the same list.
pub proof fn lemma_sorted_unique(a: Seq<Seq<char>>, b: Seq<Seq<char>>)
    requires
        strictly_sorted(a),
        strictly_sorted(b),
        forall|x: Seq<char>| a.contains(x) <==> b.contains(x),
    ensures
        a == b,
    decreases a.len(),
{
    if a.len() == 0 {
        if b.len() > 0 {
            assert(b.contains(b[0]));
        }
        assert(b =~= a);
    } else if b.len() == 0 {
        assert(a.contains(a[0]));
    } else {
        assert(a.contains(a[0]));
        assert(b.contains(b[0]));
        let i = choose|i: int| 0 <= i < b.len() && b[i] == a[0];
        let j = choose|j: int| 0 <= j < a.len() && a[j] == b[0];
        if i > 0 {
            assert(lex_lt(b[0], b[i]));
            if j > 0 {
                assert(lex_lt(a[0], a[j]));
                lemma_lex_transitive(a[0], b[0], a[0]);
                lemma_lex_irreflexive(a[0]);
            } else {
                lemma_lex_irreflexive(a[0]);
            }
        }
        assert(a[0] == b[0]);
        let a1 = a.drop_first();
        let b1 = b.drop_first();
        assert forall|x: Seq<char>| a1.contains(x) implies b1.contains(x) by {
            let k = choose|k: int| 0 <= k < a1.len() && a1[k] == x;
            assert(a.contains(a[k + 1]));
            let m = choose|m: int| 0 <= m < b.len() && b[m] == x;
            if m == 0 {
                assert(lex_lt(a[0], a[k + 1]));
                lemma_lex_irreflexive(a[0]);
            }
            assert(b1[m - 1] == x);
        }
        assert forall|x: Seq<char>| b1.contains(x) implies a1.contains(x) by {
            let k = choose|k: int| 0 <= k < b1.len() && b1[k] == x;
            assert(b.contains(b[k + 1]));
            let m = choose|m: int| 0 <= m < a.len() && a[m] == x;
            if m == 0 {
                assert(lex_lt(b[0], b[k + 1]));
                lemma_lex_irreflexive(b[0]);
            }
            assert(a1[m - 1] == x);
        }
        lemma_sorted_unique(a1, b1);
        assert(a =~= seq![a[0]] + a1);
        assert(b =~= seq![b[0]] + b1);
    }
}

/// `m` with `w` added where it belongs, unless it is already there.
pub open spec fn sorted_insert(m: Seq<Seq<char>>, w: Seq<char>) -> Seq<Seq<char>>
    decreases m.len(),
{
    if m.len() == 0 {
        seq![w]
    } else if m[0] == w {
        m
    } else if lex_lt(w, m[0]) {
        seq![w] + m
    } else {
        seq![m[0]] + sorted_insert(m.drop_first(), w)
    }
}

pub proof fn lemma_sorted_insert(m: Seq<Seq<char>>, w: Seq<char>)
    requires
        strictly_sorted(m),
    ensures
        strictly_sorted(sorted_insert(m, w)),
        forall|x: Seq<char>| #[trigger]
            sorted_insert(m, w).contains(x) <==> (m.contains(x) || x == w),
    decreases m.len(),
{
    let r = sorted_insert(m, w);
    if m.len() == 0 {
        assert forall|x: Seq<char>| #[trigger] r.contains(x) <==> (m.contains(x) || x == w) by {
            if r.contains(x) {
                let k = choose|k: int| 0 <= k < r.len() && r[k] == x;
            }
            if x == w {
                assert(r[0] == w);
            }
        }
    } else if m[0] == w {
        assert forall|x: Seq<char>| #[trigger] r.contains(x) <==> (m.contains(x) || x == w) by {
            if x == w {
                assert(m[0] == x);
            }
        }
    } else if lex_lt(w, m[0]) {
        assert forall|i: int, j: int| 0 <= i < j < r.len() implies lex_lt(
            #[trigger] r[i],
            #[trigger] r[j],
        ) by {
            if i == 0 {
                if j > 1 {
                    assert(lex_lt(m[0], m[j - 1]));
                    lemma_lex_transitive(w, m[0], m[j - 1]);
                }
            } else {
                assert(lex_lt(m[i - 1], m[j - 1]));
            }
        }
        assert forall|x: Seq<char>| #[trigger] r.contains(x) <==> (m.contains(x) || x == w) by {
            if r.contains(x) {
                let k = choose|k: int| 0 <= k < r.len() && r[k] == x;
                if k > 0 {
                    assert(m[k - 1] == x);
                }
            }
            if m.contains(x) {
                let k = choose|k: int| 0 <= k < m.len() && m[k] == x;
                assert(r[k + 1] == x);
            }
            if x == w {
                assert(r[0] == x);
            }
        }
    } else {
        let t = m.drop_first();
        assert(strictly_sorted(t)) by {
            assert forall|i: int, j: int| 0 <= i < j < t.len() implies lex_lt(
                #[trigger] t[i],
                #[trigger] t[j],
            ) by {
                assert(lex_lt(m[i + 1], m[j + 1]));
            }
        }
        lemma_sorted_insert(t, w);
        let rest = sorted_insert(t, w);
        lemma_lex_total(w, m[0]);
        assert forall|j: int| 0 <= j < rest.len() implies lex_lt(m[0], #[trigger] rest[j]) by {
            assert(rest.contains(rest[j]));
            if rest[j] != w {
                assert(t.contains(rest[j]));
                let k = choose|k: int| 0 <= k < t.len() && t[k] == rest[j];
                assert(lex_lt(m[0], m[k + 1]));
            }
        }
        assert forall|i: int, j: int| 0 <= i < j < r.len() implies lex_lt(
            #[trigger] r[i],
            #[trigger] r[j],
        ) by {
            if i == 0 {
                assert(r[j] == rest[j - 1]);
            } else {
                assert(r[i] == rest[i - 1]);
                assert(r[j] == rest[j - 1]);
            }
        }
        assert forall|x: Seq<char>| #[trigger] r.contains(x) <==> (m.contains(x) || x == w) by {
            if r.contains(x) {
                let k = choose|k: int| 0 <= k < r.len() && r[k] == x;
                if k > 0 {
                    assert(rest[k - 1] == x);
                    assert(rest.contains(x));
                    if x != w {
                        let q = choose|q: int| 0 <= q < t.len() && t[q] == x;
                        assert(m[q + 1] == x);
                    }
                } else {
                    assert(m[0] == x);
                }
            }
            if m.contains(x) {
                let k = choose|k: int| 0 <= k < m.len() && m[k] == x;
                if k == 0 {
                    assert(r[0] == x);
                } else {
                    assert(t[k - 1] == x);
                    assert(t.contains(x));
                    assert(rest.contains(x));
                    let q = choose|q: int| 0 <= q < rest.len() && rest[q] == x;
                    assert(r[q + 1] == x);
                }
            }
            if x == w {
                assert(rest.contains(x));
                let q = choose|q: int| 0 <= q < rest.len() && rest[q] == x;
                assert(r[q + 1] == x);
            }
        }
    }
}

/// Whether `a` comes strictly before `b`.
pub fn lex_less(a: &str, b: &str) -> (r: bool)
    ensures
        r == lex_lt(a@, b@),
{
    let x = chars_of(a);
    let y = chars_of(b);
    let mut i: usize = 0;
    proof {
        assert(x@.skip(0) =~= x@);
        assert(y@.skip(0) =~= y@);
    }
    while i < x.len() && i < y.len() && x[i] == y[i]
        invariant
            x@ == a@,
            y@ == b@,
            0 <= i <= x.len(),
            i <= y.len(),
            lex_lt(x@.skip(i as int), y@.skip(i as int)) == lex_lt(a@, b@),
        decreases x.len() - i,
    {
        assert(x@.skip(i as int).drop_first() =~= x@.skip(i + 1));
        assert(y@.skip(i as int).drop_first() =~= y@.skip(i + 1));
        i = i + 1;
    }
    if i == y.len() {
        false
    } else if i == x.len() {
        true
    } else {
        x[i] < y[i]
    }
}

/// Adds `s` to a strictly sorted list, where it belongs, unless it is
/// already there.
pub fn insert_sorted(v: &mut Vec<String>, s: String)
    requires
        strictly_sorted(views(old(v)@)),
    ensures
        strictly_sorted(views(final(v)@)),
        forall|x: Seq<char>|
            views(final(v)@).contains(x) <==> (views(old(v)@).contains(x) || x == s@),
{
    let ghost old_views = views(v@);
    let mut p: usize = 0;
    while p < v.len() && lex_less(v[p].as_str(), s.as_str())
        invariant
            old_views == views(v@),
            strictly_sorted(old_views),
            0 <= p <= v.len(),
            forall|i: int| 0 <= i < p ==> lex_lt(#[trigger] old_views[i], s@),
        decreases v.len() - p,
    {
        p = p + 1;
    }
    if p < v.len() && crate::text::same_chars(v[p].as_str(), s.as_str()) {
        assert(old_views[p as int] == s@);
        return;
    }
    proof {
        if p < v.len() {
            lemma_lex_total(old_views[p as int], s@);
        }
    }
    v.insert(p, s);
    let ghost nv = views(v@);
    assert(nv =~= old_views.insert(p as int, s@));
    assert forall|i: int, j: int| 0 <= i < j < nv.len() implies lex_lt(
        #[trigger] nv[i],
        #[trigger] nv[j],
    ) by {
        if j < p {
        } else if j == p {
        } else if i < p {
            if j > p + 1 {
                assert(lex_lt(old_views[p as int], old_views[j - 1]));
                lemma_lex_transitive(s@, old_views[p as int], old_views[j - 1]);
            }
            lemma_lex_transitive(nv[i], s@, nv[j]);
        } else if i == p {
            if j > p + 1 {
                assert(lex_lt(old_views[p as int], old_views[j - 1]));
                lemma_lex_transitive(s@, old_views[p as int], old_views[j - 1]);
            }
        } else {
            assert(lex_lt(old_views[i - 1], old_views[j - 1]));
        }
    }
    assert forall|x: Seq<char>| nv.contains(x) <==> (old_views.contains(x) || x == s@) by {
        if nv.contains(x) {
            let k = choose|k: int| 0 <= k < nv.len() && nv[k] == x;
            if k < p {
                assert(old_views[k] == x);
            } else if k > p {
                assert(old_views[k - 1] == x);
            }
        }
        if old_views.contains(x) {
            let k = choose|k: int| 0 <= k < old_views.len() && old_views[k] == x;
            if k < p {
                assert(nv[k] == x);
            } else {
                assert(nv[k + 1] == x);
            }
        }
        if x == s@ {
            assert(nv[p as int] == x);
        }
    }
}

} // verus!
