//! Looking up external commands on the search path.

use vstd::prelude::*;
use crate::command::opt_view;
use crate::text::{chars_of, owned, push_char, push_str, spec_join, string_of, views};

verus! {

/// The pieces completed, and the piece being read, after reading `s`.
pub open spec fn split_acc(s: Seq<char>, sep: char) -> (Seq<Seq<char>>, Seq<char>)
    decreases s.len(),
{
    if s.len() == 0 {
        (seq![], seq![])
    } else {
        let (done, cur) = split_acc(s.drop_last(), sep);
        if s.last() == sep {
            (done.push(cur), seq![])
        } else {
            (done, cur.push(s.last()))
        }
    }
}

/// The pieces of `s` between the separators, as `str::split` gives them:
/// one more than there are separators, empty ones included.
pub open spec fn spec_split_on(s: Seq<char>, sep: char) -> Seq<Seq<char>> {
    split_acc(s, sep).0.push(split_acc(s, sep).1)
}

/// Law: the pieces of a text between separators, joined again with the
/// separator, give back the text.
pub proof fn law_split_then_join(s: Seq<char>, sep: char)
    ensures
        spec_join(spec_split_on(s, sep), seq![sep]) == s,
    decreases s.len(),
{
    let (d, c) = split_acc(s, sep);
    if s.len() == 0 {
        assert(d.push(c) =~= seq![Seq::<char>::empty()]);
        assert(s =~= Seq::<char>::empty());
    } else {
        let t = s.drop_last();
        law_split_then_join(t, sep);
        let (d1, c1) = split_acc(t, sep);
        assert(d1.push(c1).drop_last() =~= d1);
        if s.last() == sep {
            assert(d.push(c).drop_last() =~= d1.push(c1));
            assert(spec_join(d1.push(c1), seq![sep]) + seq![sep] + Seq::<char>::empty() =~= s);
        } else {
            if d1.len() == 0 {
                assert(d.push(c) =~= seq![c1.push(s.last())]);
                assert(c1.push(s.last()) =~= s);
            } else {
                assert(d.push(c).drop_last() =~= d1);
                assert(spec_join(d1.push(c1), seq![sep]) == spec_join(d1, seq![sep]) + seq![sep]
                    + c1);
                assert(s =~= t.push(s.last()));
                assert(spec_join(d1, seq![sep]) + seq![sep] + c1.push(s.last()) =~= s);
            }
        }
    }
}

/// The path of `name` in directory `dir`, as `Path::join` forms it: an
/// absolute name stands for itself, an empty directory adds nothing, and a
/// `/` is put between the two unless the directory ends with one.
pub open spec fn join_path(dir: Seq<char>, name: Seq<char>) -> Seq<char> {
    if name.len() > 0 && name[0] == '/' {
        name
    } else if dir.len() == 0 {
        name
    } else if dir.last() == '/' {
        dir + name
    } else {
        dir + seq!['/'] + name
    }
}

/// The directories of a search path (its pieces between `:`).
pub fn path_dirs(path_var: &str) -> (dirs: Vec<String>)
    ensures
        views(dirs@) == spec_split_on(path_var@, ':'),
{
    let cs = chars_of(path_var);
    let mut dirs: Vec<String> = Vec::new();
    let mut cur: Vec<char> = Vec::new();
    assert(cs@.take(0) =~= Seq::<char>::empty());
    assert(views(dirs@) =~= Seq::<Seq<char>>::empty());
    for i in 0..cs.len()
        invariant
            cs@ == path_var@,
            views(dirs@) == split_acc(cs@.take(i as int), ':').0,
            cur@ == split_acc(cs@.take(i as int), ':').1,
    {
        assert(cs@.take(i + 1).drop_last() =~= cs@.take(i as int));
        assert(cs@.take(i + 1).last() == cs@[i as int]);
        if cs[i] == ':' {
            let ghost before = views(dirs@);
            dirs.push(string_of(&cur));
            assert(views(dirs@) =~= before.push(cur@));
            cur = Vec::new();
            assert(cur@ =~= Seq::<char>::empty());
        } else {
            cur.push(cs[i]);
        }
    }
    assert(cs@.take(cs.len() as int) =~= cs@);
    let ghost before = views(dirs@);
    dirs.push(string_of(&cur));
    assert(views(dirs@) =~= before.push(cur@));
    dirs
}

/// The path of `name` in directory `dir`.
pub fn join_dir(dir: &str, name: &str) -> (p: String)
    ensures
        p@ == join_path(dir@, name@),
{
    let n = chars_of(name);
    if n.len() > 0 && n[0] == '/' {
        return owned(name);
    }
    let d = chars_of(dir);
    if d.len() == 0 {
        return owned(name);
    }
    let mut p = owned(dir);
    if d[d.len() - 1] != '/' {
        push_char(&mut p, '/');
    }
    push_str(&mut p, name);
    p
}

/// The paths where an external command `name` is looked for, in order: one
/// in each directory of the search path.
pub fn candidates(path_var: &str, name: &str) -> (paths: Vec<String>)
    ensures
        views(paths@) == spec_split_on(path_var@, ':').map_values(
            |d: Seq<char>| join_path(d, name@),
        ),
{
    let dirs = path_dirs(path_var);
    let ghost ds = views(dirs@);
    let mut paths: Vec<String> = Vec::new();
    for i in 0..dirs.len()
        invariant
            ds == views(dirs@),
            views(paths@) == ds.take(i as int).map_values(|d: Seq<char>| join_path(d, name@)),
    {
        let ghost before = views(paths@);
        let p = join_dir(dirs[i].as_str(), name);
        paths.push(p);
        assert(views(paths@) =~= before.push(join_path(ds[i as int], name@)));
        assert(ds.take(i + 1) =~= ds.take(i as int).push(ds[i as int]));
        assert(ds.take(i + 1).map_values(|d: Seq<char>| join_path(d, name@)) =~= ds.take(
            i as int,
        ).map_values(|d: Seq<char>| join_path(d, name@)).push(join_path(ds[i as int], name@)));
    }
    assert(ds.take(dirs.len() as int) =~= ds);
    paths
}

/// The place of the first set flag among the first `n`, if any.
pub open spec fn first_set(flags: Seq<bool>, n: int) -> Option<int>
    decreases n,
{
    if n <= 0 {
        None
    } else {
        match first_set(flags, n - 1) {
            Some(k) => Some(k),
            None => if flags[n - 1] {
                Some(n - 1)
            } else {
                None
            },
        }
    }
}

/// The command found: of the candidate `paths`, the first whose flag (an
/// executable file exists there) is set.
pub open spec fn spec_first_found(paths: Seq<Seq<char>>, flags: Seq<bool>) -> Option<Seq<char>> {
    match first_set(flags, paths.len() as int) {
        Some(k) => Some(paths[k]),
        None => None,
    }
}

/// The first of the candidate `paths` whose flag in `found` is set: where
/// an executable file stands, as the caller found out.
pub fn first_found(paths: &Vec<String>, found: &Vec<bool>) -> (r: Option<String>)
    requires
        found.len() == paths.len(),
    ensures
        opt_view(r) == spec_first_found(views(paths@), found@),
{
    let ghost ps = views(paths@);
    for i in 0..paths.len()
        invariant
            found.len() == paths.len(),
            ps == views(paths@),
            first_set(found@, i as int) is None,
    {
        if found[i] {
            proof {
                lemma_first_set_stays(found@, i as int + 1, paths.len() as int);
            }
            return Some(paths[i].clone());
        }
    }
    None
}

proof fn lemma_first_set_stays(flags: Seq<bool>, m: int, n: int)
    requires
        0 < m <= n,
        first_set(flags, m) == Some(m - 1),
    ensures
        first_set(flags, n) == Some(m - 1),
    decreases n - m,
{
    if n > m {
        lemma_first_set_stays(flags, m, n - 1);
    }
}

/// What the shell prints when no executable `cmd` is on the search path.
pub fn command_not_found(cmd: &str) -> (msg: String)
    ensures
        msg@ == cmd@ + ": command not found\n"@,
{
    let mut msg = owned(cmd);
    push_str(&mut msg, ": command not found\n");
    msg
}

} // verus!
