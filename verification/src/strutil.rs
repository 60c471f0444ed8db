//! String building blocks for the engine: path joining relative to a base
//! directory, prefix stripping, file-extension lookup, placeholder
//! replacement and argument joining.

use vstd::prelude::*;

verus! {

/// `base/name`: one path component appended below a base path.
pub open spec fn joined(base: Seq<char>, name: Seq<char>) -> Seq<char> {
    base + seq!['/'] + name
}

/// Joins one path component below a base path.
pub fn join_path(base: &str, name: &str) -> (r: String)
    ensures
        r@ == joined(base@, name@),
{
    let mut r = String::new();
    r.append(base);
    r.append("/");
    r.append(name);
    proof {
        reveal_strlit("/");
        assert(r@ =~= joined(base@, name@));
    }
    r
}

/// True when `p` is a prefix of `s`.
pub open spec fn prefix_of(p: Seq<char>, s: Seq<char>) -> bool {
    p.len() <= s.len() && s.take(p.len() as int) == p
}

/// The path made relative to a base directory: with the leading `base/`
/// stripped when it is there, and unchanged otherwise.
pub open spec fn relative_spec(base: Seq<char>, path: Seq<char>) -> Seq<char> {
    if prefix_of(base + seq!['/'], path) {
        path.skip(base.len() + 1 as int)
    } else {
        path
    }
}

/// Strips a leading `base/` from a path, leaving other paths unchanged.
pub fn relative_to(base: &str, path: &str) -> (r: String)
    ensures
        r@ == relative_spec(base@, path@),
{
    let bn = base.unicode_len();
    let pn = path.unicode_len();
    proof {
        reveal_strlit("/");
    }
    let ghost pre = base@ + seq!['/'];
    if bn >= pn {
        proof {
            assert(!prefix_of(pre, path@));
        }
        return path.to_owned();
    }
    let mut i: usize = 0;
    while i < bn && path.get_char(i) == base.get_char(i)
        invariant
            bn < pn,
            bn == base@.len(),
            pn == path@.len(),
            i <= bn,
            pre == base@ + seq!['/'],
            forall|j: int| 0 <= j < i ==> path@[j] == base@[j],
        decreases bn - i,
    {
        i = i + 1;
    }
    let matches = i == bn;
    proof {
        if !matches {
            assert(path@[i as int] != base@[i as int]);
        }
    }
    if matches && path.get_char(bn) == '/' {
        proof {
            assert(prefix_of(pre, path@)) by {
                assert forall|j: int| 0 <= j < pre.len() implies path@.take(pre.len() as int)[j]
                    == pre[j] by {
                    if j < bn {
                        assert(path@[j] == base@[j]);
                    } else {
                        assert(pre[j] == '/');
                    }
                }
                assert(path@.take(pre.len() as int) =~= pre);
            }
        }
        let r = path.substring_char(bn + 1, pn);
        proof {
            assert(r@ =~= path@.skip(base@.len() + 1 as int));
        }
        r.to_owned()
    } else {
        proof {
            if matches {
                assert(path@[bn as int] != '/');
                assert(!prefix_of(pre, path@)) by {
                    if prefix_of(pre, path@) {
                        assert(path@.take(pre.len() as int)[bn as int] == pre[bn as int]);
                    }
                }
            } else {
                assert(!prefix_of(pre, path@)) by {
                    if prefix_of(pre, path@) {
                        assert(path@.take(pre.len() as int)[i as int] == pre[i as int]);
                        assert(pre[i as int] == base@[i as int]);
                    }
                }
            }
        }
        path.to_owned()
    }
}

/// The position of the last `.` in a name, if any.
pub open spec fn last_dot(name: Seq<char>) -> Option<int>
    decreases name.len(),
{
    if name.len() == 0 {
        None
    } else if name.last() == '.' {
        Some(name.len() - 1)
    } else {
        last_dot(name.drop_last())
    }
}

/// The extension of a file name: the characters after its last `.`.
pub open spec fn ext_of(name: Seq<char>) -> Option<Seq<char>> {
    match last_dot(name) {
        Some(i) => Some(name.skip(i + 1)),
        None => None,
    }
}

pub proof fn lemma_last_dot_bound(name: Seq<char>)
    ensures
        last_dot(name) matches Some(i) ==> 0 <= i < name.len() && name[i] == '.',
        last_dot(name) matches Some(i) ==> forall|j: int| i < j < name.len() ==> name[j] != '.',
    decreases name.len(),
{
    if name.len() > 0 && name.last() != '.' {
        lemma_last_dot_bound(name.drop_last());
        match last_dot(name) {
            Some(i) => {
                assert(name.drop_last()[i] == name[i]);
                assert forall|j: int| i < j < name.len() implies name[j] != '.' by {
                    if j < name.len() - 1 {
                        assert(name.drop_last()[j] == name[j]);
                    }
                }
            },
            None => {},
        }
    }
}

/// Finds a file name's extension: the text after its last `.`, if one is
/// there.
pub fn extension_of(name: &str) -> (r: Option<String>)
    ensures
        r is Some <==> last_dot(name@) is Some,
        r is Some ==> ext_of(name@) == Some(r->0@),
{
    let n = name.unicode_len();
    let mut k: usize = n;
    proof {
        assert(name@.take(n as int) =~= name@);
    }
    while k > 0
        invariant
            n == name@.len(),
            k <= n,
            last_dot(name@) == last_dot(name@.take(k as int)),
        decreases k,
    {
        let ghost before = name@.take(k as int);
        let c = name.get_char(k - 1);
        if c == '.' {
            proof {
                assert(before.last() == '.');
                assert(last_dot(before) == Some(k - 1 as int));
            }
            let r = name.substring_char(k, n);
            proof {
                assert(r@ =~= name@.skip(k as int));
            }
            return Some(r.to_owned());
        }
        k = k - 1;
        proof {
            assert(before.last() != '.');
            assert(before.drop_last() =~= name@.take(k as int));
        }
    }
    proof {
        assert(name@.take(0) =~= Seq::<char>::empty());
    }
    None
}

/// The text with every occurrence of a non-empty pattern replaced, scanning
/// left to right without overlap.
pub open spec fn replaced(s: Seq<char>, pat: Seq<char>, rep: Seq<char>) -> Seq<char>
    decreases s.len(),
    when pat.len() > 0
{
    if s.len() < pat.len() {
        s
    } else if s.take(pat.len() as int) == pat {
        rep + replaced(s.skip(pat.len() as int), pat, rep)
    } else {
        seq![s[0]] + replaced(s.skip(1), pat, rep)
    }
}

/// True when `pat` occurs in `s` starting at `i`.
fn matches_at(s: &str, n: usize, pat: &str, m: usize, i: usize) -> (r: bool)
    requires
        n == s@.len(),
        m == pat@.len(),
        i + m <= n,
    ensures
        r <==> s@.skip(i as int).take(m as int) == pat@,
{
    let mut j: usize = 0;
    while j < m
        invariant
            n == s@.len(),
            m == pat@.len(),
            i + m <= n,
            j <= m,
            forall|t: int| 0 <= t < j ==> s@[i + t] == pat@[t],
        decreases m - j,
    {
        if s.get_char(i + j) != pat.get_char(j) {
            proof {
                assert(s@[i + j] != pat@[j as int]);
                if s@.skip(i as int).take(m as int) == pat@ {
                    assert(s@.skip(i as int).take(m as int)[j as int] == s@[i + j]);
                }
            }
            return false;
        }
        j = j + 1;
    }
    proof {
        assert(s@.skip(i as int).take(m as int) =~= pat@);
    }
    true
}

/// Replaces every occurrence of a non-empty pattern, scanning left to right
/// without overlap.
pub fn replace_all(s: &str, pat: &str, rep: &str) -> (r: String)
    requires
        pat@.len() > 0,
    ensures
        r@ == replaced(s@, pat@, rep@),
{
    let n = s.unicode_len();
    let m = pat.unicode_len();
    let mut out = String::new();
    let mut i: usize = 0;
    proof {
        assert(s@.skip(0) =~= s@);
        assert(out@ + replaced(s@, pat@, rep@) =~= replaced(s@, pat@, rep@));
    }
    while i < n
        invariant
            n == s@.len(),
            m == pat@.len(),
            m > 0,
            i <= n,
            replaced(s@, pat@, rep@) == out@ + replaced(s@.skip(i as int), pat@, rep@),
        decreases n - i,
    {
        let ghost opre = out@;
        let ghost tail = s@.skip(i as int);
        if m <= n - i && matches_at(s, n, pat, m, i) {
            out.append(rep);
            i = i + m;
            proof {
                assert(tail.take(m as int) == pat@);
                assert(tail.len() >= m);
                assert(replaced(tail, pat@, rep@) == rep@ + replaced(
                    tail.skip(m as int),
                    pat@,
                    rep@,
                ));
                assert(tail.skip(m as int) =~= s@.skip(i as int));
                assert(out@ + replaced(s@.skip(i as int), pat@, rep@) =~= opre + replaced(
                    tail,
                    pat@,
                    rep@,
                ));
            }
        } else {
            let piece = s.substring_char(i, i + 1);
            out.append(piece);
            i = i + 1;
            proof {
                if tail.len() < m {
                    assert(replaced(tail, pat@, rep@) == tail);
                    assert(tail.skip(1) =~= s@.skip(i as int));
                    assert(seq![tail[0]] + tail.skip(1) =~= tail);
                    assert(piece@ =~= seq![tail[0]]);
                    assert(out@ + replaced(s@.skip(i as int), pat@, rep@) =~= opre + replaced(
                        tail,
                        pat@,
                        rep@,
                    )) by {
                        assert(replaced(s@.skip(i as int), pat@, rep@) == if s@.skip(
                            i as int,
                        ).len() < m {
                            s@.skip(i as int)
                        } else {
                            replaced(s@.skip(i as int), pat@, rep@)
                        });
                        assert(s@.skip(i as int).len() < m);
                        assert(replaced(s@.skip(i as int), pat@, rep@) == s@.skip(i as int));
                    }
                } else {
                    assert(tail.take(m as int) != pat@);
                    assert(replaced(tail, pat@, rep@) == seq![tail[0]] + replaced(
                        tail.skip(1),
                        pat@,
                        rep@,
                    ));
                    assert(tail.skip(1) =~= s@.skip(i as int));
                    assert(piece@ =~= seq![tail[0]]);
                    assert(out@ + replaced(s@.skip(i as int), pat@, rep@) =~= opre + replaced(
                        tail,
                        pat@,
                        rep@,
                    ));
                }
            }
        }
    }
    proof {
        assert(s@.skip(n as int) =~= Seq::<char>::empty());
        assert(replaced(Seq::<char>::empty(), pat@, rep@) == Seq::<char>::empty());
        assert(out@ + Seq::<char>::empty() =~= out@);
    }
    out
}

/// Arguments joined with single spaces.
pub open spec fn joined_args(args: Seq<Seq<char>>) -> Seq<char>
    decreases args.len(),
{
    if args.len() == 0 {
        Seq::empty()
    } else if args.len() == 1 {
        args[0]
    } else {
        args[0] + seq![' '] + joined_args(args.drop_first())
    }
}

/// Joins arguments with single spaces.
pub fn join_args(args: &Vec<String>) -> (r: String)
    ensures
        r@ == joined_args(args@.map_values(|a: String| a@)),
{
    let ghost view_all = args@.map_values(|a: String| a@);
    let mut r = String::new();
    let mut i: usize = 0;
    proof {
        reveal_strlit(" ");
        assert(view_all.skip(0) =~= view_all);
        assert(r@ + joined_args(view_all) =~= joined_args(view_all));
    }
    while i < args.len()
        invariant
            i <= args@.len(),
            view_all == args@.map_values(|a: String| a@),
            view_all.len() == args@.len(),
            joined_args(view_all) == r@ + joined_args(view_all.skip(i as int)),
        decreases args@.len() - i,
    {
        let ghost rpre = r@;
        let ghost tail = view_all.skip(i as int);
        r.append(args[i].as_str());
        if i + 1 < args.len() {
            r.append(" ");
        }
        i = i + 1;
        proof {
            reveal_strlit(" ");
            assert(tail[0] == view_all[i - 1]);
            assert(tail.drop_first() =~= view_all.skip(i as int));
            if i < view_all.len() {
                assert(tail.len() > 1);
                assert(joined_args(tail) == tail[0] + seq![' '] + joined_args(tail.drop_first()));
                assert(r@ + joined_args(view_all.skip(i as int)) =~= rpre + joined_args(tail));
            } else {
                assert(tail.len() == 1);
                assert(joined_args(tail) == tail[0]);
                assert(view_all.skip(i as int) =~= Seq::<Seq<char>>::empty());
                assert(r@ + joined_args(view_all.skip(i as int)) =~= rpre + joined_args(tail));
            }
        }
    }
    proof {
        if view_all.len() == 0 {
            assert(joined_args(view_all) == Seq::<char>::empty());
            assert(r@ =~= joined_args(view_all));
        } else {
            assert(view_all.skip(view_all.len() as int) =~= Seq::<Seq<char>>::empty());
            assert(joined_args(view_all.skip(view_all.len() as int)) == Seq::<char>::empty());
            assert(r@ =~= joined_args(view_all));
        }
    }
    r
}

} // verus!
