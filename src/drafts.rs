use vstd::prelude::*;
use crate::paths::{join_path, joined};
use crate::text::chars_of;

verus! {

/// `s` split at every `'\n'`, as `str::split('\n')` gives it: one more piece
/// than there are line feeds.
pub open spec fn split_nl(s: Seq<char>) -> Seq<Seq<char>>
    decreases s.len(),
{
    if s.len() == 0 {
        seq![Seq::empty()]
    } else if s.last() == '\n' {
        split_nl(s.drop_last()).push(Seq::empty())
    } else {
        let p = split_nl(s.drop_last());
        p.update(p.len() - 1, p.last().push(s.last()))
    }
}

/// The lines of `s` as `str::lines` yields them before it strips a final
/// carriage return: no empty line after a final line feed.
pub open spec fn lines_of(s: Seq<char>) -> Seq<Seq<char>> {
    let p = split_nl(s);
    if p.last().len() == 0 {
        p.drop_last()
    } else {
        p
    }
}

pub open spec fn strip_cr(l: Seq<char>) -> Seq<char> {
    if l.len() > 0 && l.last() == '\r' {
        l.drop_last()
    } else {
        l
    }
}

/// The first comma-separated field of a line.
pub open spec fn first_field(l: Seq<char>) -> Seq<char>
    decreases l.len(),
{
    if l.len() == 0 {
        l
    } else if l[0] == ',' {
        Seq::empty()
    } else {
        seq![l[0]] + first_field(l.drop_first())
    }
}

/// The path of the draft that a row of the listing names, under `root`.
pub open spec fn draft_path(root: Seq<char>, line: Seq<char>) -> Seq<char> {
    joined(root, first_field(strip_cr(line)))
}

/// The draft paths that a listing names: the first field of every line but
/// the header, resolved against `root`.
pub open spec fn drafts_of(root: Seq<char>, listing: Seq<char>) -> Seq<Seq<char>> {
    let ls = lines_of(listing);
    if ls.len() == 0 {
        Seq::empty()
    } else {
        ls.drop_first().map_values(|l: Seq<char>| draft_path(root, l))
    }
}

proof fn lemma_split_nl_nonempty(s: Seq<char>)
    ensures
        split_nl(s).len() >= 1,
    decreases s.len(),
{
    if s.len() > 0 {
        lemma_split_nl_nonempty(s.drop_last());
    }
}

proof fn lemma_first_field(l: Seq<char>, c: int)
    requires
        0 <= c <= l.len(),
        c == l.len() || l[c] == ',',
        forall|k: int| 0 <= k < c ==> l[k] != ',',
    ensures
        first_field(l) == l.subrange(0, c),
    decreases c,
{
    if c > 0 {
        lemma_first_field(l.drop_first(), c - 1);
        assert(seq![l[0]] + l.drop_first().subrange(0, c - 1) =~= l.subrange(0, c));
    } else if l.len() > 0 {
        assert(l.subrange(0, 0) =~= Seq::<char>::empty());
    }
}

/// The path that the row `listing[st..en]` names, under `root`.
fn row_path(root: &str, listing: &str, v: &Vec<char>, st: usize, en: usize) -> (r: String)
    requires
        v@ == listing@,
        st <= en <= v.len(),
    ensures
        r@ == draft_path(root@, v@.subrange(st as int, en as int)),
{
    let ghost line = v@.subrange(st as int, en as int);
    let mut e = en;
    if e > st && v[e - 1] == '\r' {
        e = e - 1;
    }
    let ghost l = strip_cr(line);
    assert(l =~= v@.subrange(st as int, e as int));
    let mut c: usize = st;
    while c < e && v[c] != ','
        invariant
            st <= c <= e <= en <= v.len(),
            forall|k: int| st <= k < c ==> v@[k] != ',',
        decreases e - c,
    {
        c = c + 1;
    }
    proof {
        lemma_first_field(l, c - st);
        assert(l.subrange(0, c - st) =~= v@.subrange(st as int, c as int));
    }
    let field = listing.substring_char(st, c);
    join_path(root, field)
}

/// Paths of the drafts that the generator's CSV listing names: the first
/// column of every row after the header, resolved against the site root.
pub fn draft_files(root: &str, listing: &str) -> (r: Vec<String>)
    ensures
        r@.map_values(|x: String| x@) == drafts_of(root@, listing@),
{
    let v = chars_of(listing);
    let ghost s = v@;
    let n = v.len();
    let mut out: Vec<String> = Vec::new();
    let mut st: usize = 0;
    let mut row: usize = 0;
    let ghost mut done: Seq<Seq<char>> = Seq::empty();
    let mut i: usize = 0;
    assert(s.take(0) =~= Seq::<char>::empty());
    assert(s.subrange(0, 0) =~= Seq::<char>::empty());
    while i < n
        invariant
            s == v@,
            s == listing@,
            n == v.len(),
            st <= i <= n,
            row == done.len(),
            row <= i,
            split_nl(s.take(i as int)) == done.push(s.subrange(st as int, i as int)),
            out@.map_values(|x: String| x@) == (if done.len() == 0 {
                Seq::empty()
            } else {
                done.drop_first().map_values(|l: Seq<char>| draft_path(root@, l))
            }),
        decreases n - i,
    {
        assert(s.take(i as int + 1).drop_last() =~= s.take(i as int));
        assert(s.take(i as int + 1).last() == s[i as int]);
        if v[i] == '\n' {
            if row > 0 {
                let p = row_path(root, listing, &v, st, i);
                let ghost before = out@.map_values(|x: String| x@);
                out.push(p);
                proof {
                    let nd = done.push(s.subrange(st as int, i as int));
                    assert(nd.drop_first() =~= done.drop_first().push(s.subrange(st as int, i as int)));
                    assert(out@.map_values(|x: String| x@) =~= before.push(p@));
                    assert(out@.map_values(|x: String| x@) =~= nd.drop_first().map_values(
                        |l: Seq<char>| draft_path(root@, l),
                    ));
                }
            } else {
                proof {
                    let nd = done.push(s.subrange(st as int, i as int));
                    assert(nd.drop_first() =~= Seq::<Seq<char>>::empty());
                    assert(out@.map_values(|x: String| x@) =~= nd.drop_first().map_values(
                        |l: Seq<char>| draft_path(root@, l),
                    ));
                }
            }
            proof {
                done = done.push(s.subrange(st as int, i as int));
                assert(s.subrange(i as int + 1, i as int + 1) =~= Seq::<char>::empty());
            }
            row = row + 1;
            st = i + 1;
        } else {
            proof {
                assert(s.subrange(st as int, i as int + 1) =~= s.subrange(st as int, i as int).push(
                    s[i as int],
                ));
                lemma_split_nl_nonempty(s.take(i as int));
            }
        }
        i = i + 1;
    }
    assert(s.take(n as int) =~= s);
    let ghost last = s.subrange(st as int, n as int);
    if st < n {
        if row > 0 {
            let p = row_path(root, listing, &v, st, n);
            let ghost before = out@.map_values(|x: String| x@);
            out.push(p);
            proof {
                let nd = done.push(last);
                assert(nd.drop_first() =~= done.drop_first().push(last));
                assert(out@.map_values(|x: String| x@) =~= before.push(p@));
                assert(out@.map_values(|x: String| x@) =~= nd.drop_first().map_values(
                    |l: Seq<char>| draft_path(root@, l),
                ));
            }
        } else {
            let ghost nd = done.push(last);
            assert(nd.drop_first() =~= Seq::<Seq<char>>::empty());
            assert(out@.map_values(|x: String| x@) =~= nd.drop_first().map_values(
                |l: Seq<char>| draft_path(root@, l),
            ));
        }
    } else {
        assert(lines_of(s) =~= done);
    }
    out
}

} // verus!
