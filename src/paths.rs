use vstd::prelude::*;
use crate::text::chars_of;

verus! {

/// `base` joined with `rel` as `Path::join` does for `/`-separated paths: an
/// absolute `rel` replaces `base`, otherwise a separator is put in between
/// unless `base` is empty or already ends with one.
pub open spec fn joined(base: Seq<char>, rel: Seq<char>) -> Seq<char> {
    if rel.len() > 0 && rel[0] == '/' {
        rel
    } else if base.len() == 0 || base.last() == '/' {
        base + rel
    } else {
        base + seq!['/'] + rel
    }
}

/// `path` relative to the directory `dir`, or `None` where `path` does not
/// lie under `dir`: the text after `dir` and one separator. It agrees with
/// `Path::strip_prefix` on paths without repeated separators, such as the
/// walker yields; unlike std, `d//a.md` relative to `d` is `/a.md` here.
pub open spec fn relative_to(path: Seq<char>, dir: Seq<char>) -> Option<Seq<char>> {
    if dir.len() <= path.len() && path.subrange(0, dir.len() as int) == dir {
        let rest = path.subrange(dir.len() as int, path.len() as int);
        if rest.len() == 0 {
            Some(rest)
        } else if rest[0] == '/' {
            Some(rest.subrange(1, rest.len() as int))
        } else if dir.len() == 0 || dir.last() == '/' {
            Some(rest)
        } else {
            None
        }
    } else {
        None
    }
}

/// `base` joined with `rel`.
pub fn join_path(base: &str, rel: &str) -> (r: String)
    ensures
        r@ == joined(base@, rel@),
{
    let rl = rel.unicode_len();
    if rl > 0 && rel.get_char(0) == '/' {
        return rel.to_owned();
    }
    let bl = base.unicode_len();
    let mut out = base.to_owned();
    if bl > 0 && base.get_char(bl - 1) != '/' {
        out.append("/");
        proof {
            reveal_strlit("/");
        }
    }
    out.append(rel);
    proof {
        if bl > 0 && base@.last() != '/' {
            assert(out@ == base@ + seq!['/'] + rel@);
        }
    }
    out
}

/// `path` relative to `dir`.
pub fn relative_path(path: &str, dir: &str) -> (r: Option<String>)
    ensures
        match r {
            Some(x) => relative_to(path@, dir@) == Some(x@),
            None => relative_to(path@, dir@) is None,
        },
{
    let p = chars_of(path);
    let d = chars_of(dir);
    if d.len() > p.len() {
        return None;
    }
    let mut i: usize = 0;
    while i < d.len()
        invariant
            p@ == path@,
            d@ == dir@,
            d.len() <= p.len(),
            i <= d.len(),
            forall|k: int| 0 <= k < i ==> p@[k] == d@[k],
        decreases d.len() - i,
    {
        if p[i] != d[i] {
            assert(path@.subrange(0, dir@.len() as int)[i as int] != dir@[i as int]);
            return None;
        }
        i = i + 1;
    }
    assert(path@.subrange(0, dir@.len() as int) =~= dir@);
    let ghost rest = path@.subrange(dir@.len() as int, path@.len() as int);
    let n = d.len();
    if n == p.len() {
        assert(rest.len() == 0);
        return Some(String::new());
    }
    assert(rest[0] == p@[n as int]);
    if p[n] == '/' {
        let x = path.substring_char(n + 1, p.len()).to_owned();
        assert(x@ =~= rest.subrange(1, rest.len() as int));
        return Some(x);
    }
    if n == 0 || d[n - 1] == '/' {
        let x = path.substring_char(n, p.len()).to_owned();
        assert(x@ =~= rest);
        return Some(x);
    }
    None
}

} // verus!
