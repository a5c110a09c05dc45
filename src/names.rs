use vstd::prelude::*;
use crate::text::chars_of;

verus! {

/// Where the last component of `p` starts: just after its last `/`.
pub open spec fn name_start(p: Seq<char>) -> int
    decreases p.len(),
{
    if p.len() == 0 {
        0
    } else if p.last() == '/' {
        p.len() as int
    } else {
        name_start(p.drop_last())
    }
}

/// Position of the last `.` of `s`, or -1.
pub open spec fn last_dot(s: Seq<char>) -> int
    decreases s.len(),
{
    if s.len() == 0 {
        -1
    } else if s.last() == '.' {
        s.len() - 1
    } else {
        last_dot(s.drop_last())
    }
}

/// The text after the last `/` of `p`, unless it is empty, `.` or `..`.
/// This is `Path::file_name` for paths without a trailing separator or `.`
/// components, such as the walker yields; unlike std, `a/` has no name here.
pub open spec fn file_name(p: Seq<char>) -> Option<Seq<char>> {
    let n = p.subrange(name_start(p), p.len() as int);
    if n.len() == 0 || n == seq!['.'] || n == seq!['.', '.'] {
        None
    } else {
        Some(n)
    }
}

/// The file name without its extension: a leading dot does not start an
/// extension. It agrees with `Path::file_stem` where `file_name` agrees with
/// `Path::file_name`.
pub open spec fn file_stem(p: Seq<char>) -> Option<Seq<char>> {
    match file_name(p) {
        Some(n) => if last_dot(n) > 0 {
            Some(n.take(last_dot(n)))
        } else {
            Some(n)
        },
        None => None,
    }
}

/// The extension of the file name; it agrees with `Path::extension` where
/// `file_name` agrees with `Path::file_name`.
pub open spec fn extension(p: Seq<char>) -> Option<Seq<char>> {
    match file_name(p) {
        Some(n) => if last_dot(n) > 0 {
            Some(n.subrange(last_dot(n) + 1, n.len() as int))
        } else {
            None
        },
        None => None,
    }
}

proof fn lemma_name_start(p: Seq<char>, i: int)
    requires
        0 <= i <= p.len(),
        i == 0 || p[i - 1] == '/',
        forall|k: int| i <= k < p.len() ==> p[k] != '/',
    ensures
        name_start(p) == i,
    decreases p.len(),
{
    if p.len() > i {
        lemma_name_start(p.drop_last(), i);
    }
}

proof fn lemma_last_dot(s: Seq<char>, d: int)
    requires
        -1 <= d < s.len(),
        d == -1 || s[d] == '.',
        forall|k: int| d < k < s.len() ==> s[k] != '.',
    ensures
        last_dot(s) == d,
    decreases s.len(),
{
    if s.len() > 0 && s.len() - 1 > d {
        lemma_last_dot(s.drop_last(), d);
    }
}

/// The name of `v`'s last component as the range `[start, v.len())`, with
/// the position of its last dot relative to `start`, if it has one.
fn name_parts(v: &Vec<char>) -> (r: (usize, Option<usize>))
    ensures
        r.0 == name_start(v@),
        r.0 <= v.len(),
        r.1 matches Some(d) ==> r.0 + d < v.len(),
        match r.1 {
            Some(d) => d as int == last_dot(v@.subrange(r.0 as int, v@.len() as int)),
            None => last_dot(v@.subrange(r.0 as int, v@.len() as int)) == -1,
        },
{
    let n = v.len();
    let mut s: usize = n;
    while s > 0 && v[s - 1] != '/'
        invariant
            s <= n == v.len(),
            forall|k: int| s <= k < n ==> v@[k] != '/',
        decreases s,
    {
        s = s - 1;
    }
    proof {
        lemma_name_start(v@, s as int);
    }
    let ghost name = v@.subrange(s as int, n as int);
    let mut d: usize = n;
    while d > s && v[d - 1] != '.'
        invariant
            s <= d <= n == v.len(),
            forall|k: int| d <= k < n ==> v@[k] != '.',
        decreases d,
    {
        d = d - 1;
    }
    let dot: Option<usize> = if d > s {
        Some(d - 1 - s)
    } else {
        None
    };
    let ghost di: int = if d > s { d - 1 - s } else { -1 };
    proof {
        assert forall|k: int| di < k < name.len() implies name[k] != '.' by {
            assert(name[k] == v@[s + k]);
        }
        lemma_last_dot(name, di);
    }
    (s, dot)
}

/// Whether `n` is `.` or `..`.
fn is_dot_name(v: &Vec<char>, s: usize) -> (r: bool)
    requires
        s <= v.len(),
    ensures
        r == (v@.subrange(s as int, v@.len() as int) == seq!['.'] || v@.subrange(
            s as int,
            v@.len() as int,
        ) == seq!['.', '.']),
{
    let n = v.len() - s;
    let r = (n == 1 && v[s] == '.') || (n == 2 && v[s] == '.' && v[s + 1] == '.');
    proof {
        let name = v@.subrange(s as int, v@.len() as int);
        if n == 1 {
            assert(name[0] == v@[s as int]);
            if v@[s as int] == '.' {
                assert(name =~= seq!['.']);
            } else {
                assert(name[0] != seq!['.'][0]);
            }
            assert(name.len() != seq!['.', '.'].len());
        } else if n == 2 {
            assert(name[0] == v@[s as int]);
            assert(name[1] == v@[s + 1]);
            if v@[s as int] == '.' && v@[s + 1] == '.' {
                assert(name =~= seq!['.', '.']);
            } else if v@[s as int] != '.' {
                assert(name[0] != seq!['.', '.'][0]);
            } else {
                assert(name[1] != seq!['.', '.'][1]);
            }
            assert(name.len() != seq!['.'].len());
        } else {
            assert(name.len() != 1 && name.len() != 2);
            assert(seq!['.'].len() == 1);
            assert(seq!['.', '.'].len() == 2);
        }
    }
    r
}

/// The file stem of `path`.
pub fn path_file_stem(path: &str) -> (r: Option<String>)
    ensures
        match file_stem(path@) {
            Some(b) => r matches Some(x) && x@ == b,
            None => r is None,
        },
{
    let v = chars_of(path);
    let (s, dot) = name_parts(&v);
    let n = v.len();
    if s == n || is_dot_name(&v, s) {
        return None;
    }
    if dot.is_some() && dot.unwrap() > 0 {
        let d = dot.unwrap();
        let r = path.substring_char(s, s + d).to_owned();
        assert(r@ =~= v@.subrange(s as int, n as int).take(d as int));
        Some(r)
    } else {
        Some(path.substring_char(s, n).to_owned())
    }
}

/// Whether the extension of `path` is exactly `md`.
pub fn is_markdown(path: &str) -> (r: bool)
    ensures
        r == (extension(path@) == Some(seq!['m', 'd'])),
{
    let v = chars_of(path);
    let (s, dot) = name_parts(&v);
    let n = v.len();
    if s == n || is_dot_name(&v, s) {
        return false;
    }
    let dot = match dot {
        Some(x) if x > 0 => x,
        _ => {
            return false;
        },
    };
    let d = s + dot;
    let r = n - d == 3 && v[d + 1] == 'm' && v[d + 2] == 'd';
    proof {
        let name = v@.subrange(s as int, n as int);
        let ext = name.subrange(dot + 1, name.len() as int);
        if n - d == 3 {
            assert(ext[0] == v@[d + 1]);
            assert(ext[1] == v@[d + 2]);
            if v@[d + 1] == 'm' && v@[d + 2] == 'd' {
                assert(ext =~= seq!['m', 'd']);
            } else if v@[d + 1] != 'm' {
                assert(ext[0] != seq!['m', 'd'][0]);
            } else {
                assert(ext[1] != seq!['m', 'd'][1]);
            }
        } else {
            assert(ext.len() != 2);
        }
    }
    r
}

} // verus!
