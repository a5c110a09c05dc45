use vstd::prelude::*;
use crate::text::{chars_of, is_fence, is_fence_range};

verus! {

/// `s[st..en]` is a whole line of `s`, lines being separated by `'\n'`.
pub open spec fn is_line(s: Seq<char>, st: int, en: int) -> bool {
    &&& 0 <= st <= en <= s.len()
    &&& st == 0 || s[st - 1] == '\n'
    &&& en == s.len() || s[en] == '\n'
    &&& forall|k: int| st <= k < en ==> s[k] != '\n'
}

pub open spec fn is_fence_line(s: Seq<char>, st: int, en: int) -> bool {
    is_line(s, st, en) && is_fence(s.subrange(st, en))
}

/// The lines `[a0, a1)` and `[b0, b1)` are the first two fence lines of `s`.
pub open spec fn first_two_fences(s: Seq<char>, a0: int, a1: int, b0: int, b1: int) -> bool {
    &&& is_fence_line(s, a0, a1)
    &&& is_fence_line(s, b0, b1)
    &&& a1 < b0
    &&& forall|x: int, y: int| #[trigger] is_fence_line(s, x, y) && x < b0 ==> x == a0
}

/// The lines strictly between the fence ending at `a1` and the one starting at
/// `b0`, joined by line feeds.
pub open spec fn between_fences(s: Seq<char>, a1: int, b0: int) -> Seq<char> {
    if a1 + 1 >= b0 {
        Seq::empty()
    } else {
        s.subrange(a1 + 1, b0 - 1)
    }
}

pub open spec fn has_front_matter(s: Seq<char>) -> bool {
    exists|a0: int, a1: int, b0: int, b1: int| first_two_fences(s, a0, a1, b0, b1)
}

/// `y` is the front matter of `s`: the text between its first two fence lines.
pub open spec fn is_front_matter_of(s: Seq<char>, y: Seq<char>) -> bool {
    exists|a0: int, a1: int, b0: int, b1: int|
        first_two_fences(s, a0, a1, b0, b1) && y == between_fences(s, a1, b0)
}

/// Why a document has no front matter that could be decoded.
#[derive(Debug, Clone, Copy, PartialEq, Eq)]
pub enum FrontMatterError {
    /// Fewer than two fence lines.
    NoFrontMatter,
}

/// The YAML text between the first two lines of `content` that trim to `---`.
pub fn extract_front_matter(content: &str) -> (r: Result<String, FrontMatterError>)
    ensures
        r is Ok <==> has_front_matter(content@),
        r matches Ok(y) ==> is_front_matter_of(content@, y@),
{
    let v = chars_of(content);
    let ghost s = v@;
    let n = v.len();
    let mut st: usize = 0;
    let mut first: Option<(usize, usize)> = None;
    let mut i: usize = 0;
    while i <= n
        invariant
            s == v@,
            s == content@,
            n == v.len(),
            st <= i <= n,
            is_line_start(s, st as int),
            forall|k: int| st <= k < i ==> s[k] != '\n',
            first matches Some(p) ==> is_fence_line(s, p.0 as int, p.1 as int) && p.1 < st,
            forall|x: int, y: int|
                #[trigger] is_fence_line(s, x, y) && x < st ==> (first matches Some(p) && x
                    == p.0),
        decreases n + 1 - i, (if i == n { 1int } else { 0int }),
    {
        if i == n || v[i] == '\n' {
            assert(is_line(s, st as int, i as int));
            let fence = is_fence_range(&v, st, i);
            proof {
                assert forall|x: int, y: int| #[trigger]
                    is_fence_line(s, x, y) && st <= x <= i implies x == st && y == i by {
                    if x > st {
                        assert(s[x - 1] == '\n');
                    }
                    if y < i {
                        assert(s[y] == '\n');
                    }
                    if y > i {
                        assert(s[i as int] == '\n');
                    }
                }
            }
            if fence {
                match first {
                    None => {
                        first = Some((st, i));
                    },
                    Some(p) => {
                        let (a0, a1) = p;
                        assert(first_two_fences(s, a0 as int, a1 as int, st as int, i as int));
                        let y = if a1 + 1 >= st {
                            String::new()
                        } else {
                            content.substring_char(a1 + 1, st - 1).to_owned()
                        };
                        assert(y@ == between_fences(s, a1 as int, st as int));
                        return Ok(y);
                    },
                }
            }
            if i == n {
                proof {
                    if has_front_matter(s) {
                        let (a0, a1, b0, b1) = choose|a0: int, a1: int, b0: int, b1: int|
                            first_two_fences(s, a0, a1, b0, b1);
                        assert(is_fence_line(s, b0, b1));
                        assert(is_fence_line(s, a0, a1));
                    }
                }
                return Err(FrontMatterError::NoFrontMatter);
            }
            st = i + 1;
        }
        i = i + 1;
    }
    Err(FrontMatterError::NoFrontMatter)
}

pub open spec fn is_line_start(s: Seq<char>, st: int) -> bool {
    st == 0 || (0 < st <= s.len() && s[st - 1] == '\n')
}

/// A line is determined by where it starts.
proof fn lemma_line_end(s: Seq<char>, x: int, y1: int, y2: int)
    requires
        is_line(s, x, y1),
        is_line(s, x, y2),
    ensures
        y1 == y2,
{
    if y1 < y2 {
        assert(s[y1] == '\n');
    } else if y2 < y1 {
        assert(s[y2] == '\n');
    }
}

/// The front matter of a document is determined by its text: whatever the
/// extractor returns is the one text between the first two fence lines.
pub proof fn lemma_front_matter_determined(s: Seq<char>, y1: Seq<char>, y2: Seq<char>)
    requires
        is_front_matter_of(s, y1),
        is_front_matter_of(s, y2),
    ensures
        y1 == y2,
{
    let (a0, a1, b0, b1) = choose|a0: int, a1: int, b0: int, b1: int|
        first_two_fences(s, a0, a1, b0, b1) && y1 == between_fences(s, a1, b0);
    let (c0, c1, d0, d1) = choose|c0: int, c1: int, d0: int, d1: int|
        first_two_fences(s, c0, c1, d0, d1) && y2 == between_fences(s, c1, d0);
    assert(is_fence_line(s, a0, a1) && is_fence_line(s, c0, c1));
    assert(is_fence_line(s, b0, b1) && is_fence_line(s, d0, d1));
    if c0 >= b0 {
        assert(a0 < d0);
    }
    assert(a0 == c0);
    lemma_line_end(s, a0, a1, c1);
    if b0 < d0 {
        assert(b0 == c0);
    } else if d0 < b0 {
        assert(d0 == a0);
    }
}

} // verus!
