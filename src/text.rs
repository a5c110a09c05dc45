use vstd::prelude::*;

verus! {

/// The characters of `s`, in order.
pub fn chars_of(s: &str) -> (r: Vec<char>)
    ensures
        r@ == s@,
{
    let mut out: Vec<char> = Vec::new();
    for c in it: s.chars()
        invariant
            out@ == it.seq().take(it.index() as int),
    {
        out.push(c);
    }
    out
}

/// Unicode `White_Space`, the set that `char::is_whitespace` and `str::trim` use.
pub open spec fn is_ws(c: char) -> bool {
    ('\u{9}' <= c && c <= '\u{d}') || c == ' ' || c == '\u{85}' || c == '\u{a0}' || c == '\u{1680}'
        || ('\u{2000}' <= c && c <= '\u{200a}') || c == '\u{2028}' || c == '\u{2029}'
        || c == '\u{202f}' || c == '\u{205f}' || c == '\u{3000}'
}

pub fn is_whitespace(c: char) -> (r: bool)
    ensures
        r == is_ws(c),
{
    ('\u{9}' <= c && c <= '\u{d}') || c == ' ' || c == '\u{85}' || c == '\u{a0}' || c == '\u{1680}'
        || ('\u{2000}' <= c && c <= '\u{200a}') || c == '\u{2028}' || c == '\u{2029}'
        || c == '\u{202f}' || c == '\u{205f}' || c == '\u{3000}'
}

/// `s` is `x` surrounded by whitespace only, i.e. trimming `s` gives `x`
/// (for an `x` that neither starts nor ends with whitespace).
pub open spec fn trims_to(s: Seq<char>, x: Seq<char>) -> bool {
    exists|i: int|
        0 <= i && i + x.len() <= s.len() && #[trigger] s.subrange(i, i + x.len()) == x
            && (forall|k: int| 0 <= k < i ==> is_ws(#[trigger] s[k]))
            && (forall|k: int| i + x.len() <= k < s.len() ==> is_ws(#[trigger] s[k]))
}

/// A fence line: `---` once trimmed.
pub open spec fn is_fence(line: Seq<char>) -> bool {
    trims_to(line, seq!['-', '-', '-'])
}

/// Whether `v[st..en]` is a fence line.
pub fn is_fence_range(v: &Vec<char>, st: usize, en: usize) -> (r: bool)
    requires
        st <= en <= v.len(),
    ensures
        r == is_fence(v@.subrange(st as int, en as int)),
{
    let ghost line = v@.subrange(st as int, en as int);
    let ghost dashes = seq!['-', '-', '-'];
    let mut i: usize = st;
    while i < en && is_whitespace(v[i])
        invariant
            st <= i <= en <= v.len(),
            forall|k: int| st <= k < i ==> is_ws(v@[k]),
        decreases en - i,
    {
        i = i + 1;
    }
    if en - i < 3 || v[i] != '-' || v[i + 1] != '-' || v[i + 2] != '-' {
        proof {
            if is_fence(line) {
                let j = choose|j: int|
                    0 <= j && j + 3 <= line.len() && #[trigger] line.subrange(j, j + 3) == dashes
                        && (forall|k: int| 0 <= k < j ==> is_ws(#[trigger] line[k]))
                        && (forall|k: int| j + 3 <= k < line.len() ==> is_ws(#[trigger] line[k]));
                assert(line.subrange(j, j + 3)[0] == '-');
                assert(!is_ws('-'));
                if j < i - st {
                    assert(is_ws(v@[st + j]));
                    assert(line[j] == v@[st + j]);
                } else if j > i - st {
                    assert(line[i - st] == v@[i as int]);
                    if i < en {
                        assert(!is_ws(v@[i as int]));
                    }
                } else {
                    assert(line[j + 1] == line.subrange(j, j + 3)[1]);
                    assert(line[j + 2] == line.subrange(j, j + 3)[2]);
                }
            }
        }
        return false;
    }
    let mut e: usize = i + 3;
    while e < en && is_whitespace(v[e])
        invariant
            i + 3 <= e <= en <= v.len(),
            forall|k: int| i + 3 <= k < e ==> is_ws(v@[k]),
        decreases en - e,
    {
        e = e + 1;
    }
    let r = e == en;
    proof {
        let j = i - st;
        if r {
            assert(line.subrange(j, j + 3) =~= dashes);
            assert forall|k: int| 0 <= k < j implies is_ws(#[trigger] line[k]) by {
                assert(line[k] == v@[st + k]);
            }
            assert forall|k: int| j + 3 <= k < line.len() implies is_ws(#[trigger] line[k]) by {
                assert(line[k] == v@[st + k]);
            }
        } else if is_fence(line) {
            let j2 = choose|j2: int|
                0 <= j2 && j2 + 3 <= line.len() && #[trigger] line.subrange(j2, j2 + 3) == dashes
                    && (forall|k: int| 0 <= k < j2 ==> is_ws(#[trigger] line[k]))
                    && (forall|k: int| j2 + 3 <= k < line.len() ==> is_ws(#[trigger] line[k]));
            assert(line.subrange(j2, j2 + 3)[0] == '-');
            assert(!is_ws('-'));
            assert(!is_ws(v@[e as int]));
            assert(line[e - st] == v@[e as int]);
            if j2 < j {
                assert(line[j2] == v@[st + j2]);
            } else if j2 > j {
                assert(line[j] == v@[i as int]);
            }
        }
    }
    r
}

} // verus!
