//! Characters, white space at the boundary of a record, and the step from a
//! `str` to its characters.

use vstd::prelude::*;
use vstd::slice::slice_subrange;

verus! {

/// Whether `c` has the Unicode property White_Space.
pub open spec fn is_whitespace(c: char) -> bool {
    ||| '\u{9}' <= c <= '\u{d}'
    ||| c == ' '
    ||| c == '\u{85}'
    ||| c == '\u{a0}'
    ||| c == '\u{1680}'
    ||| '\u{2000}' <= c <= '\u{200a}'
    ||| c == '\u{2028}'
    ||| c == '\u{2029}'
    ||| c == '\u{202f}'
    ||| c == '\u{205f}'
    ||| c == '\u{3000}'
}

/// `s` without the white space at its front.
pub open spec fn trim_start(s: Seq<char>) -> Seq<char>
    decreases s.len(),
{
    if s.len() > 0 && is_whitespace(s[0]) {
        trim_start(s.drop_first())
    } else {
        s
    }
}

/// `s` without the white space at its end.
pub open spec fn trim_end(s: Seq<char>) -> Seq<char>
    decreases s.len(),
{
    if s.len() > 0 && is_whitespace(s.last()) {
        trim_end(s.drop_last())
    } else {
        s
    }
}

/// `s` without the white space at either end.
pub open spec fn trim(s: Seq<char>) -> Seq<char> {
    trim_end(trim_start(s))
}

/// Whether `pattern` stands in `t` at index `i`.
pub open spec fn matches_at(t: Seq<char>, i: int, pattern: Seq<char>) -> bool {
    &&& 0 <= i
    &&& i + pattern.len() <= t.len()
    &&& t.subrange(i, i + pattern.len()) == pattern
}

/// A pattern stands in `t` at index `i` exactly where it stands at the front
/// of what `t` holds from `i` on.
pub proof fn lemma_matches_at_skip(t: Seq<char>, i: int, pattern: Seq<char>)
    requires
        0 <= i <= t.len(),
    ensures
        matches_at(t, i, pattern) == matches_at(t.skip(i), 0, pattern),
{
    if i + pattern.len() <= t.len() {
        assert(t.skip(i).subrange(0, pattern.len() as int) =~= t.subrange(i, i + pattern.len()));
    }
}

/// Whether `c` is white space.
pub fn whitespace(c: char) -> (b: bool)
    ensures
        b == is_whitespace(c),
{
    ('\u{9}' <= c && c <= '\u{d}') || c == ' ' || c == '\u{85}' || c == '\u{a0}' || c
        == '\u{1680}' || ('\u{2000}' <= c && c <= '\u{200a}') || c == '\u{2028}' || c
        == '\u{2029}' || c == '\u{202f}' || c == '\u{205f}' || c == '\u{3000}'
}

/// The characters of `s`, in order.
pub fn to_chars(s: &str) -> (v: Vec<char>)
    ensures
        v@ == s@,
{
    let mut v: Vec<char> = Vec::new();
    for c in it: s.chars()
        invariant
            v@ == it.seq().take(it.index() as int),
            it.seq() == s@,
    {
        v.push(c);
    }
    v
}

/// The part of `s` between its leading and its trailing white space.
pub fn trim_slice<'a>(s: &'a [char]) -> (r: &'a [char])
    ensures
        r@ == trim(s@),
{
    let mut a: usize = 0;
    assert(s@.skip(0) =~= s@);
    while a < s.len() && whitespace(s[a])
        invariant
            a <= s.len(),
            trim_start(s@) == trim_start(s@.skip(a as int)),
        decreases s.len() - a,
    {
        assert(s@.skip(a as int).drop_first() =~= s@.skip(a + 1));
        a += 1;
    }
    let mut b: usize = s.len();
    while b > a && whitespace(s[b - 1])
        invariant
            a <= b <= s.len(),
            trim(s@) == trim_end(s@.subrange(a as int, b as int)),
        decreases b - a,
    {
        assert(s@.subrange(a as int, b as int).drop_last() =~= s@.subrange(a as int, b - 1));
        b -= 1;
    }
    slice_subrange(s, a, b)
}

/// Steps over `pattern` where it stands in `s` at index `i`: the index behind
/// it, or `None` where something else stands there.
pub fn skip_text(s: &[char], i: usize, pattern: &str) -> (r: Option<usize>)
    ensures
        match r {
            Some(j) => matches_at(s@, i as int, pattern@) && j == i + pattern@.len(),
            None => !matches_at(s@, i as int, pattern@),
        },
{
    let p = to_chars(pattern);
    if i > s.len() || p.len() > s.len() - i {
        return None;
    }
    let mut j: usize = 0;
    while j < p.len()
        invariant
            j <= p.len(),
            i + p.len() <= s.len(),
            p@ == pattern@,
            s@.subrange(i as int, i + j) == p@.take(j as int),
        decreases p.len() - j,
    {
        if s[i + j] != p[j] {
            return None;
        }
        j += 1;
    }
    assert(p@.take(j as int) =~= p@);
    Some(i + j)
}

} // verus!
