//! Verified trimming and affix stripping on strings.
//!
//! These follow the std `str` methods of the same names: `trim` (Unicode
//! White_Space), `strip_prefix`, `strip_suffix`, `trim_start_matches` and
//! `trim_end_matches` with a string or a character pattern.

use vstd::prelude::*;
use crate::text::{chars_of, string_from_range, has_prefix, has_suffix};

verus! {

/// The Unicode `White_Space` property, as used by `char::is_whitespace`.
pub open spec fn is_ws(c: char) -> bool {
    ||| ('\u{9}' <= c && c <= '\u{d}')
    ||| c == ' '
    ||| c == '\u{85}'
    ||| c == '\u{a0}'
    ||| c == '\u{1680}'
    ||| ('\u{2000}' <= c && c <= '\u{200a}')
    ||| c == '\u{2028}'
    ||| c == '\u{2029}'
    ||| c == '\u{202f}'
    ||| c == '\u{205f}'
    ||| c == '\u{3000}'
}

/// Executable form of [`is_ws`].
pub fn is_whitespace(c: char) -> (res: bool)
    ensures
        res == is_ws(c),
{
    ('\u{9}' <= c && c <= '\u{d}') || c == ' ' || c == '\u{85}' || c == '\u{a0}' || c == '\u{1680}'
        || ('\u{2000}' <= c && c <= '\u{200a}') || c == '\u{2028}' || c == '\u{2029}'
        || c == '\u{202f}' || c == '\u{205f}' || c == '\u{3000}'
}

/// `s` without its leading white space.
pub open spec fn trim_start_seq(s: Seq<char>) -> Seq<char>
    decreases s.len(),
{
    if s.len() > 0 && is_ws(s[0]) {
        trim_start_seq(s.drop_first())
    } else {
        s
    }
}

/// `s` without its trailing white space.
pub open spec fn trim_end_seq(s: Seq<char>) -> Seq<char>
    decreases s.len(),
{
    if s.len() > 0 && is_ws(s.last()) {
        trim_end_seq(s.drop_last())
    } else {
        s
    }
}

/// `s` without leading and trailing white space (`str::trim`).
pub open spec fn trim_seq(s: Seq<char>) -> Seq<char> {
    trim_end_seq(trim_start_seq(s))
}

/// `s` with every leading occurrence of the non-empty pattern `p` removed
/// (`str::trim_start_matches`).
pub open spec fn trim_start_matches_seq(s: Seq<char>, p: Seq<char>) -> Seq<char>
    decreases s.len(),
{
    if p.len() > 0 && has_prefix(s, p) {
        trim_start_matches_seq(s.skip(p.len() as int), p)
    } else {
        s
    }
}

/// `s` with every trailing occurrence of the non-empty pattern `p` removed
/// (`str::trim_end_matches`).
pub open spec fn trim_end_matches_seq(s: Seq<char>, p: Seq<char>) -> Seq<char>
    decreases s.len(),
{
    if p.len() > 0 && has_suffix(s, p) {
        trim_end_matches_seq(s.take(s.len() - p.len()), p)
    } else {
        s
    }
}

proof fn lemma_trim_start_step(v: Seq<char>, i: int)
    requires
        0 <= i < v.len(),
        is_ws(v[i]),
    ensures
        trim_start_seq(v.subrange(i, v.len() as int)) == trim_start_seq(v.subrange(i + 1, v.len() as int)),
{
    assert(v.subrange(i, v.len() as int).drop_first() =~= v.subrange(i + 1, v.len() as int));
}

proof fn lemma_trim_end_step(v: Seq<char>, lo: int, j: int)
    requires
        0 <= lo < j <= v.len(),
        is_ws(v[j - 1]),
    ensures
        trim_end_seq(v.subrange(lo, j)) == trim_end_seq(v.subrange(lo, j - 1)),
{
    assert(v.subrange(lo, j).drop_last() =~= v.subrange(lo, j - 1));
}

/// Index range of `trim_seq(v)` inside `v`.
fn trim_bounds(v: &Vec<char>) -> (r: (usize, usize))
    ensures
        r.0 <= r.1 <= v.len(),
        v@.subrange(r.0 as int, r.1 as int) == trim_seq(v@),
{
    let mut i: usize = 0;
    proof {
        assert(v@.subrange(0, v@.len() as int) =~= v@);
    }
    while i < v.len() && is_whitespace(v[i])
        invariant
            i <= v.len(),
            trim_start_seq(v@.subrange(i as int, v@.len() as int)) == trim_start_seq(v@),
        decreases v.len() - i,
    {
        proof {
            lemma_trim_start_step(v@, i as int);
        }
        i = i + 1;
    }
    let ghost t = v@.subrange(i as int, v@.len() as int);
    proof {
        assert(trim_start_seq(t) == t);
        assert(trim_start_seq(v@) == t);
    }
    let mut j: usize = v.len();
    while j > i && is_whitespace(v[j - 1])
        invariant
            i <= j <= v.len(),
            trim_end_seq(v@.subrange(i as int, j as int)) == trim_seq(v@),
        decreases j,
    {
        proof {
            lemma_trim_end_step(v@, i as int, j as int);
        }
        j = j - 1;
    }
    proof {
        let u = v@.subrange(i as int, j as int);
        if u.len() > 0 {
            assert(u.last() == v@[j - 1]);
        }
        assert(trim_end_seq(u) == u);
    }
    (i, j)
}

/// Trimming the start removes exactly the leading white space: the result
/// is what follows the first `i` characters of `s`, all of them white
/// space, and it does not begin with white space.
pub proof fn lemma_trim_start_shape(s: Seq<char>) -> (i: int)
    ensures
        0 <= i <= s.len(),
        trim_start_seq(s) == s.skip(i),
        forall|k: int| 0 <= k < i ==> is_ws(#[trigger] s[k]),
        trim_start_seq(s).len() > 0 ==> !is_ws(trim_start_seq(s)[0]),
    decreases s.len(),
{
    if s.len() > 0 && is_ws(s[0]) {
        let j = lemma_trim_start_shape(s.drop_first());
        assert(s.drop_first().skip(j) =~= s.skip(j + 1));
        assert forall|k: int| 0 <= k < j + 1 implies is_ws(#[trigger] s[k]) by {
            if k > 0 {
                assert(s[k] == s.drop_first()[k - 1]);
            }
        }
        j + 1
    } else {
        assert(s.skip(0) =~= s);
        0
    }
}

/// Trimming the end removes exactly the trailing white space: the result
/// is the first `j` characters of `s`, everything after them is white
/// space, and it does not end with white space.
pub proof fn lemma_trim_end_shape(s: Seq<char>) -> (j: int)
    ensures
        0 <= j <= s.len(),
        trim_end_seq(s) == s.take(j),
        forall|k: int| j <= k < s.len() ==> is_ws(#[trigger] s[k]),
        trim_end_seq(s).len() > 0 ==> !is_ws(trim_end_seq(s).last()),
    decreases s.len(),
{
    if s.len() > 0 && is_ws(s.last()) {
        let j = lemma_trim_end_shape(s.drop_last());
        assert(s.drop_last().take(j) =~= s.take(j));
        assert forall|k: int| j <= k < s.len() implies is_ws(#[trigger] s[k]) by {
            if k < s.len() - 1 {
                assert(s[k] == s.drop_last()[k]);
            }
        }
        j
    } else {
        assert(s.take(s.len() as int) =~= s);
        s.len() as int
    }
}

/// `trim` keeps the middle of a text: the result is the part of `s` from
/// `i` to `j`, everything before `i` and after `j` is white space, the
/// result neither begins nor ends with white space, and trimming again
/// changes nothing.
pub proof fn lemma_trim_shape(s: Seq<char>) -> (r: (int, int))
    ensures
        0 <= r.0 <= r.1 <= s.len(),
        trim_seq(s) == s.subrange(r.0, r.1),
        forall|k: int| 0 <= k < r.0 ==> is_ws(#[trigger] s[k]),
        forall|k: int| r.1 <= k < s.len() ==> is_ws(#[trigger] s[k]),
        trim_seq(s).len() > 0 ==> !is_ws(trim_seq(s)[0]) && !is_ws(trim_seq(s).last()),
        trim_seq(trim_seq(s)) == trim_seq(s),
{
    let i = lemma_trim_start_shape(s);
    let u = s.skip(i);
    let j = lemma_trim_end_shape(u);
    assert(u.take(j) =~= s.subrange(i, i + j));
    assert forall|k: int| i + j <= k < s.len() implies is_ws(#[trigger] s[k]) by {
        assert(s[k] == u[k - i]);
    }
    let t = trim_seq(s);
    if t.len() > 0 {
        assert(t[0] == u[0]);
    }
    // trimming again
    let i2 = lemma_trim_start_shape(t);
    if i2 > 0 {
        assert(t.len() > 0);
        assert(is_ws(t[0]));
    }
    assert(t.skip(0) =~= t);
    let j2 = lemma_trim_end_shape(t);
    if j2 < t.len() {
        assert(is_ws(t[t.len() - 1]));
    }
    assert(t.take(t.len() as int) =~= t);
    (i, i + j)
}

/// `str::trim`: removes leading and trailing white space.
pub fn trim(s: &str) -> (res: String)
    ensures
        res@ == trim_seq(s@),
{
    let v = chars_of(s);
    let (i, j) = trim_bounds(&v);
    string_from_range(&v, i, j)
}

/// `str::strip_prefix`: `s` without `p` when `p` is a prefix of `s`.
pub fn strip_prefix(s: &str, p: &str) -> (res: Option<String>)
    ensures
        has_prefix(s@, p@) <==> res is Some,
        res matches Some(r) ==> r@ == s@.skip(p@.len() as int),
{
    let v = chars_of(s);
    let pv = chars_of(p);
    if pv.len() <= v.len() && crate::text::matches_at(&v, &pv, 0) {
        proof {
            assert(v@.subrange(0, pv@.len() as int) =~= v@.take(pv@.len() as int));
        }
        let r = string_from_range(&v, pv.len(), v.len());
        proof {
            assert(v@.subrange(pv@.len() as int, v@.len() as int) =~= v@.skip(pv@.len() as int));
        }
        Some(r)
    } else {
        proof {
            if has_prefix(s@, p@) {
                assert(v@.subrange(0, pv@.len() as int) =~= v@.take(pv@.len() as int));
            }
        }
        None
    }
}

/// `str::strip_suffix`: `s` without `p` when `p` is a suffix of `s`.
pub fn strip_suffix(s: &str, p: &str) -> (res: Option<String>)
    ensures
        has_suffix(s@, p@) <==> res is Some,
        res matches Some(r) ==> r@ == s@.take(s@.len() - p@.len()),
{
    let v = chars_of(s);
    let pv = chars_of(p);
    if pv.len() <= v.len() && crate::text::matches_at(&v, &pv, v.len() - pv.len()) {
        proof {
            assert(v@.subrange(v@.len() - pv@.len(), v@.len() as int) =~= v@.skip(v@.len() - pv@.len()));
        }
        let r = string_from_range(&v, 0, v.len() - pv.len());
        proof {
            assert(v@.subrange(0, v@.len() - pv@.len()) =~= v@.take(v@.len() - pv@.len()));
        }
        Some(r)
    } else {
        proof {
            if has_suffix(s@, p@) {
                assert(v@.subrange(v@.len() - pv@.len(), v@.len() as int) =~= v@.skip(v@.len() - pv@.len()));
            }
        }
        None
    }
}

/// `str::trim_start_matches` with a string pattern.
pub fn trim_start_matches(s: &str, p: &str) -> (res: String)
    ensures
        res@ == trim_start_matches_seq(s@, p@),
{
    let v = chars_of(s);
    let pv = chars_of(p);
    let mut i: usize = 0;
    proof {
        assert(v@.subrange(0, v@.len() as int) =~= v@);
    }
    while pv.len() > 0 && pv.len() <= v.len() - i && crate::text::matches_at(&v, &pv, i)
        invariant
            i <= v.len(),
            pv@ == p@,
            trim_start_matches_seq(v@.subrange(i as int, v@.len() as int), p@) == trim_start_matches_seq(s@, p@),
        decreases v.len() - i,
    {
        proof {
            let t = v@.subrange(i as int, v@.len() as int);
            assert(t.take(p@.len() as int) =~= v@.subrange(i as int, i + p@.len()));
            assert(t.skip(p@.len() as int) =~= v@.subrange(i + p@.len(), v@.len() as int));
        }
        i = i + pv.len();
    }
    proof {
        let t = v@.subrange(i as int, v@.len() as int);
        if p@.len() > 0 && has_prefix(t, p@) {
            assert(t.take(p@.len() as int) =~= v@.subrange(i as int, i + p@.len()));
        }
    }
    string_from_range(&v, i, v.len())
}

/// `str::trim_end_matches` with a string pattern.
pub fn trim_end_matches(s: &str, p: &str) -> (res: String)
    ensures
        res@ == trim_end_matches_seq(s@, p@),
{
    let v = chars_of(s);
    let pv = chars_of(p);
    let mut j: usize = v.len();
    proof {
        assert(v@.subrange(0, v@.len() as int) =~= v@);
    }
    while pv.len() > 0 && pv.len() <= j && crate::text::matches_at(&v, &pv, j - pv.len())
        invariant
            j <= v.len(),
            pv@ == p@,
            trim_end_matches_seq(v@.subrange(0, j as int), p@) == trim_end_matches_seq(s@, p@),
        decreases j,
    {
        proof {
            let t = v@.subrange(0, j as int);
            assert(t.skip(t.len() - p@.len()) =~= v@.subrange(j - p@.len(), j as int));
            assert(t.take(t.len() - p@.len()) =~= v@.subrange(0, j - p@.len()));
        }
        j = j - pv.len();
    }
    proof {
        let t = v@.subrange(0, j as int);
        if p@.len() > 0 && has_suffix(t, p@) {
            assert(t.skip(t.len() - p@.len()) =~= v@.subrange(j - p@.len(), j as int));
        }
    }
    string_from_range(&v, 0, j)
}

/// `s` with every trailing `c` removed (`str::trim_end_matches` with a char).
pub open spec fn trim_end_char_seq(s: Seq<char>, c: char) -> Seq<char>
    decreases s.len(),
{
    if s.len() > 0 && s.last() == c {
        trim_end_char_seq(s.drop_last(), c)
    } else {
        s
    }
}

/// `str::trim_end_matches` with a character pattern.
pub fn trim_end_char(s: &str, c: char) -> (res: String)
    ensures
        res@ == trim_end_char_seq(s@, c),
{
    let v = chars_of(s);
    let mut j: usize = v.len();
    proof {
        assert(v@.subrange(0, v@.len() as int) =~= v@);
    }
    while j > 0 && v[j - 1] == c
        invariant
            j <= v.len(),
            trim_end_char_seq(v@.subrange(0, j as int), c) == trim_end_char_seq(s@, c),
        decreases j,
    {
        proof {
            assert(v@.subrange(0, j as int).drop_last() =~= v@.subrange(0, j - 1));
        }
        j = j - 1;
    }
    string_from_range(&v, 0, j)
}

} // verus!
