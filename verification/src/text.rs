//! Verified string helpers shared by the other modules.
//!
//! Strings are modelled by their view, a `Seq<char>`.  Every helper here
//! states its result over that view.

use vstd::prelude::*;

verus! {

/// Appends one character to a string (std `String::push`).
#[verifier::external_body]
pub(crate) fn push_char(s: &mut String, c: char)
    ensures
        final(s)@ == old(s)@.push(c),
{
    s.push(c);
}

/// The view of an optional string.
pub open spec fn opt_str(o: Option<String>) -> Option<Seq<char>> {
    match o {
        Some(s) => Some(s@),
        None => None,
    }
}

/// The view of an optional string slice.
pub open spec fn opt_str_ref(o: Option<&str>) -> Option<Seq<char>> {
    match o {
        Some(s) => Some(s@),
        None => None,
    }
}

/// `str::to_lowercase` of a text: the Unicode lowercase mapping.
pub uninterp spec fn lowercase_of(s: Seq<char>) -> Seq<char>;

/// A text of ASCII characters with `A`..`Z` turned into `a`..`z`.
pub open spec fn ascii_lowercase(s: Seq<char>) -> Seq<char> {
    s.map_values(|c: char| if 'A' <= c && c <= 'Z' { ((c as int) + 32) as char } else { c })
}

/// `str::to_lowercase`: the lowercase equivalent of a text under the
/// Unicode `Lowercase` property.  On an ASCII text it is the ASCII mapping
/// (`A`..`Z` to `a`..`z`, everything else kept), as Unicode's lowercase
/// mapping of those characters is; nothing more is stated of the mapping.
#[verifier::external_body]
pub(crate) fn to_lowercase(s: &str) -> (r: String)
    ensures
        r@ == lowercase_of(s@),
        (forall|i: int| 0 <= i < s@.len() ==> (#[trigger] s@[i] as int) < 128) ==> r@ == ascii_lowercase(s@),
{
    s.to_lowercase()
}

/// A copy of an optional string.
pub fn clone_opt(o: &Option<String>) -> (r: Option<String>)
    ensures
        opt_str(r) == opt_str(*o),
{
    match o {
        Some(s) => Some(s.clone()),
        None => None,
    }
}

/// `o.unwrap_or_default()` of an optional string, as a view.
pub open spec fn str_or_empty(o: Option<Seq<char>>) -> Seq<char> {
    match o {
        Some(s) => s,
        None => Seq::empty(),
    }
}

/// Collects the characters of a string slice into a vector.
pub fn chars_of(s: &str) -> (out: Vec<char>)
    ensures
        out@ == s@,
{
    let mut out: Vec<char> = Vec::new();
    for c in it: s.chars()
        invariant
            out@ == it.seq().take(it.index() as int),
    {
        out.push(c);
    }
    proof {
        assert(out@ =~= s@);
    }
    out
}

/// Builds a string from the characters `v[lo..hi]`.
pub fn string_from_range(v: &Vec<char>, lo: usize, hi: usize) -> (out: String)
    requires
        lo <= hi <= v.len(),
    ensures
        out@ == v@.subrange(lo as int, hi as int),
{
    let mut out = String::new();
    let mut i = lo;
    while i < hi
        invariant
            lo <= i <= hi <= v.len(),
            out@ == v@.subrange(lo as int, i as int),
        decreases hi - i,
    {
        push_char(&mut out, v[i]);
        proof {
            assert(v@.subrange(lo as int, i + 1) =~= v@.subrange(lo as int, i as int).push(v@[i as int]));
        }
        i = i + 1;
    }
    out
}

/// Equality of two string slices, character by character.
pub fn str_eq(a: &str, b: &str) -> (res: bool)
    ensures
        res == (a@ == b@),
{
    let x = a.to_owned();
    let y = b.to_owned();
    x == y
}

/// Whether `p` is a prefix of `s`.
pub open spec fn has_prefix(s: Seq<char>, p: Seq<char>) -> bool {
    p.len() <= s.len() && s.take(p.len() as int) == p
}

/// Whether `p` is a suffix of `s`.
pub open spec fn has_suffix(s: Seq<char>, p: Seq<char>) -> bool {
    p.len() <= s.len() && s.skip(s.len() - p.len()) == p
}

/// Whether `p` occurs in `s` at position `i`.
pub open spec fn occurs_at(s: Seq<char>, p: Seq<char>, i: int) -> bool {
    0 <= i && i + p.len() <= s.len() && s.subrange(i, i + p.len()) == p
}

/// Whether `p` occurs anywhere in `s`.
pub open spec fn has_substring(s: Seq<char>, p: Seq<char>) -> bool {
    exists|i: int| occurs_at(s, p, i)
}

/// Whether `p` matches `s` at position `i` (exec on char vectors).
pub fn matches_at(s: &Vec<char>, p: &Vec<char>, i: usize) -> (res: bool)
    requires
        i <= s.len(),
    ensures
        res == occurs_at(s@, p@, i as int),
{
    if p.len() > s.len() - i {
        return false;
    }
    let mut k: usize = 0;
    while k < p.len()
        invariant
            i + p.len() <= s.len(),
            k <= p.len(),
            forall|j: int| 0 <= j < k ==> s@[i + j] == p@[j],
        decreases p.len() - k,
    {
        if s[i + k] != p[k] {
            proof {
                assert(s@.subrange(i as int, i + p.len())[k as int] != p@[k as int]);
            }
            return false;
        }
        k = k + 1;
    }
    proof {
        assert(s@.subrange(i as int, i + p.len()) =~= p@);
    }
    true
}

/// Whether `p` is a prefix of `s`.
pub fn starts_with(s: &str, p: &str) -> (res: bool)
    ensures
        res == has_prefix(s@, p@),
{
    let sv = chars_of(s);
    let pv = chars_of(p);
    let r = matches_at(&sv, &pv, 0);
    proof {
        if r {
            assert(sv@.subrange(0, pv@.len() as int) =~= sv@.take(pv@.len() as int));
        }
        if has_prefix(s@, p@) {
            assert(sv@.subrange(0, pv@.len() as int) =~= sv@.take(pv@.len() as int));
        }
    }
    r
}

/// Whether `p` occurs anywhere in `s`.
pub fn contains(s: &str, p: &str) -> (res: bool)
    ensures
        res == has_substring(s@, p@),
{
    let sv = chars_of(s);
    let pv = chars_of(p);
    let mut i: usize = 0;
    while i < sv.len()
        invariant
            sv@ == s@,
            pv@ == p@,
            i <= sv.len(),
            forall|j: int| 0 <= j < i ==> !occurs_at(s@, p@, j),
        decreases sv.len() - i,
    {
        if matches_at(&sv, &pv, i) {
            return true;
        }
        i = i + 1;
    }
    if matches_at(&sv, &pv, i) {
        return true;
    }
    proof {
        assert forall|j: int| !occurs_at(s@, p@, j) by {
            if 0 <= j < i {
            }
        }
    }
    false
}

} // verus!
