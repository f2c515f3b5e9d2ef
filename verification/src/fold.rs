//! Case-insensitive matching of keywords and prefixes: letters match regardless of case
//! for ASCII; every other character matches only itself. No character is a wildcard.
use vstd::prelude::*;

verus! {

/// An ASCII character (below U+0080).
pub open spec fn is_ascii_char(c: char) -> bool {
    (c as u32) < 0x80
}

/// The ASCII lower-case form of `c`; any other character is returned unchanged.
pub open spec fn ascii_lower(c: char) -> char {
    if 'A' <= c && c <= 'Z' {
        ((c as int) + 32) as char
    } else {
        c
    }
}

/// Executable `ascii_lower`.
pub fn to_ascii_lower(c: char) -> (r: char)
    ensures
        r == ascii_lower(c),
{
    if 'A' <= c && c <= 'Z' {
        let u = ((c as u32) + 32) as u8;
        u as char
    } else {
        c
    }
}

/// Character `p` of a keyword matches character `t` of a text: equal, or both ASCII with
/// the same lower-case form.
pub open spec fn char_matches(p: char, t: char) -> bool {
    p == t || (is_ascii_char(p) && is_ascii_char(t) && ascii_lower(p) == ascii_lower(t))
}

/// The text `u` starts with `p`, letter case aside.
pub open spec fn starts_with_ci(u: Seq<char>, p: Seq<char>) -> bool {
    u.len() >= p.len() && forall|k: int| 0 <= k < p.len() ==> #[trigger] char_matches(p[k], u[k])
}

/// The text `t` contains `p` at some position, letter case aside.
pub open spec fn contains_ci(t: Seq<char>, p: Seq<char>) -> bool {
    exists|i: int| 0 <= i <= t.len() && #[trigger] starts_with_ci(t.skip(i), p)
}

/// Executable `char_matches`.
fn char_match(p: char, t: char) -> (r: bool)
    ensures
        r == char_matches(p, t),
{
    p == t || ((p as u32) < 0x80 && (t as u32) < 0x80 && to_ascii_lower(p) == to_ascii_lower(t))
}

/// Whether `u` from position `start` on starts with `p`, letter case aside.
fn starts_at_ci(u: &Vec<char>, start: usize, p: &Vec<char>) -> (r: bool)
    requires
        start <= u@.len(),
    ensures
        r == starts_with_ci(u@.skip(start as int), p@),
{
    let ghost s = u@.skip(start as int);
    if u.len() - start < p.len() {
        return false;
    }
    let mut k: usize = 0;
    while k < p.len()
        invariant
            start <= u@.len(),
            s == u@.skip(start as int),
            start + p.len() <= u.len(),
            k <= p@.len(),
            forall|j: int| 0 <= j < k ==> #[trigger] char_matches(p@[j], s[j]),
        decreases p@.len() - k,
    {
        assert(s[k as int] == u@[start + k]);
        if !char_match(p[k], u[start + k]) {
            return false;
        }
        k = k + 1;
    }
    true
}

/// Whether `u` starts with `p`, letter case aside.
pub fn starts_with_chars_ci(u: &Vec<char>, p: &Vec<char>) -> (r: bool)
    ensures
        r == starts_with_ci(u@, p@),
{
    assert(u@.skip(0) =~= u@);
    starts_at_ci(u, 0, p)
}

/// Whether `t` contains `p` at some position, letter case aside.
pub fn contains_chars_ci(t: &Vec<char>, p: &Vec<char>) -> (r: bool)
    ensures
        r == contains_ci(t@, p@),
{
    let n = t.len();
    let mut i: usize = 0;
    while i < n
        invariant
            n == t@.len(),
            i <= n,
            forall|j: int| 0 <= j < i ==> !#[trigger] starts_with_ci(t@.skip(j), p@),
        decreases n - i,
    {
        if starts_at_ci(t, i, p) {
            return true;
        }
        i = i + 1;
    }
    starts_at_ci(t, n, p)
}

} // verus!
