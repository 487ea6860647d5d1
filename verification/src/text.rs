//! Character-level helpers shared by the parser and the renderers.

use vstd::prelude::*;

verus! {

/// Whether a character counts as whitespace when a line is trimmed.
pub uninterp spec fn ws_char(c: char) -> bool;

/// Relies on `char::is_whitespace`: the result depends on the character
/// alone (the Unicode `White_Space` property).
#[verifier::external_body]
pub(crate) fn is_ws(c: char) -> (r: bool)
    ensures
        r == ws_char(c),
{
    c.is_whitespace()
}

/// Relies on `String`'s `FromIterator<char>`: collecting yields a string of
/// exactly the given characters, in order.
#[verifier::external_body]
pub(crate) fn chars_to_string(v: &Vec<char>) -> (r: String)
    ensures
        r@ == v@,
{
    v.iter().collect()
}

/// The position of the first occurrence of `c` in `s`, or `s.len()` when `c`
/// does not occur.
pub open spec fn idx_of(s: Seq<char>, c: char) -> int
    decreases s.len(),
{
    if s.len() == 0 {
        0
    } else if s[0] == c {
        0
    } else {
        1 + idx_of(s.drop_first(), c)
    }
}

proof fn lemma_idx_of_at(s: Seq<char>, c: char, j: int)
    requires
        0 <= j <= s.len(),
        forall|k: int| 0 <= k < j ==> s[k] != c,
        j < s.len() ==> s[j] == c,
    ensures
        idx_of(s, c) == j,
    decreases s.len(),
{
    if j == 0 {
        if s.len() > 0 {
            assert(s[0] == c);
        }
    } else {
        assert(s[0] != c);
        assert forall|k: int| 0 <= k < j - 1 implies s.drop_first()[k] != c by {
            assert(s.drop_first()[k] == s[k + 1]);
        }
        if j - 1 < s.drop_first().len() {
            assert(s.drop_first()[j - 1] == s[j]);
        }
        lemma_idx_of_at(s.drop_first(), c, j - 1);
    }
}

/// Finds the first occurrence of `c` in `s`; the length of `s` stands for
/// "not found".
pub fn find_char(s: &str, c: char) -> (r: usize)
    ensures
        r as int == idx_of(s@, c),
        r <= s@.len(),
{
    let n = s.unicode_len();
    let mut j: usize = 0;
    while j < n
        invariant
            n == s@.len(),
            j <= n,
            forall|k: int| 0 <= k < j ==> s@[k] != c,
        decreases n - j,
    {
        if s.get_char(j) == c {
            proof {
                lemma_idx_of_at(s@, c, j as int);
            }
            return j;
        }
        j = j + 1;
    }
    proof {
        lemma_idx_of_at(s@, c, n as int);
    }
    n
}

/// The lower-case counterpart of an ASCII letter; any other character is
/// left unchanged.
pub open spec fn lower_char(c: char) -> char {
    if 'A' <= c && c <= 'Z' {
        ((c as u8) + 32) as char
    } else {
        c
    }
}

/// `s` with its ASCII letters lower-cased.
pub open spec fn lower_seq(s: Seq<char>) -> Seq<char> {
    s.map_values(|c: char| lower_char(c))
}

/// Lower-cases the ASCII letters of `s`.
pub fn to_ascii_lowercase(s: &str) -> (r: String)
    ensures
        r@ == lower_seq(s@),
{
    let n = s.unicode_len();
    let mut out: Vec<char> = Vec::new();
    let mut i: usize = 0;
    while i < n
        invariant
            n == s@.len(),
            i <= n,
            out@ == s@.take(i as int).map_values(|c: char| lower_char(c)),
        decreases n - i,
    {
        let c = s.get_char(i);
        let u = c as u32;
        if 65 <= u && u <= 90 {
            out.push(((u + 32) as u8) as char);
        } else {
            out.push(c);
        }
        assert(s@.take(i + 1 as int).map_values(|c: char| lower_char(c))
            =~= s@.take(i as int).map_values(|c: char| lower_char(c)).push(lower_char(s@[i as int])));
        i = i + 1;
    }
    assert(s@.take(n as int) =~= s@);
    chars_to_string(&out)
}

} // verus!
