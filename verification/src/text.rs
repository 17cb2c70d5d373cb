//! Small verified text helpers shared across the crate.

use vstd::prelude::*;

use crate::print::style::str_chars;

verus! {

/// Whether `n` occurs in `h` starting at offset `i`.
pub open spec fn matches_at(h: Seq<char>, n: Seq<char>, i: int) -> bool {
    0 <= i && i + n.len() <= h.len() && h.subrange(i, i + n.len() as int) == n
}

/// Whether `n` occurs anywhere in `h`.
pub open spec fn has_substring(h: Seq<char>, n: Seq<char>) -> bool {
    exists|i: int| matches_at(h, n, i)
}

/// Compare two string slices character by character.
pub fn str_eq(a: &str, b: &str) -> (r: bool)
    ensures
        r == (a@ == b@),
{
    let na = a.unicode_len();
    let nb = b.unicode_len();
    if na != nb {
        proof {
            assert(a@ != b@);
        }
        return false;
    }
    let mut i: usize = 0;
    while i < na
        invariant
            i <= na,
            na == a@.len(),
            na == b@.len(),
            forall|j: int| 0 <= j < i ==> a@[j] == b@[j],
        decreases na - i,
    {
        if a.get_char(i) != b.get_char(i) {
            return false;
        }
        i = i + 1;
    }
    proof {
        assert(a@ =~= b@);
    }
    true
}

/// Whether the needle occurs in the haystack, by direct search.
pub fn contains_str(hay: &str, needle: &str) -> (r: bool)
    ensures
        r == has_substring(hay@, needle@),
{
    let h = str_chars(hay);
    let n = str_chars(needle);
    contains_chars(&h, &n)
}

/// Whether the needle occurs in the haystack, by direct search.
pub fn contains_chars(h: &Vec<char>, n: &Vec<char>) -> (r: bool)
    ensures
        r == has_substring(h@, n@),
{
    let hn = h.len();
    let nn = n.len();
    if nn > hn {
        proof {
            assert(!has_substring(h@, n@)) by {
                assert(forall|i: int| !matches_at(h@, n@, i));
            }
        }
        return false;
    }
    let mut i: usize = 0;
    while i <= hn - nn
        invariant
            nn <= hn,
            hn == h@.len(),
            nn == n@.len(),
            i <= hn - nn + 1,
            forall|j: int| 0 <= j < i ==> !matches_at(h@, n@, j),
        decreases hn + 1 - nn - i,
    {
        let mut k: usize = 0;
        let mut all = true;
        while k < nn
            invariant
                i + nn <= hn,
                hn == h@.len(),
                nn == n@.len(),
                k <= nn,
                all == (forall|j: int| 0 <= j < k ==> h@[i + j] == n@[j]),
                !all ==> k == nn,
            decreases nn - k,
        {
            if h[i + k] != n[k] {
                all = false;
                proof {
                    assert(h@[i + k] != n@[k as int]);
                }
                k = nn;
            } else {
                proof {
                    assert forall|j: int| 0 <= j < k + 1 implies h@[i + j] == #[trigger] n@[j]
                        by {
                        if j < k {
                            assert(h@[i + j] == n@[j]);
                        }
                    }
                }
                k = k + 1;
            }
        }
        if all {
            proof {
                assert(h@.subrange(i as int, i + nn) =~= n@);
                assert(matches_at(h@, n@, i as int));
            }
            return true;
        }
        proof {
            if matches_at(h@, n@, i as int) {
                assert(h@.subrange(i as int, i + nn) == n@);
                assert forall|j: int| 0 <= j < nn implies h@[i + j] == #[trigger] n@[j] by {
                    assert(h@.subrange(i as int, i + nn)[j] == h@[i + j]);
                }
                assert(false);
            }
        }
        i = i + 1;
    }
    proof {
        assert forall|j: int| !(#[trigger] matches_at(h@, n@, j)) by {
            if 0 <= j && j + n@.len() <= h@.len() {
                assert(j < i);
            }
        }
    }
    false
}

/// Whether `s` starts with `p`.
pub fn starts_with_str(s: &str, p: &str) -> (r: bool)
    ensures
        r == (p@.len() <= s@.len() && s@.take(p@.len() as int) == p@),
{
    let ns = s.unicode_len();
    let np = p.unicode_len();
    if np > ns {
        return false;
    }
    let mut i: usize = 0;
    while i < np
        invariant
            np <= ns,
            ns == s@.len(),
            np == p@.len(),
            i <= np,
            forall|j: int| 0 <= j < i ==> s@[j] == p@[j],
        decreases np - i,
    {
        if s.get_char(i) != p.get_char(i) {
            proof {
                assert(s@.take(np as int)[i as int] != p@[i as int]);
            }
            return false;
        }
        i = i + 1;
    }
    proof {
        assert(s@.take(np as int) =~= p@);
    }
    true
}


/// Relies on `String`'s `FromIterator<char>` implementation: collecting an
/// iterator of characters yields a string holding exactly those characters.
#[verifier::external_body]
pub fn chars_to_string(v: &Vec<char>) -> (r: String)
    ensures
        r@ == v@,
{
    v.iter().collect()
}


/// The ASCII lowercase of a character: letters fold, everything else
/// passes through.
pub open spec fn lower_ascii(c: char) -> char {
    if 'A' <= c && c <= 'Z' {
        ((c as u32) + 32) as char
    } else {
        c
    }
}

/// A character sequence with every ASCII letter folded to lowercase.
pub open spec fn ascii_lower(s: Seq<char>) -> Seq<char> {
    Seq::new(s.len(), |i: int| lower_ascii(s[i]))
}

/// Relies on `char::from_u32`: every value below the surrogate range maps
/// to the character with that code point.
#[verifier::external_body]
pub(crate) fn char_from_u32_checked(x: u32) -> (r: char)
    requires
        x < 0xD800,
    ensures
        r as u32 == x,
{
    match char::from_u32(x) {
        Some(c) => c,
        None => ' ',
    }
}

/// Fold one character to ASCII lowercase.
pub fn to_lower_char(c: char) -> (r: char)
    ensures
        r == lower_ascii(c),
{
    if 'A' <= c && c <= 'Z' {
        char_from_u32_checked((c as u32) + 32)
    } else {
        c
    }
}

/// Compare a character vector against a string slice.
pub fn chars_eq_str(v: &Vec<char>, s: &str) -> (r: bool)
    ensures
        r == (v@ == s@),
{
    let n = s.unicode_len();
    if v.len() != n {
        proof {
            assert(v@ != s@);
        }
        return false;
    }
    let mut i: usize = 0;
    while i < n
        invariant
            i <= n,
            n == s@.len(),
            n == v@.len(),
            forall|j: int| 0 <= j < i ==> v@[j] == s@[j],
        decreases n - i,
    {
        if v[i] != s.get_char(i) {
            return false;
        }
        i = i + 1;
    }
    proof {
        assert(v@ =~= s@);
    }
    true
}

} // verus!
