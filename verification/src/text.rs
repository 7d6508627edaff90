//! Case-insensitive matching of short ASCII keywords.
//!
//! The client accepts topic, speaker and format selectors in any letter case
//! ("GENERIC", "Generic", "generic"). Selectors are compared against a fixed
//! lowercase keyword after lowercase folding. The fold moves the ASCII
//! uppercase letters down and maps the kelvin sign, U+212A, to 'k' — the one
//! scalar outside 'A'..='Z' whose Unicode lowercase is a single ASCII
//! letter. The only multi-character lowercase expansion, of U+0130, contains
//! a non-ASCII combining mark. So, against an all-ASCII lowercase keyword,
//! this comparison accepts exactly the selectors whose Unicode lowercasing
//! equals the keyword.

use vstd::prelude::*;
use vstd::string::StrSliceExecFns;

verus! {

/// Lowercase folding of one Unicode scalar value, as far as it can reach an
/// ASCII letter: the uppercase letters 65..=90 ('A'..='Z') move down by 32,
/// the kelvin sign U+212A becomes 107 ('k'), everything else stays.
pub open spec fn lower_scalar(u: u32) -> u32 {
    if 65 <= u && u <= 90 {
        (u + 32) as u32
    } else if u == 0x212A {
        107
    } else {
        u
    }
}

/// `s` equals `keyword` once its characters are folded to lowercase. The
/// keyword itself is compared as written.
pub open spec fn matches_lowered(s: Seq<char>, keyword: Seq<char>) -> bool {
    &&& s.len() == keyword.len()
    &&& forall|i: int|
        0 <= i < s.len() ==> lower_scalar(s[i] as u32) == (#[trigger] keyword[i]) as u32
}

/// Two keywords that differ at some position cannot both be matched by one
/// selector.
pub proof fn lemma_matches_lowered_excludes(s: Seq<char>, k1: Seq<char>, k2: Seq<char>, i: int)
    requires
        0 <= i < k1.len(),
        0 <= i < k2.len(),
        (k1[i] as u32) != (k2[i] as u32),
        matches_lowered(s, k1),
    ensures
        !matches_lowered(s, k2),
{
    if matches_lowered(s, k2) {
        assert(lower_scalar(s[i] as u32) == (k1[i]) as u32);
        assert(lower_scalar(s[i] as u32) == (k2[i]) as u32);
    }
}

/// Compares `s` against `keyword`, folding the characters of `s` to
/// lowercase.
pub fn eq_lowered(s: &str, keyword: &str) -> (r: bool)
    ensures
        r == matches_lowered(s@, keyword@),
{
    let n = s.unicode_len();
    let m = keyword.unicode_len();
    if n != m {
        return false;
    }
    let mut i: usize = 0;
    while i < n
        invariant
            n == s@.len(),
            n == keyword@.len(),
            i <= n,
            forall|j: int|
                0 <= j < i ==> lower_scalar(s@[j] as u32) == (#[trigger] keyword@[j]) as u32,
        decreases n - i,
    {
        let c = s.get_char(i) as u32;
        let k = keyword.get_char(i) as u32;
        let folded = if 65 <= c && c <= 90 {
            c + 32
        } else if c == 0x212A {
            107
        } else {
            c
        };
        if folded != k {
            return false;
        }
        i += 1;
    }
    true
}

} // verus!
