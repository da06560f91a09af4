//! Character and string helpers shared by the scanner, the parser, the view
//! and name normalization: ASCII lowercasing, case-insensitive comparison,
//! character search and substring search.

use vstd::prelude::*;
use vstd::string::StrSliceExecFns;

verus! {

/// ASCII lowercasing of one character; anything but an ASCII capital is kept.
pub open spec fn lower_char(c: char) -> char {
    match c {
        'A' => 'a',
        'B' => 'b',
        'C' => 'c',
        'D' => 'd',
        'E' => 'e',
        'F' => 'f',
        'G' => 'g',
        'H' => 'h',
        'I' => 'i',
        'J' => 'j',
        'K' => 'k',
        'L' => 'l',
        'M' => 'm',
        'N' => 'n',
        'O' => 'o',
        'P' => 'p',
        'Q' => 'q',
        'R' => 'r',
        'S' => 's',
        'T' => 't',
        'U' => 'u',
        'V' => 'v',
        'W' => 'w',
        'X' => 'x',
        'Y' => 'y',
        'Z' => 'z',
        _ => c,
    }
}

/// ASCII lowercasing of a whole character sequence.
pub open spec fn lower_seq(s: Seq<char>) -> Seq<char> {
    Seq::new(s.len(), |i: int| lower_char(s[i]))
}

/// Executable ASCII lowercasing of one character.
pub fn to_lower(c: char) -> (r: char)
    ensures
        r == lower_char(c),
{
    match c {
        'A' => 'a',
        'B' => 'b',
        'C' => 'c',
        'D' => 'd',
        'E' => 'e',
        'F' => 'f',
        'G' => 'g',
        'H' => 'h',
        'I' => 'i',
        'J' => 'j',
        'K' => 'k',
        'L' => 'l',
        'M' => 'm',
        'N' => 'n',
        'O' => 'o',
        'P' => 'p',
        'Q' => 'q',
        'R' => 'r',
        'S' => 's',
        'T' => 't',
        'U' => 'u',
        'V' => 'v',
        'W' => 'w',
        'X' => 'x',
        'Y' => 'y',
        'Z' => 'z',
        _ => c,
    }
}

/// Relies on `String::push`: appends exactly the given character.
#[verifier::external_body]
pub fn push_char(s: &mut String, c: char)
    ensures
        final(s)@ == old(s)@.push(c),
{
    s.push(c);
}

/// Whether `s` lowercased (ASCII) equals the keyword `kw` as written.
pub fn eq_lower(s: &str, kw: &str) -> (r: bool)
    ensures
        r == (lower_seq(s@) == kw@),
{
    let ls = s.unicode_len();
    let lk = kw.unicode_len();
    if ls != lk {
        proof {
            assert(lower_seq(s@).len() == s@.len());
        }
        return false;
    }
    let mut i: usize = 0;
    while i < ls
        invariant
            ls == s@.len(),
            ls == kw@.len(),
            i <= ls,
            forall|k: int| 0 <= k < i ==> lower_char(s@[k]) == kw@[k],
        decreases ls - i,
    {
        let c = to_lower(s.get_char(i));
        let d = kw.get_char(i);
        if c != d {
            proof {
                assert(lower_seq(s@)[i as int] != kw@[i as int]);
            }
            return false;
        }
        i = i + 1;
    }
    proof {
        assert(lower_seq(s@) =~= kw@);
    }
    true
}

/// First position at or after `i` holding the character `c`, or the length.
pub open spec fn char_pos(s: Seq<char>, i: int, c: char) -> int
    decreases s.len() - i,
{
    if !(0 <= i < s.len()) {
        s.len() as int
    } else if s[i] == c {
        i
    } else {
        char_pos(s, i + 1, c)
    }
}

pub proof fn lemma_char_pos_bounds(s: Seq<char>, i: int, c: char)
    requires
        0 <= i <= s.len(),
    ensures
        i <= char_pos(s, i, c) <= s.len(),
    decreases s.len() - i,
{
    if i < s.len() && s[i] != c {
        lemma_char_pos_bounds(s, i + 1, c);
    }
}

/// Finds the first occurrence of `c`, as `char_pos` says.
pub fn find_char(s: &str, c: char) -> (r: usize)
    ensures
        r == char_pos(s@, 0, c),
        r <= s@.len(),
{
    let n = s.unicode_len();
    let mut i: usize = 0;
    proof {
        lemma_char_pos_bounds(s@, 0, c);
    }
    while i < n
        invariant
            n == s@.len(),
            i <= n,
            char_pos(s@, 0, c) == char_pos(s@, i as int, c),
        ensures
            i <= n,
            char_pos(s@, 0, c) == i,
        decreases n - i,
    {
        let d = s.get_char(i);
        if d == c {
            proof {
                assert(char_pos(s@, i as int, c) == i);
            }
            break;
        }
        proof {
            assert(char_pos(s@, i as int, c) == char_pos(s@, i as int + 1, c));
        }
        i = i + 1;
    }
    i
}

/// Whether `needle` occurs in `hay` starting at position `k`.
pub open spec fn matches_at(hay: Seq<char>, needle: Seq<char>, k: int) -> bool {
    0 <= k && k + needle.len() <= hay.len() && hay.subrange(k, k + needle.len()) == needle
}

/// Whether `needle` occurs anywhere in `hay`; the empty needle always does.
pub open spec fn is_substring(hay: Seq<char>, needle: Seq<char>) -> bool {
    exists|k: int| matches_at(hay, needle, k)
}

/// Whether `needle` occurs in `hay` at position `k`, decided executably.
fn check_match_at(hay: &str, needle: &str, k: usize) -> (r: bool)
    requires
        k + needle@.len() <= hay@.len(),
        hay@.len() <= usize::MAX,
    ensures
        r == matches_at(hay@, needle@, k as int),
{
    let m = needle.unicode_len();
    let mut i: usize = 0;
    while i < m
        invariant
            m == needle@.len(),
            k + m <= hay@.len(),
            hay@.len() <= usize::MAX,
            i <= m,
            forall|t: int| 0 <= t < i ==> hay@[k + t] == needle@[t],
        decreases m - i,
    {
        let c = hay.get_char(k + i);
        let d = needle.get_char(i);
        if c != d {
            proof {
                assert(hay@.subrange(k as int, k + m) != needle@) by {
                    assert(hay@.subrange(k as int, k + m)[i as int] != needle@[i as int]);
                }
            }
            return false;
        }
        i = i + 1;
    }
    proof {
        assert(hay@.subrange(k as int, k + m) =~= needle@);
    }
    true
}

/// Whether `needle` occurs anywhere in `hay`, decided executably.
pub fn contains_sub(hay: &str, needle: &str) -> (r: bool)
    ensures
        r == is_substring(hay@, needle@),
{
    let nh = hay.unicode_len();
    let nn = needle.unicode_len();
    if nn > nh {
        proof {
            assert forall|k: int| !matches_at(hay@, needle@, k) by {}
        }
        return false;
    }
    if nn == 0 {
        proof {
            assert(hay@.subrange(0, 0) =~= needle@);
            assert(matches_at(hay@, needle@, 0));
        }
        return true;
    }
    let mut k: usize = 0;
    while k <= nh - nn
        invariant
            nh == hay@.len(),
            nn == needle@.len(),
            1 <= nn <= nh,
            k <= nh - nn + 1,
            forall|t: int| 0 <= t < k ==> !matches_at(hay@, needle@, t),
        ensures
            nh == hay@.len(),
            nn == needle@.len(),
            nn <= nh,
            k <= nh - nn + 1,
            (k <= nh - nn) ==> matches_at(hay@, needle@, k as int),
            (k > nh - nn) ==> forall|t: int| 0 <= t < k ==> !matches_at(hay@, needle@, t),
        decreases nh - nn - k + 1,
    {
        if check_match_at(hay, needle, k) {
            break;
        }
        k = k + 1;
    }
    if k <= nh - nn {
        proof {
            assert(is_substring(hay@, needle@));
        }
        true
    } else {
        proof {
            assert forall|t: int| !matches_at(hay@, needle@, t) by {
                if t >= k {
                    assert(t + needle@.len() > hay@.len());
                }
            }
        }
        false
    }
}

} // verus!
