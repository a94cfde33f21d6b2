//! Character-level text utilities: conversion between strings and
//! character vectors, literal substring search, and locating the first
//! occurrence of a character.
use vstd::prelude::*;

verus! {

use vstd::string::StrSliceExecFns;

/// Copies a string into a vector of its characters.
pub fn str_to_chars(s: &str) -> (v: Vec<char>)
    ensures
        v@ == s@,
{
    let n: usize = s.unicode_len();
    let mut v: Vec<char> = Vec::new();
    let mut i: usize = 0;
    while i < n
        invariant
            n == s@.len(),
            i <= n,
            v@ == s@.take(i as int),
        decreases n - i,
    {
        v.push(s.get_char(i));
        i = i + 1;
        proof {
            assert(v@ =~= s@.take(i as int));
        }
    }
    proof {
        assert(v@ =~= s@);
    }
    v
}

/// Relies on `String`'s `FromIterator<char>`: collecting characters yields
/// the string made of exactly those characters, in order.
#[verifier::external_body]
pub fn chars_to_string(v: &Vec<char>) -> (s: String)
    ensures
        s@ == v@,
{
    v.iter().collect()
}

/// `p` occurs in `t` as a contiguous run starting at `k`.
pub open spec fn occurs_at(t: Seq<char>, p: Seq<char>, k: int) -> bool {
    0 <= k && k + p.len() <= t.len() && t.subrange(k, k + p.len()) == p
}

/// `p` occurs somewhere in `t` as a literal, case-sensitive substring.
pub open spec fn contains_sub(t: Seq<char>, p: Seq<char>) -> bool {
    exists|k: int| occurs_at(t, p, k)
}

/// Every sequence contains itself.
pub proof fn lemma_contains_self(t: Seq<char>)
    ensures
        contains_sub(t, t),
{
    assert(t.subrange(0, t.len() as int) =~= t);
    assert(occurs_at(t, t, 0));
}

/// Literal substring search: whether `p` occurs in `t`.
pub fn chars_contain(t: &Vec<char>, p: &Vec<char>) -> (r: bool)
    ensures
        r == contains_sub(t@, p@),
{
    if p.len() > t.len() {
        proof {
            assert(forall|k: int| !occurs_at(t@, p@, k));
        }
        return false;
    }
    if p.len() == 0 {
        proof {
            assert(t@.subrange(0, 0) =~= p@);
            assert(occurs_at(t@, p@, 0));
        }
        return true;
    }
    let mut k: usize = 0;
    let last: usize = t.len() - p.len();
    while k <= last
        invariant
            t@.len() <= usize::MAX,
            1 <= p@.len() <= t@.len(),
            last == t@.len() - p@.len(),
            k <= last + 1,
            forall|k2: int| 0 <= k2 < k ==> !occurs_at(t@, p@, k2),
        decreases last + 1 - k,
    {
        let mut j: usize = 0;
        let mut hit: bool = true;
        while j < p.len()
            invariant
                t@.len() <= usize::MAX,
                p@.len() <= t@.len(),
                k + p@.len() <= t@.len(),
                j <= p@.len(),
                hit == (forall|j2: int| 0 <= j2 < j ==> t@[k + j2] == p@[j2]),
            decreases p@.len() - j,
        {
            if t[k + j] != p[j] {
                hit = false;
                proof {
                    assert(!(forall|j2: int| 0 <= j2 < p@.len() ==> t@[k + j2] == p@[j2]));
                }
                j = p.len();
            } else {
                j = j + 1;
            }
        }
        if hit {
            proof {
                assert(t@.subrange(k as int, k + p@.len()) =~= p@);
                assert(occurs_at(t@, p@, k as int));
            }
            return true;
        }
        proof {
            assert(t@.subrange(k as int, k + p@.len()) != p@) by {
                if t@.subrange(k as int, k + p@.len()) == p@ {
                    let j0 = choose|j2: int|
                        0 <= j2 < p@.len() && !(t@[k + j2] == p@[j2]);
                    assert(t@.subrange(k as int, k + p@.len())[j0] == t@[k + j0]);
                }
            }
        }
        k = k + 1;
    }
    proof {
        assert(forall|k2: int| k <= k2 ==> !occurs_at(t@, p@, k2));
    }
    false
}

/// Whether one string contains another as a literal substring.
pub fn str_contains_sub(t: &str, p: &str) -> (r: bool)
    ensures
        r == contains_sub(t@, p@),
{
    let tv = str_to_chars(t);
    let pv = str_to_chars(p);
    chars_contain(&tv, &pv)
}

/// The index of the first occurrence of `c` in `s`, or `s.len()` when `c`
/// does not occur.
pub open spec fn first_pos(s: Seq<char>, c: char) -> int
    decreases s.len(),
{
    if s.len() == 0 {
        0
    } else if s[0] == c {
        0
    } else {
        1 + first_pos(s.drop_first(), c)
    }
}

/// `first_pos` is in range, points at `c` when `c` occurs, and nothing
/// before it is `c`.
pub proof fn lemma_first_pos(s: Seq<char>, c: char)
    ensures
        0 <= first_pos(s, c) <= s.len(),
        first_pos(s, c) < s.len() ==> s[first_pos(s, c)] == c,
        forall|i: int| 0 <= i < first_pos(s, c) ==> s[i] != c,
    decreases s.len(),
{
    if s.len() > 0 && s[0] != c {
        lemma_first_pos(s.drop_first(), c);
        assert(forall|i: int| 0 <= i < first_pos(s, c) ==> s[i] != c) by {
            assert(forall|i: int|
                1 <= i < first_pos(s, c) ==> s[i] == s.drop_first()[i - 1] && s.drop_first()[i - 1]
                    != c);
        }
    }
}

/// Finds the first occurrence of `c` in `v`.
pub fn chars_first_pos(v: &Vec<char>, c: char) -> (r: usize)
    ensures
        r == first_pos(v@, c),
{
    proof {
        lemma_first_pos(v@, c);
    }
    let mut i: usize = 0;
    while i < v.len()
        invariant
            i <= v@.len(),
            forall|j: int| 0 <= j < i ==> v@[j] != c,
            0 <= first_pos(v@, c) <= v@.len(),
            first_pos(v@, c) < v@.len() ==> v@[first_pos(v@, c)] == c,
            forall|j: int| 0 <= j < first_pos(v@, c) ==> v@[j] != c,
        decreases v@.len() - i,
    {
        if v[i] == c {
            proof {
                if first_pos(v@, c) < i {
                    assert(v@[first_pos(v@, c)] == c);
                }
            }
            return i;
        }
        i = i + 1;
    }
    i
}

/// Appends every character of `p` to `out`.
pub fn push_all(out: &mut Vec<char>, p: &Vec<char>)
    ensures
        final(out)@ == old(out)@ + p@,
{
    let mut i: usize = 0;
    while i < p.len()
        invariant
            i <= p@.len(),
            out@ == old(out)@ + p@.take(i as int),
        decreases p@.len() - i,
    {
        out.push(p[i]);
        i = i + 1;
        proof {
            assert(out@ =~= old(out)@ + p@.take(i as int));
        }
    }
    proof {
        assert(out@ =~= old(out)@ + p@);
    }
}

} // verus!
