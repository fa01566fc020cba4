//! Small verified building blocks for working with strings as sequences of
//! characters: conversion to and from character vectors, equality and
//! prefix/suffix/substring tests.
//!
//! Everything here is stated over the `Seq<char>` views that the rest of the
//! crate's contracts use.

use vstd::prelude::*;

verus! {

/// Relies on `String::push`: appends exactly the given character.
#[verifier::external_body]
pub fn push_char(s: &mut String, c: char)
    ensures
        final(s)@ == old(s)@.push(c),
{
    s.push(c);
}

/// The characters of `s`, as a vector.
pub fn chars_of(s: &str) -> (r: Vec<char>)
    ensures
        r@ == s@,
{
    let n: usize = s.unicode_len();
    let mut r: Vec<char> = Vec::new();
    let mut i: usize = 0;
    while i < n
        invariant
            i <= n,
            n == s@.len(),
            r@ == s@.take(i as int),
        decreases n - i,
    {
        r.push(s.get_char(i));
        proof {
            assert(s@.take(i + 1) =~= s@.take(i as int).push(s@[i as int]));
        }
        i = i + 1;
    }
    proof {
        assert(s@.take(n as int) =~= s@);
    }
    r
}

/// A string holding exactly the characters of `v`.
pub fn string_of_chars(v: &Vec<char>) -> (r: String)
    ensures
        r@ == v@,
{
    let mut r = String::new();
    let mut i: usize = 0;
    while i < v.len()
        invariant
            i <= v@.len(),
            r@ == v@.take(i as int),
        decreases v@.len() - i,
    {
        push_char(&mut r, v[i]);
        proof {
            assert(v@.take(i + 1) =~= v@.take(i as int).push(v@[i as int]));
        }
        i = i + 1;
    }
    proof {
        assert(v@.take(v@.len() as int) =~= v@);
    }
    r
}

/// Character-for-character equality of two string slices.
pub fn str_eq(a: &str, b: &str) -> (r: bool)
    ensures
        r == (a@ == b@),
{
    let an: usize = a.unicode_len();
    let bn: usize = b.unicode_len();
    if an != bn {
        return false;
    }
    let mut i: usize = 0;
    while i < an
        invariant
            i <= an,
            an == a@.len(),
            an == b@.len(),
            forall|j: int| 0 <= j < i ==> a@[j] == b@[j],
        decreases an - i,
    {
        if a.get_char(i) != b.get_char(i) {
            return false;
        }
        i = i + 1;
    }
    proof {
        assert(a@ =~= b@);
    }
    true
}

/// Whether the characters of `n` occur at offset `k` of `h`.
pub open spec fn matches_at(h: Seq<char>, n: Seq<char>, k: int) -> bool {
    0 <= k && k + n.len() <= h.len() && h.subrange(k, k + n.len() as int) == n
}

/// Whether `n` occurs somewhere in `h` as a contiguous run.
pub open spec fn has_substr(h: Seq<char>, n: Seq<char>) -> bool {
    exists|k: int| #[trigger] matches_at(h, n, k)
}

/// Whether `p` is a prefix of `s`.
pub open spec fn has_prefix(s: Seq<char>, p: Seq<char>) -> bool {
    matches_at(s, p, 0)
}

/// Whether `p` is a suffix of `s`.
pub open spec fn has_suffix(s: Seq<char>, p: Seq<char>) -> bool {
    matches_at(s, p, s.len() - p.len())
}

/// Compares the characters of `n` against `h` starting at offset `k`.
pub fn match_at(h: &str, n: &str, k: usize) -> (r: bool)
    requires
        k + n@.len() <= h@.len(),
    ensures
        r == matches_at(h@, n@, k as int),
{
    let hn: usize = h.unicode_len();
    let nn: usize = n.unicode_len();
    let mut j: usize = 0;
    while j < nn
        invariant
            j <= nn,
            nn == n@.len(),
            hn == h@.len(),
            k + nn <= h@.len(),
            forall|t: int| 0 <= t < j ==> h@[k + t] == n@[t],
        decreases nn - j,
    {
        if h.get_char(k + j) != n.get_char(j) {
            proof {
                assert(h@.subrange(k as int, k + nn as int)[j as int] == h@[k + j]);
            }
            return false;
        }
        j = j + 1;
    }
    proof {
        assert(h@.subrange(k as int, k + nn as int) =~= n@);
    }
    true
}

/// Whether `n` occurs anywhere in `h`.
pub fn contains_str(h: &str, n: &str) -> (r: bool)
    ensures
        r == has_substr(h@, n@),
{
    let hn: usize = h.unicode_len();
    let nn: usize = n.unicode_len();
    if nn > hn {
        proof {
            assert(forall|k: int| !matches_at(h@, n@, k));
        }
        return false;
    }
    if nn == 0 {
        proof {
            assert(h@.subrange(0, 0) =~= n@);
            assert(matches_at(h@, n@, 0));
        }
        return true;
    }
    let mut k: usize = 0;
    while k <= hn - nn
        invariant
            hn == h@.len(),
            nn == n@.len(),
            1 <= nn <= hn,
            k <= hn - nn + 1,
            forall|t: int| 0 <= t < k ==> !matches_at(h@, n@, t),
        decreases hn + 1 - nn - k,
    {
        if match_at(h, n, k) {
            return true;
        }
        k = k + 1;
    }
    proof {
        assert(forall|t: int| t >= k ==> !matches_at(h@, n@, t));
    }
    false
}

/// Whether `p` is a prefix of `s`.
pub fn starts_with_str(s: &str, p: &str) -> (r: bool)
    ensures
        r == has_prefix(s@, p@),
{
    if p.unicode_len() > s.unicode_len() {
        return false;
    }
    match_at(s, p, 0)
}

/// Lexicographic comparison of two string slices, by code point.
pub fn str_le_exec(a: &str, b: &str) -> (r: bool)
    ensures
        r == crate::order::str_le(a@, b@),
{
    proof {
        crate::order::char_order_strict_total();
    }
    let an: usize = a.unicode_len();
    let bn: usize = b.unicode_len();
    let mut i: usize = 0;
    while i < an && i < bn
        invariant
            i <= an,
            i <= bn,
            an == a@.len(),
            bn == b@.len(),
            forall|j: int| 0 <= j < i ==> a@[j] == b@[j],
        decreases an - i,
    {
        proof {
            crate::order::char_order_strict_total();
            crate::order::lex_le_common_prefix(a@, b@, i as int, crate::order::char_order());
            crate::order::lex_le_common_prefix(b@, a@, i as int, crate::order::char_order());
        }
        let ca = a.get_char(i);
        let cb = b.get_char(i);
        if ca < cb {
            proof {
                assert(a@.skip(i as int)[0] == a@[i as int]);
                assert(b@.skip(i as int)[0] == b@[i as int]);
            }
            return true;
        }
        if ca > cb {
            proof {
                assert(a@.skip(i as int)[0] == a@[i as int]);
                assert(b@.skip(i as int)[0] == b@[i as int]);
            }
            return false;
        }
        i = i + 1;
    }
    proof {
        crate::order::char_order_strict_total();
        crate::order::lex_le_common_prefix(a@, b@, i as int, crate::order::char_order());
        crate::order::lex_le_common_prefix(b@, a@, i as int, crate::order::char_order());
        if i == an {
            assert(a@.skip(i as int).len() == 0);
        } else {
            assert(b@.skip(i as int).len() == 0);
            assert(a@.skip(i as int).len() > 0);
        }
    }
    an <= bn
}

/// A suffix survives appending: where `mid` ends `d`, `mid + tail` ends
/// `d + tail`.
pub proof fn lemma_suffix_join(d: Seq<char>, mid: Seq<char>, tail: Seq<char>)
    requires
        has_suffix(d, mid),
    ensures
        has_suffix(d + tail, mid + tail),
{
    let joined = d + tail;
    let suf = mid + tail;
    assert(d.subrange(d.len() - mid.len(), d.len() as int) == mid);
    assert(joined.subrange(joined.len() - suf.len(), joined.len() as int) =~= suf) by {
        assert forall|k: int|
            0 <= k < suf.len() implies joined.subrange(
            joined.len() - suf.len(),
            joined.len() as int,
        )[k] == suf[k] by {
            if k < mid.len() {
                assert(joined[joined.len() - suf.len() + k] == d[d.len() - mid.len() + k]);
                assert(d.subrange(d.len() - mid.len(), d.len() as int)[k] == d[d.len() - mid.len()
                    + k]);
            } else {
                assert(joined[joined.len() - suf.len() + k] == tail[k - mid.len()]);
            }
        }
    }
    assert(matches_at(joined, suf, joined.len() - suf.len()));
}

/// Whether `c` occurs in `s`.
pub open spec fn has_char(s: Seq<char>, c: char) -> bool {
    exists|i: int| 0 <= i < s.len() && s[i] == c
}

/// Whether `c` occurs among the characters of `v`.
pub fn chars_contain(v: &Vec<char>, c: char) -> (r: bool)
    ensures
        r == has_char(v@, c),
{
    let mut i: usize = 0;
    while i < v.len()
        invariant
            i <= v@.len(),
            forall|j: int| 0 <= j < i ==> v@[j] != c,
        decreases v@.len() - i,
    {
        if v[i] == c {
            return true;
        }
        i = i + 1;
    }
    false
}

} // verus!
