//! Character-level utilities: ASCII case folding, substring search, and
//! lexicographic comparison over sequences of characters.

use vstd::prelude::*;

verus! {

/// ASCII lower-casing of one character; other characters are unchanged.
pub open spec fn lower_char(c: char) -> char {
    if 'A' <= c && c <= 'Z' {
        ((c as u8) + 32) as char
    } else {
        c
    }
}

/// ASCII lower-casing of a whole sequence, character by character.
pub open spec fn lower_seq(s: Seq<char>) -> Seq<char> {
    s.map_values(|c: char| lower_char(c))
}

/// Executable ASCII lower-casing of one character.
pub fn lower_char_exec(c: char) -> (r: char)
    ensures
        r == lower_char(c),
{
    if 'A' <= c && c <= 'Z' {
        ((c as u8) + 32) as char
    } else {
        c
    }
}

/// The characters of `s`, in order, as a vector.
pub fn to_chars(s: &str) -> (v: Vec<char>)
    ensures
        v@ == s@,
{
    let n: usize = s.unicode_len();
    let mut v: Vec<char> = Vec::new();
    let mut i: usize = 0;
    while i < n
        invariant
            n == s@.len(),
            i <= n,
            v@ == s@.subrange(0, i as int),
        decreases n - i,
    {
        v.push(s.get_char(i));
        i = i + 1;
        assert(v@ =~= s@.subrange(0, i as int));
    }
    assert(v@ =~= s@);
    v
}

/// ASCII-lower-cased copy of a character vector.
pub fn lower_chars(v: &Vec<char>) -> (r: Vec<char>)
    ensures
        r@ == lower_seq(v@),
{
    let mut r: Vec<char> = Vec::new();
    let mut i: usize = 0;
    while i < v.len()
        invariant
            i <= v@.len(),
            r@ == lower_seq(v@.subrange(0, i as int)),
        decreases v@.len() - i,
    {
        r.push(lower_char_exec(v[i]));
        i = i + 1;
        assert(r@ =~= lower_seq(v@.subrange(0, i as int)));
    }
    assert(v@.subrange(0, v@.len() as int) =~= v@);
    r
}

/// The characters of `v` from `from` (inclusive) to `to` (exclusive).
pub fn sub_chars(v: &Vec<char>, from: usize, to: usize) -> (r: Vec<char>)
    requires
        from <= to <= v@.len(),
    ensures
        r@ == v@.subrange(from as int, to as int),
{
    let mut r: Vec<char> = Vec::new();
    let mut k: usize = from;
    while k < to
        invariant
            from <= k <= to <= v@.len(),
            r@ == v@.subrange(from as int, k as int),
        decreases to - k,
    {
        r.push(v[k]);
        k = k + 1;
        assert(r@ =~= v@.subrange(from as int, k as int));
    }
    r
}

/// `needle` occurs in `hay` starting at position `i`.
pub open spec fn matches_at(hay: Seq<char>, needle: Seq<char>, i: int) -> bool {
    &&& 0 <= i
    &&& i + needle.len() <= hay.len()
    &&& hay.subrange(i, i + needle.len() as int) == needle
}

/// `needle` occurs somewhere in `hay` as a contiguous run.
pub open spec fn contains_seq(hay: Seq<char>, needle: Seq<char>) -> bool {
    exists|i: int| matches_at(hay, needle, i)
}

/// Whether `needle` occurs in `hay`, by direct search.
pub fn contains_chars(hay: &Vec<char>, needle: &Vec<char>) -> (r: bool)
    ensures
        r == contains_seq(hay@, needle@),
{
    let hn = hay.len();
    let nn = needle.len();
    if nn == 0 {
        assert(hay@.subrange(0, 0) =~= needle@);
        assert(matches_at(hay@, needle@, 0));
        return true;
    }
    if nn > hn {
        assert(forall|i: int| !matches_at(hay@, needle@, i));
        return false;
    }
    let mut i: usize = 0;
    while i <= hn - nn
        invariant
            1 <= nn <= hn,
            hn == hay@.len(),
            nn == needle@.len(),
            i <= hn - nn + 1,
            forall|k: int| 0 <= k < i ==> !matches_at(hay@, needle@, k),
        decreases hn + 1 - nn - i,
    {
        let mut j: usize = 0;
        let mut hit = true;
        while j < nn
            invariant
                nn <= hn,
                hn == hay@.len(),
                nn == needle@.len(),
                i + nn <= hn,
                j <= nn,
                hit ==> forall|l: int| 0 <= l < j ==> hay@[i + l] == needle@[l],
                !hit ==> !matches_at(hay@, needle@, i as int),
            decreases nn - j,
        {
            if hay[i + j] != needle[j] {
                proof {
                    if matches_at(hay@, needle@, i as int) {
                        assert(hay@.subrange(i as int, i + nn as int)[j as int] == needle@[j as int]);
                    }
                }
                hit = false;
                j = nn;
            } else {
                j = j + 1;
            }
        }
        if hit {
            assert(hay@.subrange(i as int, i + nn as int) =~= needle@);
            assert(matches_at(hay@, needle@, i as int));
            return true;
        }
        i = i + 1;
    }
    assert(forall|k: int| matches_at(hay@, needle@, k) ==> 0 <= k <= hn - nn);
    false
}

/// Whether the character vector spells exactly the string `s`.
pub fn chars_eq_str(v: &Vec<char>, s: &str) -> (r: bool)
    ensures
        r == (v@ == s@),
{
    let n = s.unicode_len();
    if v.len() != n {
        return false;
    }
    let mut i: usize = 0;
    while i < n
        invariant
            n == s@.len(),
            n == v@.len(),
            i <= n,
            forall|k: int| 0 <= k < i ==> v@[k] == s@[k],
        decreases n - i,
    {
        if v[i] != s.get_char(i) {
            return false;
        }
        i = i + 1;
    }
    assert(v@ =~= s@);
    true
}

/// Whether the string `s` occurs in `hay` as a contiguous run of characters.
pub fn contains_str(hay: &Vec<char>, s: &str) -> (r: bool)
    ensures
        r == contains_seq(hay@, s@),
{
    let needle = to_chars(s);
    contains_chars(hay, &needle)
}

/// Lexicographic order on character sequences, by code point.
pub open spec fn chars_le(a: Seq<char>, b: Seq<char>) -> bool
    decreases a.len(),
{
    if a.len() == 0 {
        true
    } else if b.len() == 0 {
        false
    } else if a[0] != b[0] {
        a[0] < b[0]
    } else {
        chars_le(a.drop_first(), b.drop_first())
    }
}

/// The lexicographic order is total.
pub proof fn lemma_chars_le_total(a: Seq<char>, b: Seq<char>)
    ensures
        chars_le(a, b) || chars_le(b, a),
    decreases a.len(),
{
    if a.len() > 0 && b.len() > 0 && a[0] == b[0] {
        lemma_chars_le_total(a.drop_first(), b.drop_first());
    }
}

/// The lexicographic order is transitive.
pub proof fn lemma_chars_le_trans(a: Seq<char>, b: Seq<char>, c: Seq<char>)
    requires
        chars_le(a, b),
        chars_le(b, c),
    ensures
        chars_le(a, c),
    decreases a.len(),
{
    if a.len() > 0 && b.len() > 0 && c.len() > 0 && a[0] == b[0] && b[0] == c[0] {
        lemma_chars_le_trans(a.drop_first(), b.drop_first(), c.drop_first());
    }
}

/// Lexicographic comparison of two strings, by code point.
pub fn le_str(a: &str, b: &str) -> (r: bool)
    ensures
        r == chars_le(a@, b@),
{
    let an = a.unicode_len();
    let bn = b.unicode_len();
    let mut i: usize = 0;
    proof {
        assert(a@.skip(0) =~= a@);
        assert(b@.skip(0) =~= b@);
    }
    while i < an && i < bn
        invariant
            an == a@.len(),
            bn == b@.len(),
            i <= an,
            i <= bn,
            chars_le(a@, b@) == chars_le(a@.skip(i as int), b@.skip(i as int)),
        decreases an - i,
    {
        let ca = a.get_char(i);
        let cb = b.get_char(i);
        if ca != cb {
            return ca < cb;
        }
        proof {
            assert(a@.skip(i as int).drop_first() =~= a@.skip(i + 1));
            assert(b@.skip(i as int).drop_first() =~= b@.skip(i + 1));
        }
        i = i + 1;
    }
    if i == an {
        assert(a@.skip(i as int).len() == 0);
        true
    } else {
        assert(b@.skip(i as int).len() == 0);
        assert(a@.skip(i as int).len() > 0);
        false
    }
}

} // verus!
