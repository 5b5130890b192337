//! Byte-sequence predicates and verified search primitives.
//!
//! Everything the protocol engine scans for (terminal markers, framing
//! introducers, header boundaries) is expressed with these spec functions,
//! and the exec helpers here are proved against them.

use vstd::prelude::*;

verus! {

/// `pat` occurs in `s` starting exactly at index `i`.
pub open spec fn contains_at(s: Seq<u8>, pat: Seq<u8>, i: int) -> bool {
    0 <= i && i + pat.len() <= s.len() && s.subrange(i, i + pat.len()) == pat
}

/// `pat` occurs somewhere in `s`.
pub open spec fn contains_seq(s: Seq<u8>, pat: Seq<u8>) -> bool {
    exists|i: int| contains_at(s, pat, i)
}

/// `s` ends with `pat`.
pub open spec fn ends_with(s: Seq<u8>, pat: Seq<u8>) -> bool {
    pat.len() <= s.len() && contains_at(s, pat, s.len() - pat.len())
}

/// Index of the first occurrence of `pat` in `s` at or after `j`, if any.
pub open spec fn find_from(s: Seq<u8>, pat: Seq<u8>, j: int) -> Option<int>
    decreases s.len() - j,
{
    if j < 0 || pat.len() < 1 || j + pat.len() > s.len() {
        None
    } else if contains_at(s, pat, j) {
        Some(j)
    } else {
        find_from(s, pat, j + 1)
    }
}

/// Full characterization of `find_from`.
pub proof fn lemma_find_from_char(s: Seq<u8>, pat: Seq<u8>, j: int)
    requires
        0 <= j,
        pat.len() >= 1,
    ensures
        match find_from(s, pat, j) {
            Some(i) => j <= i && contains_at(s, pat, i) && forall|m: int|
                j <= m < i ==> !contains_at(s, pat, m),
            None => forall|m: int| j <= m ==> !contains_at(s, pat, m),
        },
    decreases s.len() - j,
{
    if j + pat.len() > s.len() {
        assert forall|m: int| j <= m implies !contains_at(s, pat, m) by {
            assert(m + pat.len() > s.len());
        }
    } else if contains_at(s, pat, j) {
    } else {
        lemma_find_from_char(s, pat, j + 1);
    }
}

/// Compare `pat` against `hay[i..i + pat.len()]`.
pub fn match_at(hay: &[u8], pat: &[u8], i: usize) -> (r: bool)
    requires
        i + pat@.len() <= hay@.len(),
    ensures
        r == contains_at(hay@, pat@, i as int),
{
    let hn: usize = hay.len();
    let pn: usize = pat.len();
    let mut k: usize = 0;
    while k < pn
        invariant
            0 <= k <= pn,
            pn == pat@.len(),
            hn == hay@.len(),
            i + pn <= hay@.len(),
            forall|m: int| 0 <= m < k ==> hay@[i + m] == pat@[m],
        decreases pn - k,
    {
        if hay[i + k] != pat[k] {
            assert(hay@.subrange(i as int, i + pat@.len())[k as int] != pat@[k as int]);
            return false;
        }
        k = k + 1;
    }
    assert(hay@.subrange(i as int, i + pat@.len()) =~= pat@);
    true
}

/// Find the first occurrence of `pat` in `hay` at or after `from`.
pub fn find_subslice(hay: &[u8], pat: &[u8], from: usize) -> (r: Option<usize>)
    requires
        pat@.len() >= 1,
    ensures
        match r {
            Some(i) => from <= i && contains_at(hay@, pat@, i as int) && forall|j: int|
                from <= j < i ==> !contains_at(hay@, pat@, j),
            None => forall|j: int| from <= j ==> !contains_at(hay@, pat@, j),
        },
{
    let hn: usize = hay.len();
    let pn: usize = pat.len();
    if pn > hn || from > hn - pn {
        assert forall|j: int| from <= j implies !contains_at(hay@, pat@, j) by {
            assert(j + pat@.len() > hay@.len());
        }
        return None;
    }
    let mut i: usize = from;
    while i <= hn - pn
        invariant
            from <= i <= hn - pn + 1,
            1 <= pn <= hn,
            hn == hay@.len(),
            pn == pat@.len(),
            forall|j: int| from <= j < i ==> !contains_at(hay@, pat@, j),
        decreases hn - i,
    {
        if match_at(hay, pat, i) {
            return Some(i);
        }
        i = i + 1;
    }
    assert forall|j: int| from <= j implies !contains_at(hay@, pat@, j) by {
        if j >= i {
            assert(j + pat@.len() > hay@.len());
        }
    }
    None
}

/// Find the first occurrence of `pat` in `hay` at or after `from`, tied to
/// the spec-level `find_from`.
pub fn find_sub(hay: &[u8], pat: &[u8], from: usize) -> (r: Option<usize>)
    requires
        pat@.len() >= 1,
    ensures
        match r {
            Some(i) => find_from(hay@, pat@, from as int) == Some(i as int) && from <= i && i
                + pat@.len() <= hay@.len() && contains_at(hay@, pat@, i as int),
            None => find_from(hay@, pat@, from as int) is None,
        },
{
    let r = find_subslice(hay, pat, from);
    proof {
        lemma_find_from_char(hay@, pat@, from as int);
        match r {
            Some(i) => {
                match find_from(hay@, pat@, from as int) {
                    Some(i2) => {
                        if i2 < i {
                            assert(!contains_at(hay@, pat@, i2));
                        } else if i2 > i {
                            assert(!contains_at(hay@, pat@, i as int));
                        }
                    },
                    None => {
                        assert(!contains_at(hay@, pat@, i as int));
                    },
                }
            },
            None => {
                match find_from(hay@, pat@, from as int) {
                    Some(i2) => {
                        assert(!contains_at(hay@, pat@, i2));
                    },
                    None => {},
                }
            },
        }
    }
    r
}

/// Whether `hay` contains `pat`.
pub fn contains_sub(hay: &[u8], pat: &[u8]) -> (r: bool)
    requires
        pat@.len() >= 1,
    ensures
        r == contains_seq(hay@, pat@),
{
    let r = find_subslice(hay, pat, 0);
    match r {
        Some(i) => {
            assert(contains_seq(hay@, pat@));
            true
        },
        None => {
            assert(!contains_seq(hay@, pat@)) by {
                assert(forall|j: int| 0 <= j ==> !contains_at(hay@, pat@, j));
            }
            false
        },
    }
}

/// Whether `hay` ends with `pat`.
pub fn ends_with_exec(hay: &[u8], pat: &[u8]) -> (r: bool)
    ensures
        r == ends_with(hay@, pat@),
{
    if hay.len() < pat.len() {
        return false;
    }
    match_at(hay, pat, hay.len() - pat.len())
}

/// Find the first occurrence of the byte `b` in `hay` at or after `from`.
pub fn find_byte(hay: &[u8], b: u8, from: usize) -> (r: Option<usize>)
    ensures
        match r {
            Some(i) => from <= i < hay@.len() && hay@[i as int] == b && forall|j: int|
                from <= j < i ==> hay@[j] != b,
            None => forall|j: int| from <= j < hay@.len() ==> hay@[j] != b,
        },
{
    let n: usize = hay.len();
    let mut i: usize = from;
    while i < n
        invariant
            from <= i,
            n == hay@.len(),
            forall|j: int| from <= j < i ==> hay@[j] != b,
        decreases n - i,
    {
        if hay[i] == b {
            return Some(i);
        }
        i = i + 1;
    }
    None
}

/// Append all of `src` onto `dst`.
pub fn append_bytes(dst: &mut Vec<u8>, src: &[u8])
    requires
        old(dst)@.len() + src@.len() <= usize::MAX,
    ensures
        final(dst)@ == old(dst)@ + src@,
{
    let sn: usize = src.len();
    let mut k: usize = 0;
    while k < sn
        invariant
            0 <= k <= sn,
            sn == src@.len(),
            dst@ == old(dst)@ + src@.subrange(0, k as int),
            old(dst)@.len() + src@.len() <= usize::MAX,
        decreases sn - k,
    {
        dst.push(src[k]);
        assert(dst@ == old(dst)@ + src@.subrange(0, k + 1));
        k = k + 1;
    }
    assert(src@.subrange(0, src@.len() as int) =~= src@);
}

} // verus!
