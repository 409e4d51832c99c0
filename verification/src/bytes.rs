//! Byte-sequence helpers: copying and contiguous substring search.
//!
//! The name filter of the extraction stage is a plain substring test over
//! UTF-8 bytes; it lives here as an explicit, reusable predicate.

use vstd::prelude::*;

verus! {

/// `needle` occurs contiguously somewhere in `hay` (anywhere, including the
/// empty needle at position zero).
pub open spec fn contains_seq(hay: Seq<u8>, needle: Seq<u8>) -> bool {
    exists|i: int|
        0 <= i <= hay.len() - needle.len() && #[trigger] hay.subrange(i, i + needle.len() as int)
            == needle
}

/// A fresh vector with the same bytes as `v`.
pub fn copy_bytes(v: &Vec<u8>) -> (r: Vec<u8>)
    ensures
        r@ == v@,
{
    let mut out: Vec<u8> = Vec::new();
    let mut i: usize = 0;
    while i < v.len()
        invariant
            i <= v.len(),
            out@ == v@.take(i as int),
        decreases v.len() - i,
    {
        out.push(v[i]);
        proof {
            assert(v@.take(i + 1 as int) =~= v@.take(i as int).push(v@[i as int]));
        }
        i = i + 1;
    }
    proof {
        assert(v@.take(v@.len() as int) =~= v@);
    }
    out
}

/// Substring search: does `needle` occur contiguously in `hay`?
pub fn contains_subseq(hay: &Vec<u8>, needle: &Vec<u8>) -> (r: bool)
    ensures
        r == contains_seq(hay@, needle@),
{
    if needle.len() > hay.len() {
        return false;
    }
    if needle.len() == 0 {
        proof {
            assert(hay@.subrange(0, 0 + needle@.len() as int) =~= needle@);
        }
        return true;
    }
    let bound = hay.len() - needle.len();
    let mut i: usize = 0;
    while i <= bound
        invariant
            bound == hay@.len() - needle@.len(),
            needle@.len() >= 1,
            hay@.len() <= usize::MAX,
            i <= bound + 1,
            forall|p: int|
                0 <= p < i ==> #[trigger] hay@.subrange(p, p + needle@.len() as int) != needle@,
        decreases bound + 1 - i,
    {
        let mut j: usize = 0;
        let mut all_match = true;
        while j < needle.len()
            invariant
                i + needle@.len() <= hay@.len(),
                hay@.len() <= usize::MAX,
                j <= needle.len(),
                all_match ==> forall|k: int| 0 <= k < j ==> hay@[i + k] == needle@[k],
                !all_match ==> hay@.subrange(i as int, i + needle@.len() as int) != needle@,
            decreases needle.len() - j,
        {
            if hay[i + j] != needle[j] {
                proof {
                    let sub = hay@.subrange(i as int, i + needle@.len() as int);
                    assert(sub[j as int] == hay@[i + j]);
                }
                all_match = false;
            }
            j = j + 1;
        }
        if all_match {
            proof {
                assert(hay@.subrange(i as int, i + needle@.len() as int) =~= needle@);
            }
            return true;
        }
        i = i + 1;
    }
    proof {
        assert(forall|p: int|
            0 <= p <= hay@.len() - needle@.len() ==> #[trigger] hay@.subrange(
                p,
                p + needle@.len() as int,
            ) != needle@);
    }
    false
}

} // verus!
