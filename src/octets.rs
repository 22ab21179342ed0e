//! Small verified operations on byte strings.
use vstd::prelude::*;

verus! {

/// Appends every byte of `s` to `v`.
pub fn append_bytes(v: &mut Vec<u8>, s: &[u8])
    ensures
        final(v)@ == old(v)@ + s@,
{
    let ghost start = v@;
    let mut i: usize = 0;
    while i < s.len()
        invariant
            i <= s@.len(),
            v@ == start + s@.take(i as int),
        decreases s@.len() - i,
    {
        v.push(s[i]);
        i = i + 1;
        assert(s@.take(i as int) =~= s@.take(i - 1) + seq![s@[i - 1]]);
        assert(v@ =~= start + s@.take(i as int));
    }
    assert(s@.take(i as int) =~= s@);
}

/// Copies the bytes `s[lo..hi]` into a new vector.
pub fn copy_range(s: &[u8], lo: usize, hi: usize) -> (r: Vec<u8>)
    requires
        lo <= hi <= s@.len(),
    ensures
        r@ == s@.subrange(lo as int, hi as int),
{
    let mut r: Vec<u8> = Vec::new();
    let mut i: usize = lo;
    while i < hi
        invariant
            lo <= i <= hi <= s@.len(),
            r@ == s@.subrange(lo as int, i as int),
        decreases hi - i,
    {
        r.push(s[i]);
        i = i + 1;
        assert(r@ =~= s@.subrange(lo as int, i as int));
    }
    r
}

/// Whether two byte strings are equal.
pub fn bytes_equal(a: &[u8], b: &[u8]) -> (r: bool)
    ensures
        r == (a@ == b@),
{
    if a.len() != b.len() {
        return false;
    }
    let mut i: usize = 0;
    while i < a.len()
        invariant
            a@.len() == b@.len(),
            i <= a@.len(),
            forall|k: int| 0 <= k < i ==> a@[k] == b@[k],
        decreases a@.len() - i,
    {
        if a[i] != b[i] {
            return false;
        }
        i = i + 1;
    }
    assert(a@ =~= b@);
    true
}

/// The sixteen bytes of `s` from `lo` on, as an array.
pub fn array16(s: &[u8], lo: usize) -> (r: [u8; 16])
    requires
        lo + 16 <= s@.len(),
    ensures
        r@ == s@.subrange(lo as int, lo + 16),
{
    let r: [u8; 16] = [s[lo + 0], s[lo + 1], s[lo + 2], s[lo + 3], s[lo + 4], s[lo + 5], s[lo + 6], s[lo + 7], s[lo + 8], s[lo + 9], s[lo + 10], s[lo + 11], s[lo + 12], s[lo + 13], s[lo + 14], s[lo + 15]];
    assert(r@ =~= s@.subrange(lo as int, lo + 16));
    r
}

/// The four bytes of `s` from `lo` on, as an array.
pub fn array4(s: &[u8], lo: usize) -> (r: [u8; 4])
    requires
        lo + 4 <= s@.len(),
    ensures
        r@ == s@.subrange(lo as int, lo + 4),
{
    let r: [u8; 4] = [s[lo], s[lo + 1], s[lo + 2], s[lo + 3]];
    assert(r@ =~= s@.subrange(lo as int, lo + 4));
    r
}

} // verus!
