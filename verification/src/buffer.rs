//! Helpers that move raw bytes between buffers.

use vstd::prelude::*;

verus! {

/// Copies `data[begin..end]` into a fresh vector.
pub fn copy_range(data: &[u8], begin: usize, end: usize) -> (r: Vec<u8>)
    requires
        begin <= end <= data@.len(),
    ensures
        r@ == data@.subrange(begin as int, end as int),
{
    let mut r: Vec<u8> = Vec::new();
    let mut i: usize = begin;
    while i < end
        invariant
            begin <= i <= end <= data@.len(),
            r@ == data@.subrange(begin as int, i as int),
        decreases end - i,
    {
        r.push(data[i]);
        i = i + 1;
        proof {
            assert(r@ =~= data@.subrange(begin as int, i as int));
        }
    }
    r
}

/// Overwrites `data[begin..begin + value.len()]` with the bytes of `value`,
/// leaving every other byte unchanged.
pub fn write_bytes_into(data: &mut Vec<u8>, begin: usize, value: &[u8])
    requires
        begin + value@.len() <= old(data)@.len(),
    ensures
        final(data)@.len() == old(data)@.len(),
        final(data)@ == splice_bytes(old(data)@, begin as int, value@),
{
    let dlen: usize = data.len();
    let end: usize = begin + value.len();
    let mut i: usize = begin;
    while i < end
        invariant
            begin <= i <= end <= dlen,
            end == begin + value@.len(),
            dlen == data@.len() == old(data)@.len(),
            forall|j: int|
                0 <= j < data@.len() && !(begin <= j < i) ==> data@[j] == old(data)@[j],
            forall|j: int| begin <= j < i ==> data@[j] == value@[j - begin],
        decreases end - i,
    {
        data[i] = value[i - begin];
        i = i + 1;
    }
    proof {
        assert(data@ =~= splice_bytes(old(data)@, begin as int, value@));
    }
}

/// `buf` with the bytes of `patch` written over offsets
/// `[begin, begin + patch.len())`.
pub open spec fn splice_bytes(buf: Seq<u8>, begin: int, patch: Seq<u8>) -> Seq<u8> {
    Seq::new(
        buf.len(),
        |j: int|
            if begin <= j < begin + patch.len() {
                patch[j - begin]
            } else {
                buf[j]
            },
    )
}

} // verus!
