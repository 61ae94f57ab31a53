//! Byte-string plumbing: comparing, copying and joining bytes.

use vstd::prelude::*;

verus! {

/// Some bytes that may be missing.
pub open spec fn bytes_view(bytes: Option<&[u8]>) -> Option<Seq<u8>> {
    match bytes {
        Some(found) => Some(found@),
        None => None,
    }
}

/// Whether two byte strings are the same.
pub fn same_bytes(a: &[u8], b: &[u8]) -> (same: bool)
    ensures
        same == (a@ == b@),
{
    if a.len() != b.len() {
        return false;
    }
    let mut i: usize = 0;
    while i < a.len()
        invariant
            a@.len() == b@.len(),
            i <= a@.len(),
            forall|k: int| 0 <= k < i ==> a@[k] == b@[k],
        decreases a@.len() - i,
    {
        if a[i] != b[i] {
            return false;
        }
        i += 1;
    }
    assert(a@ =~= b@);
    true
}

/// The `N` bytes of `source` that start at `start`.
pub fn copy_array<const N: usize>(source: &[u8], start: usize) -> (copy: [u8; N])
    requires
        start + N <= source@.len(),
    ensures
        copy@ == source@.subrange(start as int, start + N),
{
    let total: usize = source.len();
    let mut copy: [u8; N] = [0u8; N];
    let mut i: usize = 0;
    while i < N
        invariant
            start + N <= source@.len() == total,
            i <= N,
            forall|k: int| 0 <= k < i ==> copy@[k] == source@[start + k],
        decreases N - i,
    {
        copy[i] = source[start + i];
        i += 1;
    }
    assert(copy@ =~= source@.subrange(start as int, start + N));
    copy
}

/// Appends `tail` to `bytes`.
pub fn append_bytes(bytes: &mut Vec<u8>, tail: &[u8])
    ensures
        final(bytes)@ == old(bytes)@ + tail@,
{
    bytes.extend_from_slice(tail);
    assert(bytes@ =~= old(bytes)@ + tail@);
}

} // verus!
