//! Byte-buffer helpers.

use vstd::prelude::*;

verus! {

/// Appends the bytes of a slice.
pub fn append(buf: &mut Vec<u8>, bytes: &[u8])
    ensures
        final(buf)@ == old(buf)@ + bytes@,
{
    let ghost start = buf@;
    buf.extend_from_slice(bytes);
    assert(buf@ =~= start + bytes@);
}

/// Whether two byte slices hold the same bytes.
pub fn bytes_eq(a: &[u8], b: &[u8]) -> (r: bool)
    ensures
        r == (a@ == b@),
{
    if a.len() != b.len() {
        return false;
    }
    let mut i: usize = 0;
    while i < a.len()
        invariant
            i <= a@.len(),
            a@.len() == b@.len(),
            forall|k: int| 0 <= k < i ==> a@[k] == b@[k],
        decreases a@.len() - i,
    {
        if a[i] != b[i] {
            return false;
        }
        i += 1;
    }
    assert(a@ =~= b@);
    true
}

/// Appended bytes follow those that were there, in order.
pub proof fn appended_bytes_follow(buf: &mut Vec<u8>, bytes: &[u8], i: int)
    requires
        call_ensures(append, (buf, bytes), ()),
    ensures
        final(buf)@.len() == old(buf)@.len() + bytes@.len(),
        0 <= i < old(buf)@.len() ==> final(buf)@[i] == old(buf)@[i],
        0 <= i < bytes@.len() ==> final(buf)@[old(buf)@.len() + i] == bytes@[i],
{
}

/// Two slices hold the same bytes where they are as long and agree in every place.
pub proof fn same_bytes_in_every_place(a: &[u8], b: &[u8], r: bool)
    requires
        call_ensures(bytes_eq, (a, b), r),
    ensures
        r == (a@.len() == b@.len() && forall|i: int| 0 <= i < a@.len() ==> a@[i] == b@[i]),
{
    if a@.len() == b@.len() && forall|i: int| 0 <= i < a@.len() ==> a@[i] == b@[i] {
        assert(a@ =~= b@);
    }
}

} // verus!
