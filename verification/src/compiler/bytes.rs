//! Small verified operations on byte buffers.

use vstd::prelude::*;

verus! {

/// Appends `tail` to the end of `v`.
pub fn append_bytes(v: &mut Vec<u8>, tail: &[u8])
    ensures
        final(v)@ == old(v)@ + tail@,
{
    v.extend_from_slice(tail);
    assert(final(v)@ =~= old(v)@ + tail@);
}

/// A new vector holding the bytes of `s`.
pub fn copy_bytes(s: &[u8]) -> (v: Vec<u8>)
    ensures
        v@ == s@,
{
    let mut v: Vec<u8> = Vec::new();
    append_bytes(&mut v, s);
    assert(v@ =~= s@);
    v
}

/// Whether two byte strings are equal.
pub fn bytes_eq(a: &[u8], b: &[u8]) -> (eq: bool)
    ensures
        eq == (a@ == b@),
{
    if a.len() != b.len() {
        return false;
    }
    let mut i: usize = 0;
    while i < a.len()
        invariant
            a@.len() == b@.len(),
            i <= a@.len(),
            forall|j: int| 0 <= j < i ==> a@[j] == b@[j],
        decreases a@.len() - i,
    {
        if a[i] != b[i] {
            return false;
        }
        i += 1;
    }
    assert(a@ =~= b@);
    true
}

} // verus!
