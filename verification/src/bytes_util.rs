//! Small verified operations on byte strings.

use vstd::prelude::*;

verus! {

/// The byte string of `n` zero bytes.
pub open spec fn zeros(n: nat) -> Seq<u8> {
    Seq::new(n, |i: int| 0u8)
}

/// Whether two byte strings are equal.
pub fn bytes_equal(a: &[u8], b: &[u8]) -> (equal: bool)
    ensures
        equal == (a@ == b@),
{
    if a.len() != b.len() {
        return false;
    }
    let mut i: usize = 0;
    while i < a.len()
        invariant
            i <= a.len(),
            a.len() == b.len(),
            forall|j: int| 0 <= j < i ==> a[j] == b[j],
        decreases a.len() - i,
    {
        if a[i] != b[i] {
            return false;
        }
        i += 1;
    }
    assert(a@ =~= b@);
    true
}

/// An owned copy of a byte string.
pub fn copy_bytes(data: &[u8]) -> (copy: Vec<u8>)
    ensures
        copy@ == data@,
{
    let mut copy: Vec<u8> = Vec::with_capacity(data.len());
    append_bytes(&mut copy, data);
    assert(copy@ =~= data@);
    copy
}

/// Appends `data` to `target`.
pub fn append_bytes(target: &mut Vec<u8>, data: &[u8])
    ensures
        final(target)@ == old(target)@ + data@,
{
    target.extend_from_slice(data);
    assert(target@ =~= old(target)@ + data@);
}

/// A copy of `data[from..to]`.
pub fn copy_range(data: &[u8], from: usize, to: usize) -> (copy: Vec<u8>)
    requires
        from <= to <= data.len(),
    ensures
        copy@ == data@.subrange(from as int, to as int),
{
    let mut copy: Vec<u8> = Vec::with_capacity(to - from);
    let mut i: usize = from;
    while i < to
        invariant
            from <= i <= to <= data.len(),
            copy@ == data@.subrange(from as int, i as int),
        decreases to - i,
    {
        copy.push(data[i]);
        i += 1;
        assert(copy@ =~= data@.subrange(from as int, i as int));
    }
    copy
}

/// `n` zero bytes.
pub fn zero_bytes(n: usize) -> (data: Vec<u8>)
    ensures
        data@ == zeros(n as nat),
{
    let data: Vec<u8> = vec![0u8; n];
    assert(data@ =~= zeros(n as nat));
    data
}

} // verus!
