//! Copying and appending bytes.

use vstd::prelude::*;

verus! {

/// Copies a byte slice into a fresh vector.
pub fn copy_bytes(source: &[u8]) -> (copy: Vec<u8>)
    ensures
        copy@ == source@,
{
    let mut copy: Vec<u8> = Vec::new();
    append_bytes(&mut copy, source);
    assert(Seq::<u8>::empty() + source@ =~= source@);
    copy
}

/// Appends a byte slice to a vector.
pub fn append_bytes(target: &mut Vec<u8>, source: &[u8])
    ensures
        final(target)@ == old(target)@ + source@,
{
    let ghost before = target@;
    let mut i: usize = 0;
    while i < source.len()
        invariant
            i <= source@.len(),
            target@ == before + source@.subrange(0, i as int),
        decreases source@.len() - i,
    {
        target.push(source[i]);
        assert(source@.subrange(0, i as int).push(source@[i as int]) =~= source@.subrange(
            0,
            i + 1,
        ));
        assert(target@ =~= before + source@.subrange(0, i + 1));
        i += 1;
    }
    assert(source@.subrange(0, source@.len() as int) =~= source@);
}

} // verus!
