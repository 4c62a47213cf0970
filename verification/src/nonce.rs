//! Per-chunk nonces: the root nonce with the chunk's index folded into its
//! last eight bytes.

use vstd::prelude::*;
use vstd::bytes::spec_u64_to_le_bytes;
use vstd::bytes::u64_to_le_bytes;

verus! {

/// Length of a nonce in bytes.
pub const NONCE_LEN: usize = 24;

/// The nonce of chunk `index`: the first 16 bytes of the root nonce as they
/// are, the last 8 each XORed with the matching byte of the index written
/// little-endian.
pub open spec fn chunk_nonce_of(root: Seq<u8>, index: u64) -> Seq<u8> {
    Seq::new(
        24,
        |j: int|
            if j < 16 {
                root[j]
            } else {
                root[j] ^ spec_u64_to_le_bytes(index)[j - 16]
            },
    )
}

/// Derives the nonce of chunk `index` from the root nonce.
pub fn chunk_nonce(root: &[u8], index: u64) -> (nonce: Vec<u8>)
    requires
        root@.len() == 24,
    ensures
        nonce@ == chunk_nonce_of(root@, index),
{
    let counter = u64_to_le_bytes(index);
    let mut nonce: Vec<u8> = Vec::new();
    let mut j: usize = 0;
    while j < NONCE_LEN
        invariant
            j <= 24,
            root@.len() == 24,
            counter@ == spec_u64_to_le_bytes(index),
            counter@.len() == 8,
            nonce@.len() == j,
            forall|k: int| 0 <= k < j ==> nonce@[k] == chunk_nonce_of(root@, index)[k],
        decreases 24 - j,
    {
        let byte: u8 = if j < 16 {
            root[j]
        } else {
            root[j] ^ counter[j - 16]
        };
        nonce.push(byte);
        j += 1;
    }
    assert(nonce@ =~= chunk_nonce_of(root@, index));
    nonce
}

/// The nonce of the first chunk is the root nonce itself.
pub proof fn lemma_first_nonce_is_root(root: Seq<u8>)
    requires
        root.len() == 24,
    ensures
        chunk_nonce_of(root, 0) == root,
{
    vstd::bytes::spec_u64_to_le_bytes_to_open(0);
    let le = vstd::bytes::spec_u64_to_le_bytes_open(0);
    assert forall|j: int| 0 <= j < 8 implies le[j] == 0u8 by {
        assert((0u64 & 0xff) as u8 == 0u8) by (bit_vector);
        assert(((0u64 >> 8) & 0xff) as u8 == 0u8) by (bit_vector);
        assert(((0u64 >> 16) & 0xff) as u8 == 0u8) by (bit_vector);
        assert(((0u64 >> 24) & 0xff) as u8 == 0u8) by (bit_vector);
        assert(((0u64 >> 32) & 0xff) as u8 == 0u8) by (bit_vector);
        assert(((0u64 >> 40) & 0xff) as u8 == 0u8) by (bit_vector);
        assert(((0u64 >> 48) & 0xff) as u8 == 0u8) by (bit_vector);
        assert(((0u64 >> 56) & 0xff) as u8 == 0u8) by (bit_vector);
    }
    assert forall|j: int| 0 <= j < 24 implies chunk_nonce_of(root, 0)[j] == root[j] by {
        if j >= 16 {
            let b = root[j];
            assert(le[j - 16] == 0u8);
            assert(b ^ 0u8 == b) by (bit_vector);
        }
    }
    assert(chunk_nonce_of(root, 0) =~= root);
}

} // verus!
