//! Per-chunk nonces: the chunk index, big-endian, in the last eight bytes.

use vstd::prelude::*;

verus! {

/// Number of bytes in an AES-GCM-SIV nonce.
pub const NONCE_LEN: usize = 12;

/// Byte `k` (0 = most significant) of the big-endian encoding of `x`.
pub open spec fn be_byte(x: u64, k: int) -> u8 {
    ((x >> ((7 - k) * 8) as u64) & 0xff) as u8
}

/// The big-endian encoding of a 64-bit integer.
pub open spec fn be_u64(x: u64) -> Seq<u8> {
    Seq::new(8, |k: int| be_byte(x, k))
}

/// The nonce of the chunk with index `index`: four zero bytes, then the
/// index in big-endian order.
pub open spec fn spec_nonce(index: u64) -> Seq<u8> {
    seq![0u8, 0u8, 0u8, 0u8] + be_u64(index)
}

/// The nonce used for the chunk at position `index` of a file.
pub fn nonce_from_index(index: u64) -> (nonce: [u8; NONCE_LEN])
    ensures
        nonce@ == spec_nonce(index),
{
    let nonce: [u8; NONCE_LEN] = [
        0,
        0,
        0,
        0,
        (index >> 56) as u8,
        ((index >> 48) & 0xff) as u8,
        ((index >> 40) & 0xff) as u8,
        ((index >> 32) & 0xff) as u8,
        ((index >> 24) & 0xff) as u8,
        ((index >> 16) & 0xff) as u8,
        ((index >> 8) & 0xff) as u8,
        (index & 0xff) as u8,
    ];
    assert(nonce@ =~= spec_nonce(index)) by {
        assert((index >> 56) as u8 == ((index >> 56u64) & 0xff) as u8) by (bit_vector);
        assert((index & 0xff) as u8 == ((index >> 0u64) & 0xff) as u8) by (bit_vector);
    }
    nonce
}

/// Reading the last eight bytes of a nonce back as a big-endian integer
/// gives the index it was made from.
pub open spec fn decode_be_u64(b: Seq<u8>) -> int
    recommends
        b.len() == 8,
{
    b[0] * 0x100000000000000 + b[1] * 0x1000000000000 + b[2] * 0x10000000000 + b[3]
        * 0x100000000 + b[4] * 0x1000000 + b[5] * 0x10000 + b[6] * 0x100 + b[7]
}

/// The big-endian encoding of an index decodes back to that index.
pub proof fn lemma_be_u64_roundtrip(x: u64)
    ensures
        decode_be_u64(be_u64(x)) == x,
{
    let b = be_u64(x);
    assert(b[0] == be_byte(x, 0));
    assert(b[7] == be_byte(x, 7));
    assert(
        ((x >> 56u64) & 0xff) as u8 as int * 0x100000000000000
        + ((x >> 48u64) & 0xff) as u8 as int * 0x1000000000000
        + ((x >> 40u64) & 0xff) as u8 as int * 0x10000000000
        + ((x >> 32u64) & 0xff) as u8 as int * 0x100000000
        + ((x >> 24u64) & 0xff) as u8 as int * 0x1000000
        + ((x >> 16u64) & 0xff) as u8 as int * 0x10000
        + ((x >> 8u64) & 0xff) as u8 as int * 0x100
        + ((x >> 0u64) & 0xff) as u8 as int == x
    ) by (bit_vector);
}

/// Nonces are unique per chunk: distinct indices give distinct nonces, so
/// a chunk moved to another position no longer carries the expected nonce.
pub proof fn lemma_nonce_injective(a: u64, b: u64)
    ensures
        spec_nonce(a) == spec_nonce(b) <==> a == b,
{
    if spec_nonce(a) == spec_nonce(b) {
        assert(spec_nonce(a).subrange(4, 12) =~= be_u64(a));
        assert(spec_nonce(b).subrange(4, 12) =~= be_u64(b));
        lemma_be_u64_roundtrip(a);
        lemma_be_u64_roundtrip(b);
    }
}

/// Every nonce is twelve bytes long, its first four bytes are zero, and its
/// last eight bytes decode to the index.
pub proof fn lemma_nonce_shape(index: u64)
    ensures
        spec_nonce(index).len() == NONCE_LEN,
        forall|k: int| 0 <= k < 4 ==> #[trigger] spec_nonce(index)[k] == 0,
        decode_be_u64(spec_nonce(index).subrange(4, 12)) == index,
{
    assert(spec_nonce(index).subrange(4, 12) =~= be_u64(index));
    lemma_be_u64_roundtrip(index);
}

} // verus!
