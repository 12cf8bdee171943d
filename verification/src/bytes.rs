//! Byte-string helpers shared by the cipher modes.

use vstd::prelude::*;

verus! {

/// The bytewise exclusive-or of `a` with `b`. Its length is that of `a`.
pub open spec fn xor_bytes(a: Seq<u8>, b: Seq<u8>) -> Seq<u8> {
    Seq::new(a.len(), |i: int| a[i] ^ b[i])
}

/// The 16 bytes of `data` that start at `start`.
pub open spec fn block_of(data: Seq<u8>, start: int) -> Seq<u8> {
    data.subrange(start, start + 16)
}

/// Copies the 16 bytes of `data` that start at `start` into an array.
pub fn block_at(data: &[u8], start: usize) -> (block: [u8; 16])
    requires
        start + 16 <= data@.len(),
    ensures
        block@ == block_of(data@, start as int),
{
    let len: usize = data.len();
    let mut block: [u8; 16] = [0u8; 16];
    let mut i: usize = 0;
    while i < 16
        invariant
            i <= 16,
            len == data@.len(),
            start + 16 <= len,
            forall|j: int| 0 <= j < i ==> block@[j] == data@[start + j],
        decreases 16 - i,
    {
        block[i] = data[start + i];
        i = i + 1;
    }
    assert(block@ =~= block_of(data@, start as int));
    block
}

/// Overwrites the 16 bytes of `data` that start at `start` with `block`.
pub fn write_block(data: &mut [u8], start: usize, block: &[u8; 16])
    requires
        start + 16 <= old(data)@.len(),
    ensures
        final(data)@.len() == old(data)@.len(),
        forall|j: int|
            0 <= j < old(data)@.len() ==> final(data)@[j] == (if start <= j < start + 16 {
                block@[j - start]
            } else {
                old(data)@[j]
            }),
{
    let len: usize = data.len();
    let mut i: usize = 0;
    while i < 16
        invariant
            i <= 16,
            len == data@.len(),
            len == old(data)@.len(),
            start + 16 <= len,
            forall|j: int|
                0 <= j < len ==> data@[j] == (if start <= j < start + i {
                    block@[j - start]
                } else {
                    old(data)@[j]
                }),
        decreases 16 - i,
    {
        data[start + i] = block[i];
        i = i + 1;
    }
}

/// Exclusive-or is its own inverse, and a mask other than zero changes the
/// byte it is applied to.
pub proof fn lemma_xor_cancels(a: u8, b: u8)
    ensures
        (a ^ b) ^ b == a,
        b != 0 ==> a ^ b != a,
{
    assert((a ^ b) ^ b == a) by (bit_vector);
    assert(b != 0 ==> a ^ b != a) by (bit_vector);
}

/// Two exclusive-ors may be applied in either order.
pub proof fn lemma_xor_exchanges(a: u8, b: u8, c: u8)
    ensures
        (a ^ b) ^ c == (a ^ c) ^ b,
{
    assert((a ^ b) ^ c == (a ^ c) ^ b) by (bit_vector);
}

} // verus!
