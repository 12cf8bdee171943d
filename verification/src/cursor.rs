//! A random-access decryption cursor over an AES-128 counter-mode stream.
//!
//! The 16-byte counter block consists of a fixed part, its first nine bytes,
//! and a block index, its last seven bytes. The block index is recomputed from
//! the byte offset before every 16-byte chunk, never incremented, so a read at
//! one offset does not depend on the reads that came before it.

use crate::big_endian::{
    be_bytes, be_digit, be_value, lemma_be_value_of_be_bytes, lemma_pow256,
    lemma_shift_one_more_byte,
};
use crate::block_cipher::{aes128_ctr_keystream, ctr_apply_keystream};
use crate::bytes::{block_at, lemma_xor_cancels, write_block};
use crate::error::DecryptError;
use vstd::prelude::*;

verus! {

/// The byte offset of chunk `i` of a read that starts at `offset`. Offsets
/// wrap around at `2^64`.
pub open spec fn chunk_offset(offset: u64, i: nat) -> u64 {
    ((offset + 16 * i) % 0x1_0000_0000_0000_0000) as u64
}

/// The index of the 16-byte block that holds the byte at `offset`.
pub open spec fn block_number(offset: u64) -> nat {
    (offset / 16) as nat
}

/// The counter block for the chunk at byte `offset`: the fixed nine bytes
/// followed by the low seven bytes of the block index, most significant first.
pub open spec fn counter_block(fixed: Seq<u8>, offset: u64) -> Seq<u8> {
    fixed + be_bytes(block_number(offset), 7)
}

/// The counter block that a new cursor starts with: the eight nonce bytes
/// followed by the block index of `offset` as eight bytes, most significant
/// first.
pub open spec fn initial_counter(nonce: Seq<u8>, offset: u64) -> Seq<u8> {
    nonce + be_bytes(block_number(offset), 8)
}

/// Byte `j` of the outcome of a read: within the whole 16-byte chunks, the
/// input byte combined with the keystream of its chunk; beyond them, the input
/// byte itself.
pub open spec fn ctr_plain_byte(
    key: Seq<u8>,
    fixed: Seq<u8>,
    offset: u64,
    data: Seq<u8>,
    j: int,
) -> u8 {
    if j < 16 * (data.len() / 16) {
        data[j] ^ aes128_ctr_keystream(
            key,
            counter_block(fixed, chunk_offset(offset, (j / 16) as nat)),
        )[j % 16]
    } else {
        data[j]
    }
}

/// The outcome of a read of `data` at byte `offset` under `key` and the fixed
/// counter bytes `fixed`.
pub open spec fn ctr_plain(key: Seq<u8>, fixed: Seq<u8>, offset: u64, data: Seq<u8>) -> Seq<u8> {
    Seq::new(data.len(), |j: int| ctr_plain_byte(key, fixed, offset, data, j))
}

/// A counter-mode decryption cursor: a key and the counter block last used.
pub struct CtrWrapper {
    key: [u8; 0x10],
    counter: [u8; 0x10],
}

impl CtrWrapper {
    /// The 16 key bytes.
    pub closed spec fn key_bytes(&self) -> Seq<u8> {
        self.key@
    }

    /// The 16 bytes of the counter block.
    pub closed spec fn counter_bytes(&self) -> Seq<u8> {
        self.counter@
    }

    /// The part of the counter block that no read changes: its first nine
    /// bytes.
    pub open spec fn fixed_bytes(&self) -> Seq<u8> {
        self.counter_bytes().subrange(0, 9)
    }

    /// Returns the key.
    pub fn key(&self) -> (key: [u8; 0x10])
        ensures
            key@ == self.key_bytes(),
    {
        self.key
    }

    /// Returns the counter block as the last chunk left it.
    pub fn counter(&self) -> (counter: [u8; 0x10])
        ensures
            counter@ == self.counter_bytes(),
            counter@.subrange(0, 9) == self.fixed_bytes(),
    {
        self.counter
    }

    /// Points the counter block at the 16-byte block that holds the byte at
    /// `offset`: the low seven bytes of `offset >> 4` are written, most
    /// significant first, into the last seven bytes of the counter block.
    pub fn update_counter(&mut self, offset: u64)
        ensures
            final(self).key_bytes() == old(self).key_bytes(),
            final(self).fixed_bytes() == old(self).fixed_bytes(),
            final(self).counter_bytes() == counter_block(old(self).fixed_bytes(), offset),
    {
        let mut off: u64 = offset >> 4;
        let mut j: usize = 0;
        proof {
            assert(offset >> 4 == offset / 16) by (bit_vector);
            vstd::arithmetic::power::lemma_pow0(256);
        }
        while j < 7
            invariant
                j <= 7,
                self.key@ == old(self).key@,
                off as int == block_number(offset) as int / vstd::arithmetic::power::pow(
                    256,
                    j as nat,
                ),
                forall|k: int| 0 <= k < 16 - j ==> self.counter@[k] == old(self).counter@[k],
                forall|k: int|
                    16 - j <= k < 16 ==> self.counter@[k] == be_digit(
                        block_number(offset),
                        7,
                        k - 9,
                    ),
            decreases 7 - j,
        {
            proof {
                assert(off & 0xff == off % 256) by (bit_vector);
                assert(off >> 8 == off / 256) by (bit_vector);
                lemma_shift_one_more_byte(block_number(offset), j as nat);
            }
            let low: u8 = (off & 0xff) as u8;
            self.counter[0x10 - j - 1] = low;
            off = off >> 8;
            j = j + 1;
        }
        assert(self.counter@ =~= counter_block(old(self).counter@.subrange(0, 9), offset));
        assert(self.counter@.subrange(0, 9) =~= old(self).counter@.subrange(0, 9));
    }

    /// Decrypts `in_buffer` in place as the counter-mode ciphertext found at
    /// byte `offset` of the stream.
    ///
    /// The buffer is processed in whole 16-byte chunks; a trailing part
    /// shorter than 16 bytes is left as it was. Any offset and any buffer are
    /// accepted. The key and the fixed part of the counter block stay as they
    /// were, so the outcome does not depend on earlier reads.
    pub fn read(&mut self, offset: u64, in_buffer: &mut [u8])
        ensures
            final(self).key_bytes() == old(self).key_bytes(),
            final(self).fixed_bytes() == old(self).fixed_bytes(),
            final(self).counter_bytes() == (if old(in_buffer)@.len() >= 16 {
                counter_block(
                    old(self).fixed_bytes(),
                    chunk_offset(offset, (old(in_buffer)@.len() / 16 - 1) as nat),
                )
            } else {
                old(self).counter_bytes()
            }),
            final(in_buffer)@ == ctr_plain(
                old(self).key_bytes(),
                old(self).fixed_bytes(),
                offset,
                old(in_buffer)@,
            ),
    {
        let len: usize = in_buffer.len();
        let chunks: usize = len / 0x10;
        let ghost key = self.key@;
        let ghost fixed = self.counter@.subrange(0, 9);
        let ghost data = in_buffer@;
        let mut i: usize = 0;
        while i < chunks
            invariant
                i <= chunks,
                chunks == len / 16,
                len == data.len(),
                in_buffer@.len() == len,
                data == old(in_buffer)@,
                key == old(self).key@,
                fixed == old(self).counter@.subrange(0, 9),
                self.key@ == key,
                self.counter@.subrange(0, 9) == fixed,
                i == 0 ==> self.counter@ == old(self).counter@,
                i > 0 ==> self.counter@ == counter_block(
                    fixed,
                    chunk_offset(offset, (i - 1) as nat),
                ),
                forall|j: int|
                    0 <= j < 16 * i ==> in_buffer@[j] == ctr_plain_byte(key, fixed, offset, data, j),
                forall|j: int| 16 * i <= j < len ==> in_buffer@[j] == data[j],
            decreases chunks - i,
        {
            let start: usize = i * 0x10;
            let at: u64 = offset.wrapping_add(start as u64);
            assert(at == chunk_offset(offset, i as nat));
            self.update_counter(at);
            let chunk = block_at(in_buffer, start);
            let plain = ctr_apply_keystream(&self.key, &self.counter, &chunk);
            let ghost before = in_buffer@;
            write_block(in_buffer, start, &plain);
            proof {
                assert forall|j: int| 0 <= j < 16 * (i + 1) implies in_buffer@[j]
                    == ctr_plain_byte(key, fixed, offset, data, j) by {
                    if j >= 16 * i {
                        assert(j / 16 == i);
                        assert(j % 16 == j - start);
                        assert(chunk@[j - start] == before[j]);
                    }
                }
            }
            i = i + 1;
        }
        assert(in_buffer@ =~= ctr_plain(key, fixed, offset, data));
    }

    /// Decrypts `in_buffer` in place like [`CtrWrapper::read`], but refuses a
    /// buffer that is not a whole number of 16-byte chunks, leaving the buffer
    /// and the cursor as they were.
    pub fn read_aligned(&mut self, offset: u64, in_buffer: &mut [u8]) -> (result: Result<
        (),
        DecryptError,
    >)
        ensures
            final(self).key_bytes() == old(self).key_bytes(),
            final(self).fixed_bytes() == old(self).fixed_bytes(),
            old(in_buffer)@.len() % 16 != 0 ==> result == Err::<(), DecryptError>(
                DecryptError::UnsupportedOffsetAlignment,
            ) && final(in_buffer)@ == old(in_buffer)@ && final(self).counter_bytes() == old(
                self,
            ).counter_bytes(),
            old(in_buffer)@.len() % 16 == 0 ==> result == Ok::<(), DecryptError>(())
                && final(in_buffer)@ == ctr_plain(
                old(self).key_bytes(),
                old(self).fixed_bytes(),
                offset,
                old(in_buffer)@,
            ) && final(self).counter_bytes() == (if old(in_buffer)@.len() >= 16 {
                counter_block(
                    old(self).fixed_bytes(),
                    chunk_offset(offset, (old(in_buffer)@.len() / 16 - 1) as nat),
                )
            } else {
                old(self).counter_bytes()
            }),
    {
        if in_buffer.len() % 0x10 != 0 {
            return Err(DecryptError::UnsupportedOffsetAlignment);
        }
        self.read(offset, in_buffer);
        Ok(())
    }
}

/// Creates a cursor from a 16-byte key, an 8-byte nonce and the byte offset
/// of the first read.
///
/// The nonce fills the first eight bytes of the counter block; the last eight
/// hold the block index of `offset`, most significant byte first. A key of
/// another length is refused with `InvalidKeyLength`, then a nonce of another
/// length with `InvalidBufferLength`.
pub fn create_dec_ctr(key: &[u8], nonce: &[u8], offset: u64) -> (result: Result<
    CtrWrapper,
    DecryptError,
>)
    ensures
        key@.len() != 16 ==> result == Err::<CtrWrapper, DecryptError>(
            DecryptError::InvalidKeyLength,
        ),
        key@.len() == 16 && nonce@.len() != 8 ==> result == Err::<CtrWrapper, DecryptError>(
            DecryptError::InvalidBufferLength,
        ),
        key@.len() == 16 && nonce@.len() == 8 ==> result is Ok && result->Ok_0.key_bytes() == key@
            && result->Ok_0.counter_bytes() == initial_counter(nonce@, offset),
{
    if key.len() != 0x10 {
        return Err(DecryptError::InvalidKeyLength);
    }
    if nonce.len() != 8 {
        return Err(DecryptError::InvalidBufferLength);
    }
    let key_buffer: [u8; 0x10] = block_at(key, 0);
    let mut counter: [u8; 0x10] = [0u8; 0x10];
    let mut i: usize = 0;
    while i < 8
        invariant
            i <= 8,
            nonce@.len() == 8,
            forall|k: int| 0 <= k < i ==> counter@[k] == nonce@[k],
        decreases 8 - i,
    {
        counter[i] = nonce[i];
        i = i + 1;
    }
    let mut off: u64 = offset >> 4;
    let mut j: usize = 0;
    proof {
        assert(offset >> 4 == offset / 16) by (bit_vector);
        vstd::arithmetic::power::lemma_pow0(256);
    }
    while j < 8
        invariant
            j <= 8,
            nonce@.len() == 8,
            off as int == block_number(offset) as int / vstd::arithmetic::power::pow(256, j as nat),
            forall|k: int| 0 <= k < 8 ==> counter@[k] == nonce@[k],
            forall|k: int|
                16 - j <= k < 16 ==> counter@[k] == be_digit(block_number(offset), 8, k - 8),
        decreases 8 - j,
    {
        proof {
            assert(off & 0xff == off % 256) by (bit_vector);
            assert(off >> 8 == off / 256) by (bit_vector);
            lemma_shift_one_more_byte(block_number(offset), j as nat);
        }
        let low: u8 = (off & 0xff) as u8;
        counter[0x10 - j - 1] = low;
        off = off >> 8;
        j = j + 1;
    }
    assert(counter@ =~= initial_counter(nonce@, offset));
    assert(key_buffer@ =~= key@);
    Ok(CtrWrapper { key: key_buffer, counter })
}

/// Counter-mode decryption is its own inverse: a second read at the same
/// offset, under the same key and fixed counter bytes, restores the buffer.
pub proof fn lemma_read_twice_restores(key: Seq<u8>, fixed: Seq<u8>, offset: u64, data: Seq<u8>)
    ensures
        ctr_plain(key, fixed, offset, ctr_plain(key, fixed, offset, data)) == data,
{
    let once = ctr_plain(key, fixed, offset, data);
    let twice = ctr_plain(key, fixed, offset, once);
    assert forall|j: int| 0 <= j < data.len() implies twice[j] == data[j] by {
        if j < 16 * (data.len() / 16) {
            let stream = aes128_ctr_keystream(
                key,
                counter_block(fixed, chunk_offset(offset, (j / 16) as nat)),
            );
            lemma_xor_cancels(data[j], stream[j % 16]);
        }
    }
    assert(twice =~= data);
}

/// Reads compose: decrypting `head` followed by `tail` in one read gives the
/// same bytes as decrypting `head` at `offset` and `tail` at the offset just
/// behind it in two reads, whenever `head` is a whole number of chunks.
pub proof fn lemma_read_splits(
    key: Seq<u8>,
    fixed: Seq<u8>,
    offset: u64,
    head: Seq<u8>,
    tail: Seq<u8>,
)
    requires
        head.len() % 16 == 0,
    ensures
        ctr_plain(key, fixed, offset, head + tail) == ctr_plain(key, fixed, offset, head)
            + ctr_plain(key, fixed, chunk_offset(offset, head.len() / 16), tail),
{
    let whole = ctr_plain(key, fixed, offset, head + tail);
    let skipped = head.len() / 16;
    let behind = chunk_offset(offset, skipped);
    let parts = ctr_plain(key, fixed, offset, head) + ctr_plain(key, fixed, behind, tail);
    assert(whole.len() == parts.len());
    assert((head + tail).len() / 16 == skipped + tail.len() / 16);
    assert forall|j: int| 0 <= j < whole.len() implies whole[j] == parts[j] by {
        if j < head.len() {
            assert((head + tail)[j] == head[j]);
        } else {
            let k = j - head.len();
            assert((head + tail)[j] == tail[k]);
            assert(j / 16 == skipped + k / 16);
            assert(j % 16 == k % 16);
            assert(chunk_offset(behind, (k / 16) as nat) == chunk_offset(offset, (j / 16) as nat));
        }
    }
    assert(whole =~= parts);
}

/// The block index used for chunk `i` of a read is the block index of the
/// read's offset advanced by `i`, within the 60 bits that a byte offset leaves
/// for it.
pub proof fn lemma_chunk_block_number(offset: u64, i: nat)
    ensures
        block_number(chunk_offset(offset, i)) == (block_number(offset) + i)
            % 0x1000_0000_0000_0000,
{
    let sum = offset + 16 * i;
    let blocks = block_number(offset) + i;
    assert(sum == 16 * blocks + offset % 16);
    assert(sum % 0x1_0000_0000_0000_0000 == 16 * (blocks % 0x1000_0000_0000_0000) + offset % 16)
        by {
        let q = blocks / 0x1000_0000_0000_0000;
        let r = blocks % 0x1000_0000_0000_0000;
        assert(sum == 0x1_0000_0000_0000_0000 * q + (16 * r + offset % 16));
        vstd::arithmetic::div_mod::lemma_fundamental_div_mod_converse(
            sum as int,
            0x1_0000_0000_0000_0000,
            q as int,
            16 * r + offset % 16,
        );
    }
}

/// The fixed counter bytes of a new cursor are its nonce followed by the top
/// four bits of the offset it was created with. Cursors made from the same
/// key and nonce with offsets below `2^60` therefore decrypt alike.
pub proof fn lemma_fresh_cursor_fixed_bytes(nonce: Seq<u8>, offset: u64)
    requires
        nonce.len() == 8,
    ensures
        initial_counter(nonce, offset).len() == 16,
        initial_counter(nonce, offset).subrange(0, 9) == nonce.push(
            (offset / 0x1000_0000_0000_0000) as u8,
        ),
{
    lemma_pow256();
    let top = be_digit(block_number(offset), 8, 0);
    assert(top == (offset / 0x1000_0000_0000_0000) as u8);
    assert(initial_counter(nonce, offset).subrange(0, 9) =~= nonce.push(top));
}

/// The last seven bytes of a counter block spell the block index of its
/// offset, reduced to 56 bits.
pub proof fn lemma_counter_block_index(fixed: Seq<u8>, offset: u64)
    requires
        fixed.len() == 9,
    ensures
        counter_block(fixed, offset).len() == 16,
        counter_block(fixed, offset).subrange(0, 9) == fixed,
        be_value(counter_block(fixed, offset).subrange(9, 16)) == block_number(offset)
            % 0x100_0000_0000_0000,
{
    lemma_pow256();
    lemma_be_value_of_be_bytes(block_number(offset), 7);
    assert(counter_block(fixed, offset).subrange(9, 16) =~= be_bytes(block_number(offset), 7));
    assert(counter_block(fixed, offset).subrange(0, 9) =~= fixed);
}

} // verus!
