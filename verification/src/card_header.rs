//! Decryption of the encrypted game-card header region: AES-128 in
//! cipher-block-chaining mode, without padding.

use crate::block_cipher::{aes128_decrypt_block, cbc_decrypt_block};
use crate::bytes::{block_at, block_of, lemma_xor_cancels, lemma_xor_exchanges};
use crate::error::DecryptError;
use vstd::prelude::*;

verus! {

/// Length of the encrypted game-card header region: seven blocks.
pub const CARD_HEADER_SIZE: usize = 0x70;

/// The value chained into block `k`: the initialization vector for the first
/// block, the previous ciphertext block for every other.
pub open spec fn cbc_chain(iv: Seq<u8>, data: Seq<u8>, k: int) -> Seq<u8> {
    if k == 0 {
        iv
    } else {
        block_of(data, 16 * (k - 1))
    }
}

/// Byte `j` of the plaintext: the block decryption of the ciphertext block
/// that holds it, combined with the value chained into that block.
pub open spec fn cbc_plain_byte(key: Seq<u8>, iv: Seq<u8>, data: Seq<u8>, j: int) -> u8 {
    cbc_chain(iv, data, j / 16)[j % 16] ^ aes128_decrypt_block(
        key,
        block_of(data, 16 * (j / 16)),
    )[j % 16]
}

/// The plaintext of `data` under cipher-block chaining with `key` and `iv`.
pub open spec fn cbc_plain(key: Seq<u8>, iv: Seq<u8>, data: Seq<u8>) -> Seq<u8> {
    Seq::new(data.len(), |j: int| cbc_plain_byte(key, iv, data, j))
}

/// Decrypts `data`, a whole number of 16-byte blocks, block by block: each
/// block's decryption is combined with the ciphertext block before it, the
/// first with `iv`. No padding is removed.
///
/// Data whose length is not a multiple of 16 is refused with
/// `InvalidBufferLength`.
pub fn cbc_decrypt(key: &[u8; 16], iv: &[u8; 16], data: &[u8]) -> (result: Result<
    Vec<u8>,
    DecryptError,
>)
    ensures
        data@.len() % 16 != 0 ==> result is Err && result->Err_0
            == DecryptError::InvalidBufferLength,
        data@.len() % 16 == 0 ==> result is Ok && result->Ok_0@ == cbc_plain(key@, iv@, data@),
{
    let len: usize = data.len();
    if len % 0x10 != 0 {
        return Err(DecryptError::InvalidBufferLength);
    }
    let blocks: usize = len / 0x10;
    let mut plain: Vec<u8> = Vec::new();
    let mut chain: [u8; 16] = *iv;
    let mut k: usize = 0;
    while k < blocks
        invariant
            k <= blocks,
            len == data@.len(),
            len == 16 * blocks,
            chain@ == cbc_chain(iv@, data@, k as int),
            plain@.len() == 16 * k,
            forall|j: int| 0 <= j < 16 * k ==> plain@[j] == cbc_plain_byte(key@, iv@, data@, j),
        decreases blocks - k,
    {
        let block = block_at(data, k * 0x10);
        let clear = cbc_decrypt_block(key, &chain, &block);
        let ghost before = plain@;
        plain.extend_from_slice(&clear);
        proof {
            assert forall|j: int| 0 <= j < 16 * (k + 1) implies plain@[j] == cbc_plain_byte(
                key@,
                iv@,
                data@,
                j,
            ) by {
                if j >= 16 * k {
                    assert(j / 16 == k);
                    assert(j % 16 == j - 16 * k);
                    assert(plain@[j] == clear@[j - 16 * k]);
                } else {
                    assert(plain@[j] == before[j]);
                }
            }
        }
        chain = block;
        k = k + 1;
    }
    assert(plain@ =~= cbc_plain(key@, iv@, data@));
    Ok(plain)
}

/// Decrypts the 112-byte encrypted region of a game-card header with a
/// 16-byte key and a 16-byte initialization vector.
///
/// A key of another length is refused with `InvalidKeyLength`; then an
/// initialization vector or a region of another length with
/// `InvalidBufferLength`.
pub fn decrypt_xci_enc_header(key: &[u8], iv: &[u8], contents: &[u8]) -> (result: Result<
    Vec<u8>,
    DecryptError,
>)
    ensures
        key@.len() != 16 ==> result is Err && result->Err_0 == DecryptError::InvalidKeyLength,
        key@.len() == 16 && (iv@.len() != 16 || contents@.len() != 0x70) ==> result is Err
            && result->Err_0 == DecryptError::InvalidBufferLength,
        key@.len() == 16 && iv@.len() == 16 && contents@.len() == 0x70 ==> result is Ok
            && result->Ok_0@ == cbc_plain(key@, iv@, contents@),
{
    if key.len() != 0x10 {
        return Err(DecryptError::InvalidKeyLength);
    }
    if iv.len() != 0x10 {
        return Err(DecryptError::InvalidBufferLength);
    }
    if contents.len() != CARD_HEADER_SIZE {
        return Err(DecryptError::InvalidBufferLength);
    }
    let key_buffer = block_at(key, 0);
    let iv_buffer = block_at(iv, 0);
    assert(key_buffer@ =~= key@);
    assert(iv_buffer@ =~= iv@);
    cbc_decrypt(&key_buffer, &iv_buffer, contents)
}

/// A plaintext block depends on two ciphertext blocks only, its own and the
/// one before it (for the first block: its own and the initialization
/// vector).
pub proof fn lemma_cbc_block_locality(
    key: Seq<u8>,
    iv: Seq<u8>,
    first: Seq<u8>,
    second: Seq<u8>,
    k: int,
)
    requires
        first.len() == second.len(),
        0 <= k,
        16 * k + 16 <= first.len(),
        block_of(first, 16 * k) == block_of(second, 16 * k),
        k > 0 ==> block_of(first, 16 * (k - 1)) == block_of(second, 16 * (k - 1)),
    ensures
        block_of(cbc_plain(key, iv, first), 16 * k) == block_of(cbc_plain(key, iv, second), 16 * k),
{
    let left = block_of(cbc_plain(key, iv, first), 16 * k);
    let right = block_of(cbc_plain(key, iv, second), 16 * k);
    assert forall|i: int| 0 <= i < 16 implies left[i] == right[i] by {
        let j = 16 * k + i;
        assert(j / 16 == k);
        assert(left[i] == cbc_plain_byte(key, iv, first, j));
        assert(right[i] == cbc_plain_byte(key, iv, second, j));
    }
    assert(left =~= right);
}

/// How a change of one ciphertext byte propagates: combining the byte at
/// position `at` with `mask` combines the plaintext byte sixteen positions
/// later with the same mask, and leaves every plaintext byte outside the block
/// of `at` otherwise unchanged. Only the plaintext block of `at` itself is
/// garbled.
pub proof fn lemma_cbc_error_propagation(
    key: Seq<u8>,
    iv: Seq<u8>,
    data: Seq<u8>,
    at: int,
    mask: u8,
)
    requires
        data.len() % 16 == 0,
        0 <= at < data.len(),
    ensures
        ({
            let changed = data.update(at, data[at] ^ mask);
            let plain = cbc_plain(key, iv, data);
            let garbled = cbc_plain(key, iv, changed);
            &&& garbled.len() == plain.len()
            &&& forall|j: int|
                0 <= j < plain.len() && j / 16 != at / 16 && j != at + 16 ==> garbled[j]
                    == plain[j]
            &&& at + 16 < plain.len() ==> garbled[at + 16] == plain[at + 16] ^ mask
            &&& at + 16 < plain.len() && mask != 0 ==> garbled[at + 16] != plain[at + 16]
        }),
{
    let changed = data.update(at, data[at] ^ mask);
    let plain = cbc_plain(key, iv, data);
    let garbled = cbc_plain(key, iv, changed);
    assert forall|j: int|
        0 <= j < plain.len() && j / 16 != at / 16 && j != at + 16 implies garbled[j]
        == plain[j] by {
        let k = j / 16;
        assert(block_of(changed, 16 * k) =~= block_of(data, 16 * k));
        if k > 0 {
            assert(block_of(changed, 16 * (k - 1))[j % 16] == block_of(data, 16 * (k - 1))[j % 16]);
        }
    }
    if at + 16 < plain.len() {
        let j = at + 16;
        let k = j / 16;
        assert(k - 1 == at / 16);
        assert(j % 16 == at % 16);
        assert(block_of(changed, 16 * k) =~= block_of(data, 16 * k));
        assert(block_of(changed, 16 * (k - 1))[j % 16] == data[at] ^ mask);
        assert(block_of(data, 16 * (k - 1))[j % 16] == data[at]);
        let clear = aes128_decrypt_block(key, block_of(data, 16 * k))[j % 16];
        lemma_xor_exchanges(data[at], mask, clear);
        lemma_xor_cancels(plain[j], mask);
    }
}

} // verus!
