//! Decryption of a single key entry: AES-128 on one block, without chaining.

use crate::block_cipher::{aes128_decrypt_block, ecb_decrypt_block};
use crate::bytes::block_at;
use crate::error::DecryptError;
use vstd::prelude::*;

verus! {

/// Decrypts one 16-byte block with a 16-byte key. The block is decrypted
/// directly: nothing is chained in and no padding is removed, so the result
/// depends on the key and the block alone.
///
/// A key of another length is refused with `InvalidKeyLength`, then a block
/// of another length with `InvalidBufferLength`.
pub fn decrypt_nca_area(key: &[u8], block: &[u8]) -> (result: Result<[u8; 0x10], DecryptError>)
    ensures
        key@.len() != 16 ==> result is Err && result->Err_0 == DecryptError::InvalidKeyLength,
        key@.len() == 16 && block@.len() != 16 ==> result is Err && result->Err_0
            == DecryptError::InvalidBufferLength,
        key@.len() == 16 && block@.len() == 16 ==> result is Ok && result->Ok_0@
            == aes128_decrypt_block(key@, block@),
{
    if key.len() != 0x10 {
        return Err(DecryptError::InvalidKeyLength);
    }
    if block.len() != 0x10 {
        return Err(DecryptError::InvalidBufferLength);
    }
    let key_buffer = block_at(key, 0);
    let in_block = block_at(block, 0);
    assert(key_buffer@ =~= key@);
    assert(in_block@ =~= block@);
    Ok(ecb_decrypt_block(&key_buffer, &in_block))
}

} // verus!
