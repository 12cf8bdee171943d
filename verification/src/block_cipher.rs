//! The AES-128 computations, performed by the RustCrypto crates.
//!
//! Nothing in this module is proved. Each function below makes one call into
//! an outside crate, and its contract records what that crate's source shows
//! about the result.

use crate::bytes::xor_bytes;
use aes::cipher::{BlockDecryptMut, KeyInit, KeyIvInit, StreamCipher};
use vstd::prelude::*;

verus! {

/// The plaintext that the AES-128 block decryption of `aes::Aes128` gives
/// for one 16-byte block under a 16-byte key.
pub uninterp spec fn aes128_decrypt_block(key: Seq<u8>, block: Seq<u8>) -> Seq<u8>;

/// The first 16 keystream bytes that `ctr::Ctr128LE<Aes128>` generates when
/// it is keyed with `key` and started at the counter block `counter`.
pub uninterp spec fn aes128_ctr_keystream(key: Seq<u8>, counter: Seq<u8>) -> Seq<u8>;

/// The plaintext that `xts_mode::Xts128<Aes128>` gives for one sector under
/// the sub-keys `key1` (data) and `key2` (tweak) and the sector tweak `tweak`.
pub uninterp spec fn xts128_decrypt_sector(
    key1: Seq<u8>,
    key2: Seq<u8>,
    tweak: Seq<u8>,
    sector: Seq<u8>,
) -> Seq<u8>;

/// Calls `decrypt_block_b2b_mut` of `ecb::Decryptor<Aes128>`.
///
/// The ECB decryptor hands the block to the AES-128 decryption unchanged, so
/// the result is the AES-128 decryption of `block` under `key`.
#[verifier::external_body]
pub(crate) fn ecb_decrypt_block(key: &[u8; 16], block: &[u8; 16]) -> (plain: [u8; 16])
    ensures
        plain@ == aes128_decrypt_block(key@, block@),
{
    let mut plain = [0u8; 16];
    let mut ecb = ecb::Decryptor::<aes::Aes128>::new(key.into());
    ecb.decrypt_block_b2b_mut(block.into(), (&mut plain).into());
    plain
}

/// Calls `decrypt_block_mut` of a `cbc::Decryptor<Aes128>` freshly keyed with
/// `key` and `iv`.
///
/// The CBC decryptor runs the AES-128 decryption on the block and combines the
/// outcome with its chaining value by exclusive-or; on a fresh decryptor the
/// chaining value is `iv`.
#[verifier::external_body]
pub(crate) fn cbc_decrypt_block(key: &[u8; 16], iv: &[u8; 16], block: &[u8; 16]) -> (plain: [
    u8;
    16
])
    ensures
        plain@ == xor_bytes(iv@, aes128_decrypt_block(key@, block@)),
{
    let mut plain = *block;
    let mut cbc = cbc::Decryptor::<aes::Aes128>::new(key.into(), iv.into());
    cbc.decrypt_block_mut((&mut plain).into());
    plain
}

/// Calls `apply_keystream` of a `ctr::Ctr128LE<Aes128>` freshly keyed with
/// `key` and `counter`, on one 16-byte chunk.
///
/// The stream cipher combines the chunk with its keystream by exclusive-or; on
/// a fresh cipher the keystream starts with the block generated from `counter`
/// itself, and 16 bytes consume exactly that block.
#[verifier::external_body]
pub(crate) fn ctr_apply_keystream(key: &[u8; 16], counter: &[u8; 16], chunk: &[u8; 16]) -> (out: [
    u8;
    16
])
    ensures
        out@ == xor_bytes(chunk@, aes128_ctr_keystream(key@, counter@)),
{
    let mut out = *chunk;
    let mut ctr = ctr::Ctr128LE::<aes::Aes128>::new(key.into(), counter.into());
    ctr.apply_keystream(&mut out);
    out
}

/// Calls `decrypt_sector` of an `xts_mode::Xts128<Aes128>` built from the two
/// sub-keys.
///
/// The sector is decrypted in place, so the plaintext is as long as the
/// sector. `decrypt_sector` panics on a sector shorter than one block, which
/// the precondition excludes.
#[verifier::external_body]
pub(crate) fn xts_decrypt_sector(
    key1: &[u8; 16],
    key2: &[u8; 16],
    tweak: [u8; 16],
    sector: &[u8],
) -> (plain: Vec<u8>)
    requires
        sector@.len() >= 16,
    ensures
        plain@ == xts128_decrypt_sector(key1@, key2@, tweak@, sector@),
        plain@.len() == sector@.len(),
{
    let mut plain = sector.to_vec();
    let cipher_1 = aes::Aes128::new(key1.into());
    let cipher_2 = aes::Aes128::new(key2.into());
    xts_mode::Xts128::new(cipher_1, cipher_2).decrypt_sector(&mut plain, tweak);
    plain
}

} // verus!
