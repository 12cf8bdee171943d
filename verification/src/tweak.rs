//! Derivation of the XTS tweak from a sector index.

use crate::big_endian::{be_bytes, be_digit, be_value, lemma_be_value_of_be_bytes, lemma_pow256, lemma_shift_one_more_byte};
use vstd::prelude::*;

verus! {

/// The tweak of a sector, as a byte string: the 16-byte big-endian encoding of
/// the sector index.
pub open spec fn nintendo_tweak(sector_index: u128) -> Seq<u8> {
    be_bytes(sector_index as nat, 16)
}

/// Returns the tweak for the sector `sector_index`.
///
/// Archive headers encode the sector index big-endian, where the common XTS
/// convention is little-endian.
pub fn get_nintendo_tweak(sector_index: u128) -> (tweak: [u8; 0x10])
    ensures
        tweak@ == nintendo_tweak(sector_index),
{
    let mut tweak: [u8; 0x10] = [0u8; 0x10];
    let mut rest: u128 = sector_index;
    let mut done: usize = 0;
    proof {
        vstd::arithmetic::power::lemma_pow0(256);
    }
    while done < 16
        invariant
            done <= 16,
            rest as int == sector_index as int / vstd::arithmetic::power::pow(256, done as nat),
            forall|i: int|
                16 - done <= i < 16 ==> tweak@[i] == be_digit(sector_index as nat, 16, i),
        decreases 16 - done,
    {
        proof {
            assert(rest & 0xff == rest % 256) by (bit_vector);
            assert(rest >> 8 == rest / 256) by (bit_vector);
            lemma_shift_one_more_byte(sector_index as nat, done as nat);
        }
        let low: u8 = (rest & 0xff) as u8;
        tweak[15 - done] = low;
        rest = rest >> 8;
        done = done + 1;
    }
    assert(tweak@ =~= nintendo_tweak(sector_index));
    tweak
}

/// Distinct sector indices have distinct tweaks: the index can be read back
/// from the tweak.
pub proof fn lemma_tweak_determines_sector(sector_index: u128)
    ensures
        be_value(nintendo_tweak(sector_index)) == sector_index,
{
    lemma_be_value_of_be_bytes(sector_index as nat, 16);
    lemma_pow256();
    vstd::arithmetic::div_mod::lemma_small_mod(
        sector_index as nat,
        0x1_0000_0000_0000_0000_0000_0000_0000_0000nat,
    );
}

} // verus!
