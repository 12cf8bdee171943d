//! Big-endian encodings of natural numbers as fixed-width byte strings.

use vstd::arithmetic::div_mod::*;
use vstd::arithmetic::mul::*;
use vstd::arithmetic::power::*;
use vstd::prelude::*;

verus! {

/// Byte `i` of the `width`-byte big-endian encoding of `value`: the base-256
/// digit of weight `256^(width - 1 - i)`.
pub open spec fn be_digit(value: nat, width: nat, i: int) -> u8 {
    ((value as int / pow(256, (width - 1 - i) as nat)) % 256) as u8
}

/// The `width`-byte big-endian encoding of `value`, most significant byte
/// first. Digits of weight `256^width` and above are dropped.
pub open spec fn be_bytes(value: nat, width: nat) -> Seq<u8> {
    Seq::new(width, |i: int| be_digit(value, width, i))
}

/// The number that a byte string denotes when read most significant byte first.
pub open spec fn be_value(bytes: Seq<u8>) -> nat
    decreases bytes.len(),
{
    if bytes.len() == 0 {
        0
    } else {
        be_value(bytes.drop_last()) * 256 + bytes.last() as nat
    }
}

/// The powers of 256 that bound the encodings used by this crate.
pub proof fn lemma_pow256()
    ensures
        pow(256, 7) == 0x100_0000_0000_0000,
        pow(256, 8) == 0x1_0000_0000_0000_0000,
        pow(256, 16) == 0x1_0000_0000_0000_0000_0000_0000_0000_0000,
{
    reveal_with_fuel(pow, 9);
    lemma_pow_adds(256, 8, 8);
}

/// Dividing by `256^e` and then by 256 is dividing by `256^(e + 1)`.
pub proof fn lemma_shift_one_more_byte(value: nat, e: nat)
    ensures
        pow(256, e) > 0,
        (value as int / pow(256, e)) / 256 == value as int / pow(256, e + 1),
{
    lemma_pow_positive(256, e);
    lemma_div_denominator(value as int, pow(256, e), 256);
    reveal(pow);
    lemma_mul_is_commutative(pow(256, e), 256);
}

/// Dropping the last byte of an encoding gives the encoding of the value
/// divided by 256, one byte narrower.
pub proof fn lemma_be_bytes_drop_last(value: nat, width: nat)
    requires
        width > 0,
    ensures
        be_bytes(value, width).drop_last() =~= be_bytes(value / 256, (width - 1) as nat),
        be_bytes(value, width).last() == (value % 256) as u8,
{
    let narrow = (width - 1) as nat;
    assert forall|i: int| 0 <= i < narrow implies be_digit(value, width, i) == be_digit(
        value / 256,
        narrow,
        i,
    ) by {
        let e = (narrow - 1 - i) as nat;
        lemma_pow_positive(256, e);
        lemma_div_denominator(value as int, 256, pow(256, e));
        reveal(pow);
        assert((width - 1 - i) as nat == e + 1);
    }
    reveal(pow);
    assert(pow(256, 0) == 1);
}

/// Decoding an encoding gives the value back, reduced modulo `256^width`:
/// distinct values below `256^width` have distinct encodings.
pub proof fn lemma_be_value_of_be_bytes(value: nat, width: nat)
    ensures
        be_value(be_bytes(value, width)) == value as int % pow(256, width),
    decreases width,
{
    reveal(pow);
    if width == 0 {
        assert(pow(256, 0) == 1);
    } else {
        let narrow = (width - 1) as nat;
        lemma_be_bytes_drop_last(value, width);
        lemma_be_value_of_be_bytes(value / 256, narrow);
        lemma_pow_positive(256, narrow);
        let p = pow(256, narrow);
        assert(pow(256, width) == 256 * p);
        // value % (256 * p) == 256 * ((value / 256) % p) + value % 256
        lemma_breakdown(value as int, 256, p);
        assert(value as int % (256 * p) == 256 * ((value as int / 256) % p) + value as int % 256);
    }
}

} // verus!
