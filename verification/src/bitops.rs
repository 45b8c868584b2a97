//! Bit addressing shared by both analyzers: bit 0 of a byte is its most
//! significant bit.

use vstd::prelude::*;

verus! {

/// True iff bit `i` of `b` is set, where bit 0 is the most significant bit
/// of the byte and bit 7 the least significant.
pub open spec fn nth_bit(b: u8, i: int) -> bool {
    (b >> ((7 - i) as u8)) & 1 == 1
}

/// A cleared byte has no bit set, at any position.
pub proof fn lemma_nth_bit_zero(i: int)
    requires
        0 <= i < 8,
    ensures
        !nth_bit(0u8, i),
{
    let j = (7 - i) as u8;
    assert((0u8 >> j) & 1 == 0) by (bit_vector)
        requires
            j < 8,
    ;
}

/// A byte of all ones has every bit set.
pub proof fn lemma_nth_bit_ones(i: int)
    requires
        0 <= i < 8,
    ensures
        nth_bit(0xFFu8, i),
{
    let j = (7 - i) as u8;
    assert((0xFFu8 >> j) & 1 == 1) by (bit_vector)
        requires
            j < 8,
    ;
}

/// Tests bit `i` of `b`, counting bit 0 as the most significant bit.
pub fn test_bit(b: u8, i: u8) -> (r: bool)
    requires
        i < 8,
    ensures
        r == nth_bit(b, i as int),
{
    (b >> (7 - i)) & 1 == 1
}

} // verus!
