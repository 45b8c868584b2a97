//! An accumulator that assembles single bits, most-significant-bit first,
//! into one output byte.

use crate::bitops::{nth_bit, test_bit};
use vstd::prelude::*;

verus! {

/// Bits at the positions `k..8` of `b` (bit 0 most significant) are all clear.
pub open spec fn high_bits_only(b: u8, k: int) -> bool {
    forall|i: int| k <= i < 8 ==> !nth_bit(b, i)
}

proof fn lemma_zero_bit(j: u8)
    by (bit_vector)
    requires
        j < 8,
    ensures
        (0u8 >> j) & 1 == 0,
{
}

proof fn lemma_or_bit(b: u8, k: u8, j: u8)
    by (bit_vector)
    requires
        k < 8,
        j < 8,
    ensures
        j != k ==> ((b | (1u8 << k)) >> j) & 1 == (b >> j) & 1,
        ((b | (1u8 << k)) >> k) & 1 == 1,
{
}

proof fn lemma_and_not_bit(b: u8, k: u8, j: u8)
    by (bit_vector)
    requires
        k < 8,
        j < 8,
    ensures
        j != k ==> ((b & !(1u8 << k)) >> j) & 1 == (b >> j) & 1,
        ((b & !(1u8 << k)) >> k) & 1 == 0,
{
}

/// Assembles up to 8 pushed bits into a byte, first pushed bit at the most
/// significant position. Pushing into a full accumulator is a silent no-op.
pub struct BitAccumulator {
    bits: u8,
    n: u8,
}

impl View for BitAccumulator {
    type V = Seq<bool>;

    /// The sequence of bits pushed since the last clear, in push order.
    closed spec fn view(&self) -> Seq<bool> {
        Seq::new(self.n as nat, |i: int| nth_bit(self.bits, i))
    }
}

impl BitAccumulator {
    /// At most 8 bits are held, and the positions not yet pushed are clear,
    /// so `bits` is exactly the pushed bits padded with zeros.
    pub closed spec fn wf(&self) -> bool {
        self.n <= 8 && high_bits_only(self.bits, self.n as int)
    }

    /// A new accumulator holds no bits.
    pub fn new() -> (r: Self)
        ensures
            r.wf(),
            r@ == Seq::<bool>::empty(),
    {
        let r = Self { bits: 0b00000000_u8, n: 0_u8 };
        proof {
            assert forall|i: int| 0 <= i < 8 implies !nth_bit(0u8, i) by {
                lemma_zero_bit((7 - i) as u8);
            }
            assert(r@ =~= Seq::<bool>::empty());
        }
        r
    }

    /// How many bits have been pushed since the last clear.
    pub fn current_bits(&self) -> (r: u8)
        ensures
            r == self@.len(),
    {
        self.n
    }

    /// The byte assembled so far: pushed bits from the most significant
    /// position down, remaining positions clear.
    pub fn bits(&self) -> (r: u8)
        requires
            self.wf(),
        ensures
            forall|i: int| 0 <= i < 8 ==> nth_bit(r, i) == (i < self@.len() && self@[i]),
    {
        self.bits
    }

    /// True iff all 8 bit positions have been filled.
    pub fn is_complete(&self) -> (r: bool)
        ensures
            r == (self@.len() == 8),
    {
        self.n == 8
    }

    /// Drops all held bits; the accumulator is as freshly constructed.
    pub fn clear(&mut self)
        ensures
            final(self).wf(),
            final(self)@ == Seq::<bool>::empty(),
    {
        self.bits = 0b00000000_u8;
        self.n = 0_u8;
        proof {
            assert forall|i: int| 0 <= i < 8 implies !nth_bit(0u8, i) by {
                lemma_zero_bit((7 - i) as u8);
            }
            assert(self@ =~= Seq::<bool>::empty());
        }
    }

    /// The textual form of the accumulator: one '1' or '0' character per
    /// pushed bit, in push order.
    pub fn bits_string(&self) -> (r: String)
        requires
            self.wf(),
        ensures
            r@.len() == self@.len(),
            forall|i: int|
                0 <= i < self@.len() ==> r@[i] == (if self@[i] {
                    '1'
                } else {
                    '0'
                }),
    {
        let mut r = String::from_str("");
        proof {
            reveal_strlit("");
            assert(r@ =~= Seq::<char>::empty());
        }
        let n = self.n;
        let mut i: u8 = 0;
        while i < n
            invariant
                self.wf(),
                n == self@.len(),
                i <= n,
                r@.len() == i as int,
                forall|j: int|
                    0 <= j < i ==> r@[j] == (if self@[j] {
                        '1'
                    } else {
                        '0'
                    }),
            decreases n - i,
        {
            if test_bit(self.bits, i) {
                proof {
                    reveal_strlit("1");
                }
                r.append("1");
            } else {
                proof {
                    reveal_strlit("0");
                }
                r.append("0");
            }
            i = i + 1;
        }
        r
    }

    /// Appends `bit` at the next free position if one is free; on a full
    /// accumulator the call changes nothing at all.
    pub fn push(&mut self, bit: bool)
        requires
            old(self).wf(),
        ensures
            final(self).wf(),
            old(self)@.len() < 8 ==> final(self)@ == old(self)@.push(bit),
            old(self)@.len() == 8 ==> *final(self) == *old(self),
    {
        if self.n < 8 {
            let ghost old_bits = self.bits;
            let ghost old_n = self.n;
            let k: u8 = 7 - self.n;
            match bit {
                true => self.bits = self.bits | (0x1_u8 << k),
                false => self.bits = self.bits & !(0x1_u8 << k),
            }
            self.n = self.n + 1;
            proof {
                assert forall|j: int| 0 <= j < 8 implies nth_bit(self.bits, j) == (
                if j == old_n as int {
                    bit
                } else {
                    nth_bit(old_bits, j)
                }) by {
                    if bit {
                        lemma_or_bit(old_bits, k, (7 - j) as u8);
                    } else {
                        lemma_and_not_bit(old_bits, k, (7 - j) as u8);
                    }
                }
                assert(self@ =~= old(self)@.push(bit));
            }
        }
    }
}

impl Default for BitAccumulator {
    /// The default accumulator holds no bits.
    fn default() -> (r: Self)
        ensures
            r.wf(),
            r@ == Seq::<bool>::empty(),
    {
        Self::new()
    }
}

} // verus!
