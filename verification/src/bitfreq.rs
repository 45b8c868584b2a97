//! A per-bit-position frequency counter over fixed-size byte blocks.

use crate::bitops::{lemma_nth_bit_ones, lemma_nth_bit_zero, nth_bit, test_bit};
use crate::decimal::{dec_rep, push_decimal};
use vstd::arithmetic::div_mod::{
    lemma_div_pos_is_pos, lemma_fundamental_div_mod, lemma_fundamental_div_mod_converse_div,
    lemma_fundamental_div_mod_converse_mod, lemma_mod_division_less_than_divisor,
    lemma_multiply_divide_lt,
};
use vstd::prelude::*;

verus! {

/// 1 if the bit at flat position `i` of `block` is set, else 0. Position
/// `i` addresses bit `i % 8` (bit 0 most significant) of byte `i / 8`.
pub open spec fn block_bit_count(block: Seq<u8>, i: int) -> u32 {
    if nth_bit(block[i / 8], i % 8) {
        1u32
    } else {
        0u32
    }
}

/// The counts vector after one more block: each entry grows by 1 exactly
/// where the corresponding bit of the block is set.
pub open spec fn updated_counts(counts: Seq<u32>, block: Seq<u8>) -> Seq<u32> {
    Seq::new(counts.len(), |i: int| (counts[i] + block_bit_count(block, i)) as u32)
}

/// The counts vector after `k` updates with the same block.
pub open spec fn repeat_update(counts: Seq<u32>, block: Seq<u8>, k: nat) -> Seq<u32>
    decreases k,
{
    if k == 0 {
        counts
    } else {
        updated_counts(repeat_update(counts, block, (k - 1) as nat), block)
    }
}

/// A flat bit position `i` within a block of `len` bytes addresses a byte
/// index `i / 8` inside the block and a bit index `i % 8` inside that byte.
proof fn lemma_flat_index(i: int, len: int)
    requires
        0 <= i,
        0 < len,
        i < len * 8,
    ensures
        0 <= i / 8 < len,
        0 <= i % 8 < 8,
{
    lemma_div_pos_is_pos(i, 8);
    assert(i < 8 * len);
    lemma_multiply_divide_lt(i, 8, len);
    lemma_mod_division_less_than_divisor(i, 8);
}

/// The rendering of the first `j` entries of group `g`: the decimal numbers
/// for `counts[8 * g .. 8 * g + j]`, joined by `bit_sep`.
pub open spec fn group_prefix(counts: Seq<u32>, bit_sep: Seq<char>, g: int, j: int) -> Seq<char>
    decreases j,
{
    if j <= 0 {
        Seq::empty()
    } else if j == 1 {
        dec_rep(counts[8 * g] as nat)
    } else {
        group_prefix(counts, bit_sep, g, j - 1) + bit_sep + dec_rep(counts[8 * g + (j - 1)] as nat)
    }
}

/// The rendering of the first `g` groups of eight counts, joined by
/// `byte_sep`.
pub open spec fn render_prefix(
    counts: Seq<u32>,
    bit_sep: Seq<char>,
    byte_sep: Seq<char>,
    g: int,
) -> Seq<char>
    decreases g,
{
    if g <= 0 {
        Seq::empty()
    } else if g == 1 {
        group_prefix(counts, bit_sep, 0, 8)
    } else {
        render_prefix(counts, bit_sep, byte_sep, g - 1) + byte_sep + group_prefix(
            counts,
            bit_sep,
            g - 1,
            8,
        )
    }
}

/// The full rendering of a counts vector: one group of eight decimal
/// numbers per original byte, numbers joined by `bit_sep` within a group
/// and groups joined by `byte_sep`.
pub open spec fn render_spec(counts: Seq<u32>, bit_sep: Seq<char>, byte_sep: Seq<char>) -> Seq<
    char,
> {
    render_prefix(counts, bit_sep, byte_sep, counts.len() as int / 8)
}

/// Counts, for each bit position of a fixed-size byte block, in how many of
/// the blocks seen since the last clear that position held a set bit. Bit 0
/// of a byte is its most significant bit.
pub struct BitFrequency {
    count: u32,
    n_bytes: usize,
    bit_freq: Vec<u32>,
}

/// A vector of `len` zeroed counters.
fn zero_counts(len: usize) -> (r: Vec<u32>)
    ensures
        r@.len() == len,
        forall|i: int| 0 <= i < len ==> r@[i] == 0u32,
{
    let mut v: Vec<u32> = Vec::new();
    while v.len() < len
        invariant
            v@.len() <= len,
            forall|i: int| 0 <= i < v@.len() ==> v@[i] == 0u32,
        decreases len - v@.len(),
    {
        v.push(0u32);
    }
    v
}

impl BitFrequency {
    /// Number of blocks accumulated since the last clear.
    pub closed spec fn spec_count(&self) -> u32 {
        self.count
    }

    /// The immutable block size in bytes.
    pub closed spec fn spec_n_bytes(&self) -> usize {
        self.n_bytes
    }

    /// The per-bit-position counts, one entry per bit of a block.
    pub closed spec fn spec_counts(&self) -> Seq<u32> {
        self.bit_freq@
    }

    /// There is one counter per bit of a block, and no counter can exceed
    /// the number of blocks seen.
    pub open spec fn wf(&self) -> bool {
        &&& self.spec_counts().len() == self.spec_n_bytes() * 8
        &&& forall|i: int|
            0 <= i < self.spec_counts().len() ==> self.spec_counts()[i] <= self.spec_count()
    }

    /// A fresh counter for blocks of `bytes` bytes: all counts zero, no
    /// blocks seen. A size of zero is accepted and yields a counter with an
    /// empty counts vector.
    pub fn new(bytes: usize) -> (r: Self)
        requires
            bytes * 8 <= usize::MAX,
        ensures
            r.wf(),
            r.spec_n_bytes() == bytes,
            r.spec_count() == 0,
            r.spec_counts().len() == bytes * 8,
            forall|i: int| 0 <= i < r.spec_counts().len() ==> r.spec_counts()[i] == 0u32,
    {
        Self { count: 0u32, n_bytes: bytes, bit_freq: zero_counts(bytes * 8) }
    }

    /// Resets every count and the block tally to zero; the block size is
    /// unchanged.
    pub fn clear(&mut self)
        requires
            old(self).wf(),
        ensures
            final(self).wf(),
            final(self).spec_n_bytes() == old(self).spec_n_bytes(),
            final(self).spec_count() == 0,
            final(self).spec_counts().len() == old(self).spec_counts().len(),
            forall|i: int|
                0 <= i < final(self).spec_counts().len() ==> final(self).spec_counts()[i] == 0u32,
    {
        self.count = 0u32;
        let target = self.bit_freq.len();
        self.bit_freq = zero_counts(target);
    }

    /// The number of blocks accumulated since the last clear.
    pub fn count(&self) -> (r: u32)
        ensures
            r == self.spec_count(),
    {
        self.count
    }

    /// The block size in bytes this counter was built for.
    pub fn n_bytes(&self) -> (r: usize)
        ensures
            r == self.spec_n_bytes(),
    {
        self.n_bytes
    }

    /// The per-bit-position counts, one entry per bit of a block.
    pub fn bit_freq(&self) -> (r: &[u32])
        ensures
            r@ == self.spec_counts(),
    {
        self.bit_freq.as_slice()
    }

    /// Renders the counts as decimal text: eight numbers per original byte,
    /// numbers joined by `bit_sep` within a group and groups joined by
    /// `byte_sep`.
    pub fn count_string(&self, bit_sep: &str, byte_sep: &str) -> (r: String)
        requires
            self.wf(),
        ensures
            r@ == render_spec(self.spec_counts(), bit_sep@, byte_sep@),
    {
        let ghost counts = self.spec_counts();
        let mut r = String::from_str("");
        proof {
            reveal_strlit("");
            assert(r@ =~= Seq::<char>::empty());
        }
        let len = self.bit_freq.len();
        let n_groups = len / 8;
        proof {
            lemma_fundamental_div_mod(len as int, 8);
            lemma_mod_division_less_than_divisor(len as int, 8);
        }
        let mut g: usize = 0;
        while g < n_groups
            invariant
                self.wf(),
                counts == self.spec_counts(),
                len == self.bit_freq@.len(),
                n_groups as int == len as int / 8,
                8 * n_groups <= len,
                g <= n_groups,
                r@ == render_prefix(counts, bit_sep@, byte_sep@, g as int),
            decreases n_groups - g,
        {
            if g > 0 {
                r.append(byte_sep);
            }
            let ghost base = r@;
            proof {
                assert(base =~= render_prefix(counts, bit_sep@, byte_sep@, g as int) + (if g > 0 {
                    byte_sep@
                } else {
                    Seq::<char>::empty()
                }));
                assert(base =~= base + group_prefix(counts, bit_sep@, g as int, 0));
            }
            let mut j: usize = 0;
            while j < 8
                invariant
                    self.wf(),
                    counts == self.spec_counts(),
                    len == self.bit_freq@.len(),
                    n_groups as int == len as int / 8,
                    8 * n_groups <= len,
                    g < n_groups,
                    j <= 8,
                    base == render_prefix(counts, bit_sep@, byte_sep@, g as int) + (if g > 0 {
                        byte_sep@
                    } else {
                        Seq::<char>::empty()
                    }),
                    r@ == base + group_prefix(counts, bit_sep@, g as int, j as int),
                decreases 8 - j,
            {
                if j > 0 {
                    r.append(bit_sep);
                }
                let idx = g * 8 + j;
                push_decimal(&mut r, self.bit_freq[idx]);
                proof {
                    assert(r@ =~= base + group_prefix(counts, bit_sep@, g as int, j + 1));
                }
                j = j + 1;
            }
            proof {
                assert(r@ =~= render_prefix(counts, bit_sep@, byte_sep@, g + 1));
            }
            g = g + 1;
        }
        r
    }

    /// Accumulates one block: every counter whose bit is set in `x` grows
    /// by one, and the block tally grows by one.
    pub fn update(&mut self, x: &[u8])
        requires
            old(self).wf(),
            x@.len() == old(self).spec_n_bytes(),
            old(self).spec_count() < u32::MAX,
        ensures
            final(self).wf(),
            final(self).spec_n_bytes() == old(self).spec_n_bytes(),
            final(self).spec_count() == old(self).spec_count() + 1,
            final(self).spec_counts() == updated_counts(old(self).spec_counts(), x@),
    {
        let ghost orig = *old(self);
        let n = x.len();
        let total = self.bit_freq.len();
        let mut byte_i: usize = 0;
        while byte_i < n
            invariant
                orig.wf(),
                orig.spec_count() < u32::MAX,
                n == x@.len(),
                n == orig.spec_n_bytes(),
                total == self.bit_freq@.len(),
                byte_i <= n,
                self.n_bytes == orig.spec_n_bytes(),
                self.count == orig.spec_count(),
                self.bit_freq@.len() == orig.spec_counts().len(),
                forall|i: int|
                    0 <= i < byte_i * 8 ==> self.bit_freq@[i] == updated_counts(
                        orig.spec_counts(),
                        x@,
                    )[i],
                forall|i: int|
                    byte_i * 8 <= i < self.bit_freq@.len() ==> self.bit_freq@[i]
                        == orig.spec_counts()[i],
            decreases n - byte_i,
        {
            let b = x[byte_i];
            let mut bit: usize = 0;
            while bit < 8
                invariant
                    orig.wf(),
                    orig.spec_count() < u32::MAX,
                    n == x@.len(),
                    n == orig.spec_n_bytes(),
                    total == self.bit_freq@.len(),
                    byte_i < n,
                    bit <= 8,
                    b == x@[byte_i as int],
                    self.n_bytes == orig.spec_n_bytes(),
                    self.count == orig.spec_count(),
                    self.bit_freq@.len() == orig.spec_counts().len(),
                    forall|i: int|
                        0 <= i < byte_i * 8 + bit ==> self.bit_freq@[i] == updated_counts(
                            orig.spec_counts(),
                            x@,
                        )[i],
                    forall|i: int|
                        byte_i * 8 + bit <= i < self.bit_freq@.len() ==> self.bit_freq@[i]
                            == orig.spec_counts()[i],
                decreases 8 - bit,
            {
                let offset = byte_i * 8 + bit;
                proof {
                    lemma_fundamental_div_mod_converse_div(
                        offset as int,
                        8,
                        byte_i as int,
                        bit as int,
                    );
                    lemma_fundamental_div_mod_converse_mod(
                        offset as int,
                        8,
                        byte_i as int,
                        bit as int,
                    );
                }
                let cur = self.bit_freq[offset];
                proof {
                    assert(self.bit_freq@[offset as int] == orig.spec_counts()[offset as int]);
                    assert(orig.spec_counts()[offset as int] <= orig.spec_count());
                }
                if test_bit(b, bit as u8) {
                    self.bit_freq[offset] = cur + 1;
                }
                bit = bit + 1;
            }
            byte_i = byte_i + 1;
        }
        self.count = self.count + 1;
        proof {
            assert(self.bit_freq@ =~= updated_counts(orig.spec_counts(), x@));
        }
    }
}

impl Default for BitFrequency {
    /// The default counter works on single-byte blocks.
    fn default() -> (r: Self)
        ensures
            r.wf(),
            r.spec_n_bytes() == 1,
            r.spec_count() == 0,
            r.spec_counts().len() == 8,
            forall|i: int| 0 <= i < r.spec_counts().len() ==> r.spec_counts()[i] == 0u32,
    {
        Self::new(1)
    }
}

/// All-zero blocks leave an all-zero counts vector unchanged, however many
/// updates are applied.
pub proof fn lemma_zero_blocks_keep_counts_zero(counts: Seq<u32>, block: Seq<u8>, k: nat)
    requires
        block.len() >= 1,
        counts.len() == block.len() * 8,
        forall|j: int| 0 <= j < block.len() ==> block[j] == 0u8,
        forall|i: int| 0 <= i < counts.len() ==> counts[i] == 0u32,
    ensures
        repeat_update(counts, block, k).len() == counts.len(),
        forall|i: int| 0 <= i < counts.len() ==> repeat_update(counts, block, k)[i] == 0u32,
    decreases k,
{
    if k > 0 {
        lemma_zero_blocks_keep_counts_zero(counts, block, (k - 1) as nat);
        let prev = repeat_update(counts, block, (k - 1) as nat);
        assert forall|i: int| 0 <= i < counts.len() implies repeat_update(counts, block, k)[i]
            == 0u32 by {
            lemma_flat_index(i, block.len() as int);
            lemma_nth_bit_zero(i % 8);
            assert(block_bit_count(block, i) == 0u32);
        }
    }
}

/// All-ones blocks drive every counter up by one per update: after `k`
/// updates from all-zero, every entry equals `k`.
pub proof fn lemma_ones_blocks_count_every_update(counts: Seq<u32>, block: Seq<u8>, k: nat)
    requires
        block.len() >= 1,
        counts.len() == block.len() * 8,
        forall|j: int| 0 <= j < block.len() ==> block[j] == 0xFFu8,
        forall|i: int| 0 <= i < counts.len() ==> counts[i] == 0u32,
        k <= u32::MAX,
    ensures
        repeat_update(counts, block, k).len() == counts.len(),
        forall|i: int| 0 <= i < counts.len() ==> repeat_update(counts, block, k)[i] == k,
    decreases k,
{
    if k > 0 {
        lemma_ones_blocks_count_every_update(counts, block, (k - 1) as nat);
        let prev = repeat_update(counts, block, (k - 1) as nat);
        assert forall|i: int| 0 <= i < counts.len() implies repeat_update(counts, block, k)[i]
            == k by {
            lemma_flat_index(i, block.len() as int);
            lemma_nth_bit_ones(i % 8);
            assert(block_bit_count(block, i) == 1u32);
            assert(prev[i] == k - 1);
        }
    }
}

} // verus!
