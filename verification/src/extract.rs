//! Extraction of one chosen bit from each 16-bit big-endian element of a
//! stream, packed most-significant-bit-first into whole output bytes.

use crate::bitacc::BitAccumulator;
use crate::bitops::nth_bit;
use vstd::arithmetic::div_mod::{
    lemma_fundamental_div_mod, lemma_fundamental_div_mod_converse_div,
    lemma_mod_division_less_than_divisor,
};
use vstd::prelude::*;

verus! {

/// The 16-bit big-endian value assembled from two bytes.
pub open spec fn be16(hi: u8, lo: u8) -> u16 {
    (hi as u16 * 256 + lo as u16) as u16
}

/// Bit `i` of a 16-bit element, counting bit 0 as the most significant bit
/// and bit 15 as the least significant.
pub open spec fn element_bit(e: u16, i: int) -> bool {
    (e >> ((15 - i) as u16)) & 1 == 1
}

/// The successive 16-bit big-endian elements of a byte stream; a trailing
/// odd byte belongs to no element.
pub open spec fn stream_elements(bytes: Seq<u8>) -> Seq<u16> {
    Seq::new((bytes.len() as int / 2) as nat, |i: int| be16(bytes[2 * i], bytes[2 * i + 1]))
}

/// The chosen bit of each element of a byte stream, in stream order.
pub open spec fn stream_bits(bytes: Seq<u8>, report_bit: int) -> Seq<bool> {
    Seq::new(
        stream_elements(bytes).len(),
        |i: int| element_bit(stream_elements(bytes)[i], report_bit),
    )
}

/// Reads a 16-bit big-endian element from its two bytes, high byte first.
pub fn element_from_be(hi: u8, lo: u8) -> (r: u16)
    ensures
        r == be16(hi, lo),
{
    (hi as u16) * 256 + (lo as u16)
}

/// Extracts bit `report_bit` (0 = most significant) of a 16-bit element.
pub fn extract_bit(element: u16, report_bit: u8) -> (r: bool)
    requires
        report_bit < 16,
    ensures
        r == element_bit(element, report_bit as int),
{
    let shift: u16 = (15 - report_bit) as u16;
    (element >> shift) & 1 == 1
}

/// Owns one accumulator and a fixed report bit: consumes one 16-bit
/// element at a time, and after every eighth consumed element yields the
/// byte packed from the eight extracted bits.
pub struct ExtractionPipeline {
    acc: BitAccumulator,
    report_bit: u8,
}

impl ExtractionPipeline {
    /// The chosen bit index within each element, 0 the most significant.
    pub closed spec fn spec_report_bit(&self) -> u8 {
        self.report_bit
    }

    /// The bits extracted since the last emitted byte, in arrival order.
    pub closed spec fn pending(&self) -> Seq<bool> {
        self.acc@
    }

    /// The report bit is in range and fewer than eight bits are pending: a
    /// completed byte is always emitted before the next bit arrives.
    pub closed spec fn wf(&self) -> bool {
        &&& self.report_bit < 16
        &&& self.acc.wf()
        &&& self.acc@.len() < 8
    }

    /// A fresh pipeline for the given report bit, with nothing pending.
    pub fn new(report_bit: u8) -> (r: Self)
        requires
            report_bit < 16,
        ensures
            r.wf(),
            r.spec_report_bit() == report_bit,
            r.pending() == Seq::<bool>::empty(),
    {
        Self { acc: BitAccumulator::new(), report_bit }
    }

    /// Consumes one element: its chosen bit joins the pending bits, and the
    /// eighth pending bit completes a byte, which is returned with the
    /// pending bits cleared.
    pub fn process(&mut self, element: u16) -> (out: Option<u8>)
        requires
            old(self).wf(),
        ensures
            final(self).wf(),
            final(self).spec_report_bit() == old(self).spec_report_bit(),
            ({
                let b = element_bit(element, old(self).spec_report_bit() as int);
                if old(self).pending().len() == 7 {
                    &&& out is Some
                    &&& (forall|i: int|
                        0 <= i < 8 ==> nth_bit(out->0, i) == old(self).pending().push(b)[i])
                    &&& final(self).pending() == Seq::<bool>::empty()
                } else {
                    &&& out is None
                    &&& final(self).pending() == old(self).pending().push(b)
                }
            }),
    {
        let bit = extract_bit(element, self.report_bit);
        self.acc.push(bit);
        if self.acc.is_complete() {
            let byte = self.acc.bits();
            self.acc.clear();
            Some(byte)
        } else {
            None
        }
    }
}

/// Runs a whole byte stream through a fresh pipeline: one output byte per
/// eight complete input elements, each output bit the chosen bit of the
/// corresponding element. A trailing odd input byte and any last incomplete
/// group of fewer than eight elements contribute nothing.
pub fn extract_all(input: &[u8], report_bit: u8) -> (out: Vec<u8>)
    requires
        report_bit < 16,
    ensures
        out@.len() == stream_bits(input@, report_bit as int).len() / 8,
        forall|g: int, i: int|
            0 <= g < out@.len() && 0 <= i < 8 ==> nth_bit(out@[g], i) == stream_bits(
                input@,
                report_bit as int,
            )[8 * g + i],
{
    let ghost bits = stream_bits(input@, report_bit as int);
    let mut out: Vec<u8> = Vec::new();
    let mut pipe = ExtractionPipeline::new(report_bit);
    let n_bytes = input.len();
    let n_elems = n_bytes / 2;
    proof {
        assert(bits.len() == n_elems as int);
    }
    let mut k: usize = 0;
    while k < n_elems
        invariant
            pipe.wf(),
            pipe.spec_report_bit() == report_bit,
            bits == stream_bits(input@, report_bit as int),
            n_bytes == input@.len(),
            n_elems as int == n_bytes as int / 2,
            bits.len() == n_elems as int,
            k <= n_elems,
            out@.len() * 8 + pipe.pending().len() == k,
            forall|i: int| 0 <= i < pipe.pending().len() ==> pipe.pending()[i] == bits[out@.len() * 8 + i],
            forall|g: int, i: int|
                0 <= g < out@.len() && 0 <= i < 8 ==> nth_bit(out@[g], i) == bits[8 * g + i],
        decreases n_elems - k,
    {
        proof {
            lemma_fundamental_div_mod(n_bytes as int, 2);
            lemma_mod_division_less_than_divisor(n_bytes as int, 2);
            assert(2 * k + 1 < n_bytes);
        }
        let hi = input[2 * k];
        let lo = input[2 * k + 1];
        let element = element_from_be(hi, lo);
        proof {
            assert(element == stream_elements(input@)[k as int]);
            assert(element_bit(element, report_bit as int) == bits[k as int]);
        }
        let ghost prev_pending = pipe.pending();
        let ghost prev_len = out@.len() as int;
        let ghost b = element_bit(element, report_bit as int);
        match pipe.process(element) {
            Some(byte) => {
                out.push(byte);
                proof {
                    assert(prev_pending.len() == 7);
                    assert forall|g: int, i: int|
                        0 <= g < out@.len() && 0 <= i < 8 implies nth_bit(out@[g], i) == bits[8 * g
                        + i] by {
                        if g == prev_len {
                            assert(nth_bit(byte, i) == prev_pending.push(b)[i]);
                            if i < 7 {
                                assert(prev_pending.push(b)[i] == prev_pending[i]);
                                assert(prev_pending[i] == bits[8 * g + i]);
                            } else {
                                assert(prev_pending.push(b)[7] == b);
                                assert(b == bits[k as int]);
                                assert(k as int == 8 * g + 7);
                            }
                        }
                    }
                }
            },
            None => {},
        }
        k = k + 1;
    }
    proof {
        lemma_fundamental_div_mod_converse_div(
            k as int,
            8,
            out@.len() as int,
            pipe.pending().len() as int,
        );
    }
    out
}

} // verus!
