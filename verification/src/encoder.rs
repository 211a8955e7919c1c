//! The arithmetic encoder: maintains the code interval and a pending-bit
//! counter, and per symbol emits exactly the bits that commit that symbol's
//! subinterval. During middle-half scaling the eventual bit is not yet known,
//! so it is deferred: when the next definite bit is emitted, the deferred
//! bits follow it with opposite polarity.

use vstd::arithmetic::power2::pow2;
use vstd::prelude::*;

use crate::bits::BitSink;
use crate::model::Model;
use crate::range::Range;

verus! {

/// The encoder's renormalization state: the interval, the deferred bits, and
/// everything written so far.
pub ghost struct EncState {
    pub low: int,
    pub high: int,
    pub pending: int,
    pub bits: Seq<bool>,
}

/// A definite bit followed by `pending` deferred bits of opposite polarity.
pub open spec fn emit_bits(bit: bool, pending: int) -> Seq<bool> {
    seq![bit] + Seq::new(pending as nat, |i: int| !bit)
}

/// The encoder's renormalization cascade: while the interval sits in the
/// bottom or upper half it is doubled and the definite bit emitted together
/// with the deferred ones; while it straddles the midpoint strictly inside
/// the middle half it is doubled and one more bit deferred. Stops as soon as
/// no condition applies (or on a state no well-formed coder produces).
pub open spec fn enc_renorm(s: EncState, half: int, quarter: int) -> EncState
    decreases 2 * half - (s.high - s.low),
{
    if !(0 < quarter && half == 2 * quarter && 0 <= s.low && s.low < s.high <= 2 * half) {
        s
    } else if s.high < half {
        enc_renorm(
            EncState {
                low: 2 * s.low,
                high: 2 * s.high,
                pending: 0,
                bits: s.bits + emit_bits(false, s.pending),
            },
            half,
            quarter,
        )
    } else if s.low > half {
        enc_renorm(
            EncState {
                low: 2 * (s.low - half),
                high: 2 * (s.high - half),
                pending: 0,
                bits: s.bits + emit_bits(true, s.pending),
            },
            half,
            quarter,
        )
    } else if s.low > quarter && s.high < 3 * quarter {
        enc_renorm(
            EncState {
                low: 2 * (s.low - quarter),
                high: 2 * (s.high - quarter),
                pending: s.pending + 1,
                bits: s.bits,
            },
            half,
            quarter,
        )
    } else {
        s
    }
}

/// Per-symbol arithmetic encoder over a caller-supplied bit sink.
pub struct ArithmeticEncoder {
    precision: u64,
    pending_bit_count: u64,
    range: Range,
}

impl ArithmeticEncoder {
    pub closed spec fn spec_range(&self) -> Range {
        self.range
    }

    pub closed spec fn spec_pending(&self) -> int {
        self.pending_bit_count as int
    }

    pub closed spec fn spec_precision(&self) -> int {
        self.precision as int
    }

    /// Between calls the interval is well formed and fully renormalized.
    pub open spec fn wf(&self) -> bool {
        &&& self.spec_range().wf()
        &&& self.spec_range().spec_settled()
    }

    /// `precision` is the bit width of the interval arithmetic; if it is too
    /// low, symbols cannot be told apart.
    pub fn new(precision: u64) -> (r: Self)
        requires
            8 <= precision < 64,
        ensures
            r.wf(),
            r.spec_pending() == 0,
            r.spec_precision() == precision,
            r.spec_range().low == 0,
            r.spec_range().high == pow2(precision as nat),
            r.spec_range().half == pow2(precision as nat) / 2,
            r.spec_range().one_quarter_mark == pow2(precision as nat) / 4,
    {
        ArithmeticEncoder { precision, pending_bit_count: 0, range: Range::new(precision) }
    }

    /// Narrows the interval to the symbol's subinterval and renormalizes,
    /// emitting into `output` exactly the bits of the renormalization
    /// cascade. The model's total must not exceed a quarter of the coding
    /// space so that every symbol with a nonzero count keeps a nonempty
    /// subinterval; the pending-bit counter needs the stated headroom.
    pub fn encode(&mut self, symbol: u32, source_model: &Model, output: &mut BitSink)
        requires
            old(self).wf(),
            source_model.wf(),
            symbol < source_model.spec_num_symbols(),
            source_model.spec_count(symbol as int) >= 1,
            1 <= source_model.spec_total() <= old(self).spec_range().one_quarter_mark,
            old(self).spec_pending() <= 0x2000_0000_0000_0000,
        ensures
            final(self).wf(),
            final(self).spec_range().half == old(self).spec_range().half,
            final(self).spec_range().one_quarter_mark == old(self).spec_range().one_quarter_mark,
            final(self).spec_range().three_quarter_mark == old(
                self,
            ).spec_range().three_quarter_mark,
            final(self).spec_precision() == old(self).spec_precision(),
            final(self).spec_pending() <= old(self).spec_pending() + 62,
            ({
                let r0 = old(self).spec_range();
                let w = r0.high - r0.low;
                let t = source_model.spec_total();
                let lo2 = r0.low + w * source_model.spec_cum_low(symbol as int) / t;
                let hi2 = r0.low + w * source_model.spec_cum_high(symbol as int) / t;
                let fin = enc_renorm(
                    EncState {
                        low: lo2,
                        high: hi2,
                        pending: old(self).spec_pending(),
                        bits: old(output)@,
                    },
                    r0.half as int,
                    r0.one_quarter_mark as int,
                );
                &&& final(self).spec_range().low == fin.low
                &&& final(self).spec_range().high == fin.high
                &&& final(self).spec_pending() == fin.pending
                &&& final(output)@ == fin.bits
            }),
    {
        let ghost r0 = self.range;
        let low_high = self.range.calculate_range(symbol, source_model);
        self.range.update_range(low_high);
        let ghost fin = enc_renorm(
            EncState {
                low: self.range.low as int,
                high: self.range.high as int,
                pending: self.pending_bit_count as int,
                bits: output@,
            },
            r0.half as int,
            r0.one_quarter_mark as int,
        );
        proof {
            assert(r0.high - r0.low >= source_model.spec_total());
        }
        while self.range.in_bottom_half() || self.range.in_upper_half()
            invariant
                self.range.wf(),
                self.range.half == r0.half,
                self.range.one_quarter_mark == r0.one_quarter_mark,
                self.range.three_quarter_mark == r0.three_quarter_mark,
                self.precision == old(self).spec_precision(),
                self.pending_bit_count as int <= old(self).spec_pending(),
                enc_renorm(
                    EncState {
                        low: self.range.low as int,
                        high: self.range.high as int,
                        pending: self.pending_bit_count as int,
                        bits: output@,
                    },
                    r0.half as int,
                    r0.one_quarter_mark as int,
                ) == fin,
            decreases 2 * self.range.half - (self.range.high - self.range.low),
        {
            let ghost before = EncState {
                low: self.range.low as int,
                high: self.range.high as int,
                pending: self.pending_bit_count as int,
                bits: output@,
            };
            if self.range.in_bottom_half() {
                self.range.scale_bottom_half();
                self.emit(false, output);
            } else {
                self.range.scale_upper_half();
                self.emit(true, output);
            }
            proof {
                let after = EncState {
                    low: self.range.low as int,
                    high: self.range.high as int,
                    pending: self.pending_bit_count as int,
                    bits: output@,
                };
                assert(enc_renorm(before, r0.half as int, r0.one_quarter_mark as int)
                    == enc_renorm(after, r0.half as int, r0.one_quarter_mark as int));
            }
        }
        let ghost p1 = self.pending_bit_count as int;
        proof {
            vstd::arithmetic::power2::lemma2_to64();
        }
        while self.range.in_middle_half()
            invariant
                self.range.wf(),
                self.range.half == r0.half,
                self.range.one_quarter_mark == r0.one_quarter_mark,
                self.range.three_quarter_mark == r0.three_quarter_mark,
                self.precision == old(self).spec_precision(),
                !(self.range.high < self.range.half),
                !(self.range.low > self.range.half),
                p1 <= old(self).spec_pending(),
                p1 <= 0x2000_0000_0000_0000,
                p1 <= self.pending_bit_count as int <= p1 + 62,
                pow2((self.pending_bit_count as int - p1) as nat) <= self.range.high
                    - self.range.low,
                enc_renorm(
                    EncState {
                        low: self.range.low as int,
                        high: self.range.high as int,
                        pending: self.pending_bit_count as int,
                        bits: output@,
                    },
                    r0.half as int,
                    r0.one_quarter_mark as int,
                ) == fin,
            decreases 2 * self.range.half - (self.range.high - self.range.low),
        {
            let ghost before = EncState {
                low: self.range.low as int,
                high: self.range.high as int,
                pending: self.pending_bit_count as int,
                bits: output@,
            };
            proof {
                let d = (self.pending_bit_count as int - p1) as nat;
                if d >= 62 {
                    vstd::arithmetic::power2::lemma2_to64();
                    vstd::arithmetic::power2::lemma2_to64_rest();
                    if d > 62 {
                        vstd::arithmetic::power2::lemma_pow2_strictly_increases(62, d);
                    }
                    assert(false);
                }
                vstd::arithmetic::power2::lemma_pow2_adds(d, 1);
                vstd::arithmetic::power2::lemma2_to64();
            }
            self.pending_bit_count = self.pending_bit_count + 1;
            self.range.scale_middle_half();
            proof {
                let after = EncState {
                    low: self.range.low as int,
                    high: self.range.high as int,
                    pending: self.pending_bit_count as int,
                    bits: output@,
                };
                assert(enc_renorm(before, r0.half as int, r0.one_quarter_mark as int)
                    == enc_renorm(after, r0.half as int, r0.one_quarter_mark as int));
            }
        }
    }

    /// Writes the definite bit, then materializes the deferred bits with the
    /// opposite polarity.
    fn emit(&mut self, bit: bool, output: &mut BitSink)
        ensures
            final(self).spec_pending() == 0,
            final(self).spec_range() == old(self).spec_range(),
            final(self).spec_precision() == old(self).spec_precision(),
            final(output)@ == old(output)@ + emit_bits(bit, old(self).spec_pending()),
    {
        let ghost p0 = self.pending_bit_count as int;
        output.write_bit(bit);
        proof {
            assert(output@ =~= old(output)@ + seq![bit] + Seq::new(
                (p0 - self.pending_bit_count as int) as nat,
                |i: int| !bit,
            ));
        }
        while self.pending_bit_count > 0
            invariant
                self.range == old(self).spec_range(),
                self.precision == old(self).spec_precision(),
                self.pending_bit_count as int <= p0,
                output@ == old(output)@ + seq![bit] + Seq::new(
                    (p0 - self.pending_bit_count as int) as nat,
                    |i: int| !bit,
                ),
            decreases self.pending_bit_count,
        {
            output.write_bit(!bit);
            self.pending_bit_count = self.pending_bit_count - 1;
            proof {
                assert(output@ =~= old(output)@ + seq![bit] + Seq::new(
                    (p0 - self.pending_bit_count as int) as nat,
                    |i: int| !bit,
                ));
            }
        }
        proof {
            assert(output@ =~= old(output)@ + emit_bits(bit, p0));
        }
    }

    /// Ends the stream: defers one more bit, then emits a bit that
    /// distinguishes the final interval from its siblings, flushing the
    /// deferred bits with the opposite polarity.
    pub fn finish_encode(&mut self, output: &mut BitSink)
        requires
            old(self).spec_pending() < u64::MAX,
        ensures
            final(self).spec_pending() == 0,
            final(self).spec_range() == old(self).spec_range(),
            final(self).spec_precision() == old(self).spec_precision(),
            final(output)@ == old(output)@ + emit_bits(
                !(old(self).spec_range().low <= old(self).spec_range().one_quarter_mark),
                old(self).spec_pending() + 1,
            ),
    {
        self.pending_bit_count = self.pending_bit_count + 1;
        if self.range.in_bottom_quarter() {
            self.emit(false, output);
        } else {
            self.emit(true, output);
        }
    }
}

} // verus!
