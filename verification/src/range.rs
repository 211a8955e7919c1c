//! The finite-precision representation of the code interval `[low, high)`:
//! predicates for the three renormalization conditions, the scaling
//! operations that double the interval, and the mapping from a symbol's
//! cumulative probabilities to its subinterval.

use vstd::arithmetic::div_mod::lemma_div_by_multiple;
use vstd::arithmetic::div_mod::lemma_div_is_ordered;
use vstd::arithmetic::div_mod::lemma_hoist_over_denominator;
use vstd::arithmetic::mul::lemma_mul_inequality;
use vstd::arithmetic::mul::lemma_mul_is_distributive_add_other_way;
use vstd::arithmetic::power2::pow2;
use vstd::prelude::*;

use crate::model::lemma_cum_bounds;
use crate::model::Model;

verus! {

/// The current code interval, half-open: `low` inclusive, `high` exclusive,
/// `0 <= low < high <= 2^precision`, together with the fixed landmarks of the
/// coding space.
pub struct Range {
    pub high: u64,
    pub low: u64,
    pub half: u64,
    pub one_quarter_mark: u64,
    pub three_quarter_mark: u64,
}

impl Range {
    /// The interval is inside the coding space and the landmarks quarter the
    /// space; the bound on `half` is what keeps every scaling inside `u64`.
    pub open spec fn wf(&self) -> bool {
        &&& self.low < self.high <= 2 * self.half
        &&& self.half == 2 * self.one_quarter_mark
        &&& self.three_quarter_mark == 3 * self.one_quarter_mark
        &&& 1 <= self.one_quarter_mark
        &&& self.half <= 0x4000_0000_0000_0000u64
    }

    /// No renormalization applies: the interval is not inside either half nor
    /// strictly inside the middle half. This is the resting state between
    /// coder steps; it implies a width greater than a quarter.
    pub open spec fn spec_settled(&self) -> bool {
        &&& !(self.high < self.half)
        &&& !(self.low > self.half)
        &&& !(self.low > self.one_quarter_mark && self.high < self.three_quarter_mark)
    }

    pub fn new(precision: u64) -> (r: Self)
        requires
            2 <= precision < 64,
        ensures
            r.wf(),
            r.spec_settled(),
            r.low == 0,
            r.high == pow2(precision as nat),
            r.half == pow2(precision as nat) / 2,
            r.one_quarter_mark == pow2(precision as nat) / 4,
            r.three_quarter_mark == 3 * (pow2(precision as nat) / 4),
    {
        let high: u64 = 1 << precision;
        proof {
            vstd::bits::lemma_u64_pow2_no_overflow(precision as nat);
            vstd::bits::lemma_u64_shl_is_mul(1u64, precision);
            vstd::arithmetic::power2::lemma_pow2_adds((precision - 2) as nat, 2);
            vstd::arithmetic::power2::lemma_pow2_pos((precision - 2) as nat);
            vstd::arithmetic::power2::lemma2_to64();
            vstd::arithmetic::power2::lemma2_to64_rest();
            let k = pow2((precision - 2) as nat) as int;
            if precision - 2 < 61 {
                vstd::arithmetic::power2::lemma_pow2_strictly_increases(
                    (precision - 2) as nat,
                    61,
                );
            }
            assert(pow2(precision as nat) == 4 * k);
            assert(high == 4 * k);
            assert(high / 2 == 2 * k);
            assert(high / 4 == k);
            assert(1 <= k <= 0x2000_0000_0000_0000);
        }
        Range {
            high,
            low: 0,
            half: high / 2,
            one_quarter_mark: high / 4,
            three_quarter_mark: (high / 4) * 3,
        }
    }

    pub fn in_bottom_half(&self) -> (r: bool)
        ensures
            r == (self.high < self.half),
    {
        self.high < self.half
    }

    pub fn in_upper_half(&self) -> (r: bool)
        ensures
            r == (self.low > self.half),
    {
        self.low > self.half
    }

    pub fn in_middle_half(&self) -> (r: bool)
        ensures
            r == (self.low > self.one_quarter_mark && self.high < self.three_quarter_mark),
    {
        self.low > self.one_quarter_mark && self.high < self.three_quarter_mark
    }

    pub fn in_bottom_quarter(&self) -> (r: bool)
        ensures
            r == (self.low <= self.one_quarter_mark),
    {
        self.low <= self.one_quarter_mark
    }

    /// Scaling the upper half subtracts a half first, then doubles.
    pub fn scale_upper_half(&mut self)
        requires
            old(self).wf(),
            old(self).low > old(self).half,
        ensures
            final(self).wf(),
            final(self).low == 2 * (old(self).low - old(self).half),
            final(self).high == 2 * (old(self).high - old(self).half),
            final(self).high - final(self).low == 2 * (old(self).high - old(self).low),
            final(self).half == old(self).half,
            final(self).one_quarter_mark == old(self).one_quarter_mark,
            final(self).three_quarter_mark == old(self).three_quarter_mark,
    {
        self.low = (self.low - self.half) * 2;
        self.high = (self.high - self.half) * 2;
    }

    /// Subtracting a quarter then doubling shifts out the second most
    /// significant bit.
    pub fn scale_middle_half(&mut self)
        requires
            old(self).wf(),
            old(self).low > old(self).one_quarter_mark,
            old(self).high < old(self).three_quarter_mark,
        ensures
            final(self).wf(),
            final(self).low == 2 * (old(self).low - old(self).one_quarter_mark),
            final(self).high == 2 * (old(self).high - old(self).one_quarter_mark),
            final(self).high - final(self).low == 2 * (old(self).high - old(self).low),
            final(self).half == old(self).half,
            final(self).one_quarter_mark == old(self).one_quarter_mark,
            final(self).three_quarter_mark == old(self).three_quarter_mark,
    {
        self.low = (self.low - self.one_quarter_mark) * 2;
        self.high = (self.high - self.one_quarter_mark) * 2;
    }

    /// Scaling the bottom half is a plain doubling.
    pub fn scale_bottom_half(&mut self)
        requires
            old(self).wf(),
            old(self).high < old(self).half,
        ensures
            final(self).wf(),
            final(self).low == 2 * old(self).low,
            final(self).high == 2 * old(self).high,
            final(self).high - final(self).low == 2 * (old(self).high - old(self).low),
            final(self).half == old(self).half,
            final(self).one_quarter_mark == old(self).one_quarter_mark,
            final(self).three_quarter_mark == old(self).three_quarter_mark,
    {
        self.low = self.low * 2;
        self.high = self.high * 2;
    }

    /// The subinterval of `[low, high)` that the model's cumulative range for
    /// `symbol` maps to: `(low + W*cum_low/total, low + W*cum_high/total)`
    /// with `W = high - low`, computed exactly in wide integers.
    pub fn calculate_range(&self, symbol: u32, source_model: &Model) -> (r: (u64, u64))
        requires
            self.wf(),
            source_model.wf(),
            symbol < source_model.spec_num_symbols(),
            source_model.spec_total() >= 1,
        ensures
            ({
                let w = self.high - self.low;
                let t = source_model.spec_total();
                &&& r.0 == self.low + w * source_model.spec_cum_low(symbol as int) / t
                &&& r.1 == self.low + w * source_model.spec_cum_high(symbol as int) / t
                &&& self.low <= r.0 <= r.1 <= self.high
                &&& (source_model.spec_count(symbol as int) >= 1 && t <= w) ==> r.0 < r.1
            }),
    {
        let w: u64 = self.high - self.low;
        let probability = source_model.probability(symbol);
        let t: u32 = source_model.total_count();
        proof {
            vstd::arithmetic::mul::lemma_mul_upper_bound(
                w as int,
                u64::MAX as int,
                probability.0 as int,
                u32::MAX as int,
            );
            vstd::arithmetic::mul::lemma_mul_upper_bound(
                w as int,
                u64::MAX as int,
                probability.1 as int,
                u32::MAX as int,
            );
        }
        let lo_scaled: u128 = (w as u128) * (probability.0 as u128) / (t as u128);
        let hi_scaled: u128 = (w as u128) * (probability.1 as u128) / (t as u128);
        proof {
            let wi = w as int;
            let cl = source_model.spec_cum_low(symbol as int);
            let ch = source_model.spec_cum_high(symbol as int);
            let cnt = source_model.spec_count(symbol as int);
            let ti = t as int;
            lemma_cum_bounds(*source_model, symbol as int);
            lemma_mul_inequality(cl, ch, wi);
            lemma_mul_inequality(ch, ti, wi);
            lemma_div_is_ordered(wi * cl, wi * ch, ti);
            lemma_div_is_ordered(wi * ch, wi * ti, ti);
            lemma_div_by_multiple(wi, ti);
            if cnt >= 1 && ti <= wi {
                lemma_mul_is_distributive_add_other_way(wi, cl, cnt);
                lemma_mul_inequality(1, cnt, wi);
                lemma_div_is_ordered(wi * cl + ti, wi * ch, ti);
                lemma_hoist_over_denominator(wi * cl, 1, t as nat);
            }
        }
        ((self.low + lo_scaled as u64), (self.low + hi_scaled as u64))
    }

    pub fn update_range(&mut self, low_high: (u64, u64))
        ensures
            final(self).low == low_high.0,
            final(self).high == low_high.1,
            final(self).half == old(self).half,
            final(self).one_quarter_mark == old(self).one_quarter_mark,
            final(self).three_quarter_mark == old(self).three_quarter_mark,
    {
        self.low = low_high.0;
        self.high = low_high.1;
    }

    pub fn half(&self) -> (r: u64)
        ensures
            r == self.half,
    {
        self.half
    }

    pub fn quarter(&self) -> (r: u64)
        ensures
            r == self.one_quarter_mark,
    {
        self.one_quarter_mark
    }
}

} // verus!
