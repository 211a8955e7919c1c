//! The arithmetic decoder: keeps a precision-wide input register inside the
//! code interval, locates on each step the unique symbol whose subinterval
//! contains the register, and mirrors the encoder's renormalization while
//! consuming bits. Past the physical end of the stream it serves up to
//! `precision` virtual zero bits, then fails with `UnexpectedEof`.

use vstd::arithmetic::div_mod::lemma_div_by_multiple;
use vstd::arithmetic::div_mod::lemma_div_is_ordered;
use vstd::arithmetic::div_mod::lemma_div_of0;
use vstd::arithmetic::mul::lemma_mul_basics;
use vstd::arithmetic::mul::lemma_mul_inequality;
use vstd::arithmetic::power2::pow2;
use vstd::prelude::*;

use crate::bits::bit_val;
use crate::bits::BitSource;
use crate::fenwick;
use crate::model::Model;
use crate::range::Range;

verus! {

/// The decoder's failure: the bitstream was exhausted before the EOF symbol
/// was decoded. Typical cause: the encoder did not emit an EOF symbol, or
/// the stream was truncated.
#[derive(Clone, Copy, Debug, PartialEq, Eq, Structural)]
pub enum DecodeError {
    UnexpectedEof,
}

/// The decoder's renormalization state: the interval, the input register,
/// the read position, and the remaining virtual zero bits.
pub ghost struct DecState {
    pub low: int,
    pub high: int,
    pub buf: int,
    pub pos: int,
    pub left: int,
    pub ok: bool,
}

/// One bit from the source: a physical bit while any remain; past the end a
/// virtual zero, up to `left` of them; then failure.
pub open spec fn spec_read(bits: Seq<bool>, pos: int, left: int) -> (int, int, int, bool) {
    if pos < bits.len() {
        (bit_val(bits[pos]), pos + 1, left, true)
    } else if left > 0 {
        (0, pos, left - 1, true)
    } else {
        (0, pos, left, false)
    }
}

/// `k` bits read most-significant first into the accumulator `acc`.
pub open spec fn spec_fill(bits: Seq<bool>, pos: int, left: int, k: nat, acc: int) -> (
    int,
    int,
    int,
    bool,
)
    decreases k,
{
    if k == 0 {
        (acc, pos, left, true)
    } else {
        let r = spec_read(bits, pos, left);
        if !r.3 {
            (acc, r.1, r.2, false)
        } else {
            spec_fill(bits, r.1, r.2, (k - 1) as nat, 2 * acc + r.0)
        }
    }
}

/// The decoder's renormalization cascade, mirroring the encoder's, with the
/// input register following the interval: each scaling consumes one bit into
/// the register. Stops when no condition applies, or at the first failed
/// read.
pub open spec fn dec_renorm(s: DecState, bits: Seq<bool>, half: int, quarter: int) -> DecState
    decreases 2 * half - (s.high - s.low),
{
    if !(0 < quarter && half == 2 * quarter && 0 <= s.low && s.low < s.high <= 2 * half && s.ok) {
        s
    } else if s.high < half {
        let r = spec_read(bits, s.pos, s.left);
        if !r.3 {
            DecState { pos: r.1, left: r.2, ok: false, ..s }
        } else {
            dec_renorm(
                DecState {
                    low: 2 * s.low,
                    high: 2 * s.high,
                    buf: 2 * s.buf + r.0,
                    pos: r.1,
                    left: r.2,
                    ok: true,
                },
                bits,
                half,
                quarter,
            )
        }
    } else if s.low > half {
        let r = spec_read(bits, s.pos, s.left);
        if !r.3 {
            DecState { pos: r.1, left: r.2, ok: false, ..s }
        } else {
            dec_renorm(
                DecState {
                    low: 2 * (s.low - half),
                    high: 2 * (s.high - half),
                    buf: 2 * (s.buf - half) + r.0,
                    pos: r.1,
                    left: r.2,
                    ok: true,
                },
                bits,
                half,
                quarter,
            )
        }
    } else if s.low > quarter && s.high < 3 * quarter {
        let r = spec_read(bits, s.pos, s.left);
        if !r.3 {
            DecState { pos: r.1, left: r.2, ok: false, ..s }
        } else {
            dec_renorm(
                DecState {
                    low: 2 * (s.low - quarter),
                    high: 2 * (s.high - quarter),
                    buf: 2 * (s.buf - quarter) + r.0,
                    pos: r.1,
                    left: r.2,
                    ok: true,
                },
                bits,
                half,
                quarter,
            )
        }
    } else {
        s
    }
}

/// Where the model's cumulative sum up to `s` lands inside an interval that
/// starts at `low` and is `w` wide.
pub open spec fn scaled_cum(m: Model, low: int, w: int, s: int) -> int {
    low + w * fenwick::prefix_total(m.spec_counts(), s) / m.spec_total()
}

/// The register value `buf` lies in the subinterval of symbol `s`.
pub open spec fn symbol_contains(m: Model, low: int, w: int, buf: int, s: int) -> bool {
    scaled_cum(m, low, w, s) <= buf < scaled_cum(m, low, w, s + 1)
}

/// The renormalization cascade run from the subinterval of `sym` inside the
/// interval `r0`, with register `buf`, reading from `bits` at `pos` with
/// `left` virtual zeros in reserve.
pub open spec fn renorm_from(
    m: Model,
    r0: Range,
    sym: int,
    buf: int,
    pos: int,
    left: int,
    bits: Seq<bool>,
) -> DecState {
    dec_renorm(
        DecState {
            low: scaled_cum(m, r0.low as int, r0.high - r0.low, sym),
            high: scaled_cum(m, r0.low as int, r0.high - r0.low, sym + 1),
            buf,
            pos,
            left,
            ok: true,
        },
        bits,
        r0.half as int,
        r0.one_quarter_mark as int,
    )
}

/// The stream ran out while renormalizing: some symbol's subinterval
/// contained the register, and the cascade run from it stops at a failed
/// read, with the read position and the remaining virtual zeros standing
/// exactly where it stopped.
pub open spec fn decode_failed_state(
    m: Model,
    r0: Range,
    buf: int,
    pos: int,
    left: int,
    bits: Seq<bool>,
    end_pos: int,
    end_left: int,
) -> bool {
    exists|sym: int|
        (#[trigger] symbol_contains(m, r0.low as int, r0.high - r0.low, buf, sym)) && 0 <= sym
            < m.spec_num_symbols() && sym != m.spec_eof() && !renorm_from(
            m,
            r0,
            sym,
            buf,
            pos,
            left,
            bits,
        ).ok && end_pos == renorm_from(m, r0, sym, buf, pos, left, bits).pos && end_left
            == renorm_from(m, r0, sym, buf, pos, left, bits).left
}

/// The decoder's observable state between symbols, together with the read
/// position of its bit source.
pub ghost struct DecCoderState {
    pub low: int,
    pub high: int,
    pub buf: int,
    pub pos: int,
    pub left: int,
    pub started: bool,
}

/// The symbol whose subinterval contains the register; by
/// `lemma_symbol_unique` there is at most one.
pub open spec fn contained_symbol(m: Model, low: int, w: int, buf: int) -> int {
    choose|s: int|
        0 <= s < m.spec_num_symbols() && #[trigger] symbol_contains(m, low, w, buf, s)
}

/// One whole `decode` call as a function of the decoder state: the fill on a
/// first call, the symbol located, and (except on the EOF symbol) the
/// renormalization cascade. The third component is false when the stream ran
/// out.
pub open spec fn spec_decode_step(
    m: Model,
    st: DecCoderState,
    bits: Seq<bool>,
    half: int,
    quarter: int,
    precision: int,
) -> (DecCoderState, int, bool) {
    let fill = if !st.started {
        spec_fill(bits, st.pos, st.left, precision as nat, 0)
    } else {
        (st.buf, st.pos, st.left, true)
    };
    if !fill.3 {
        ((DecCoderState { pos: fill.1, left: fill.2, ..st }), 0, false)
    } else {
        let w = st.high - st.low;
        let sym = contained_symbol(m, st.low, w, fill.0);
        if sym == m.spec_eof() {
            ((DecCoderState { buf: fill.0, pos: fill.1, left: fill.2, started: true, ..st }),
            sym,
            true,
            )
        } else {
            let fin = dec_renorm(
                DecState {
                    low: scaled_cum(m, st.low, w, sym),
                    high: scaled_cum(m, st.low, w, sym + 1),
                    buf: fill.0,
                    pos: fill.1,
                    left: fill.2,
                    ok: true,
                },
                bits,
                half,
                quarter,
            );
            ((DecCoderState {
                low: fin.low,
                high: fin.high,
                buf: fin.buf,
                pos: fin.pos,
                left: fin.left,
                started: true,
            }),
            sym,
            fin.ok,
            )
        }
    }
}

/// The subinterval boundaries are monotone in the symbol index.
pub proof fn lemma_scaled_monotone(m: Model, low: int, w: int, s1: int, s2: int)
    requires
        m.wf(),
        m.spec_total() >= 1,
        w >= 0,
        0 <= s1 <= s2,
    ensures
        scaled_cum(m, low, w, s1) <= scaled_cum(m, low, w, s2),
{
    fenwick::lemma_prefix_total_monotone(m.spec_counts(), s1, s2);
    lemma_mul_inequality(
        fenwick::prefix_total(m.spec_counts(), s1),
        fenwick::prefix_total(m.spec_counts(), s2),
        w,
    );
    lemma_div_is_ordered(
        w * fenwick::prefix_total(m.spec_counts(), s1),
        w * fenwick::prefix_total(m.spec_counts(), s2),
        m.spec_total(),
    );
}

/// A valid coding always yields exactly one symbol whose subinterval
/// contains the register.
pub proof fn lemma_symbol_unique(m: Model, low: int, w: int, buf: int, s1: int, s2: int)
    requires
        m.wf(),
        m.spec_total() >= 1,
        w >= 0,
        0 <= s1 < m.spec_num_symbols(),
        0 <= s2 < m.spec_num_symbols(),
        symbol_contains(m, low, w, buf, s1),
        symbol_contains(m, low, w, buf, s2),
    ensures
        s1 == s2,
{
    if s1 < s2 {
        lemma_scaled_monotone(m, low, w, s1 + 1, s2);
    }
    if s2 < s1 {
        lemma_scaled_monotone(m, low, w, s2 + 1, s1);
    }
}

/// The subintervals tile the whole interval, so some symbol contains any
/// register value in it.
proof fn lemma_symbol_exists(m: Model, low: int, w: int, buf: int, j: int)
    requires
        m.wf(),
        m.spec_total() >= 1,
        w >= 0,
        0 <= j < m.spec_num_symbols(),
        scaled_cum(m, low, w, j) <= buf,
        buf < scaled_cum(m, low, w, m.spec_num_symbols()),
    ensures
        exists|s: int|
            j <= s < m.spec_num_symbols() && #[trigger] symbol_contains(m, low, w, buf, s),
    decreases m.spec_num_symbols() - j,
{
    if scaled_cum(m, low, w, j + 1) > buf {
        assert(symbol_contains(m, low, w, buf, j));
    } else {
        if j + 1 == m.spec_num_symbols() {
            assert(false);
        }
        lemma_symbol_exists(m, low, w, buf, j + 1);
    }
}

/// Per-symbol arithmetic decoder over a caller-supplied bit source.
pub struct ArithmeticDecoder {
    range: Range,
    precision: u64,
    started: bool,
    input_buffer: u64,
    bits_left: u64,
    finished: bool,
}

impl ArithmeticDecoder {
    pub closed spec fn spec_range(&self) -> Range {
        self.range
    }

    pub closed spec fn spec_precision(&self) -> int {
        self.precision as int
    }

    pub closed spec fn spec_started(&self) -> bool {
        self.started
    }

    pub closed spec fn spec_buffer(&self) -> int {
        self.input_buffer as int
    }

    pub closed spec fn spec_bits_left(&self) -> int {
        self.bits_left as int
    }

    pub closed spec fn spec_finished(&self) -> bool {
        self.finished
    }

    /// Between calls the interval is well formed; once the register has been
    /// preloaded it stays inside the interval.
    pub open spec fn wf(&self) -> bool {
        &&& self.spec_range().wf()
        &&& 8 <= self.spec_precision() < 64
        &&& (self.spec_started() ==> self.spec_range().low <= self.spec_buffer()
            < self.spec_range().high)
        &&& (!self.spec_started() ==> self.spec_range().high == pow2(
            self.spec_precision() as nat,
        ) && self.spec_range().low == 0 && self.spec_buffer() == 0 && self.spec_bits_left()
            == self.spec_precision())
    }

    /// `precision` is the bit width of the interval arithmetic; it must match
    /// the encoder's.
    pub fn new(precision: u64) -> (r: Self)
        requires
            8 <= precision < 64,
        ensures
            r.wf(),
            !r.spec_started(),
            !r.spec_finished(),
            r.spec_precision() == precision,
            r.spec_bits_left() == precision,
            r.spec_range().low == 0,
            r.spec_range().high == pow2(precision as nat),
            r.spec_range().half == pow2(precision as nat) / 2,
            r.spec_range().one_quarter_mark == pow2(precision as nat) / 4,
    {
        ArithmeticDecoder {
            range: Range::new(precision),
            precision,
            started: false,
            input_buffer: 0,
            bits_left: precision,
            finished: false,
        }
    }

    /// One bit for the register: a stream bit, or a virtual zero past the
    /// end while any are left.
    fn bit(&mut self, source: &mut BitSource) -> (r: Result<u64, DecodeError>)
        ensures
            final(self).spec_range() == old(self).spec_range(),
            final(self).spec_precision() == old(self).spec_precision(),
            final(self).spec_started() == old(self).spec_started(),
            final(self).spec_buffer() == old(self).spec_buffer(),
            final(self).spec_finished() == old(self).spec_finished(),
            final(source).stream() == old(source).stream(),
            ({
                let rr = spec_read(
                    old(source).stream(),
                    old(source).position(),
                    old(self).spec_bits_left(),
                );
                &&& final(source).position() == rr.1
                &&& final(self).spec_bits_left() == rr.2
                &&& match r {
                    Result::Ok(b) => rr.3 && b == rr.0,
                    Result::Err(e) => !rr.3 && e == DecodeError::UnexpectedEof,
                }
            }),
    {
        match source.read_bit() {
            Some(b) => Ok(
                if b {
                    1
                } else {
                    0
                },
            ),
            None => {
                if self.bits_left == 0 {
                    Err(DecodeError::UnexpectedEof)
                } else {
                    self.bits_left = self.bits_left - 1;
                    Ok(0)
                }
            },
        }
    }

    /// Decodes one symbol: preloads the register on the first call, finds
    /// the unique symbol whose subinterval contains the register, and,
    /// unless that symbol is the model's EOF, renormalizes while consuming
    /// committed bits.
    #[verifier::rlimit(100)]
    pub fn decode(&mut self, source_model: &Model, bit_source: &mut BitSource) -> (r: Result<
        u32,
        DecodeError,
    >)
        requires
            old(self).wf(),
            source_model.wf(),
            source_model.spec_total() >= 1,
        ensures
            final(bit_source).stream() == old(bit_source).stream(),
            final(self).spec_precision() == old(self).spec_precision(),
            final(self).spec_range().half == old(self).spec_range().half,
            final(self).spec_range().one_quarter_mark == old(self).spec_range().one_quarter_mark,
            final(self).spec_range().three_quarter_mark == old(
                self,
            ).spec_range().three_quarter_mark,
            r is Ok ==> final(self).wf() && final(self).spec_started(),
            ({
                let bits = old(bit_source).stream();
                let fill = if !old(self).spec_started() {
                    spec_fill(
                        bits,
                        old(bit_source).position(),
                        old(self).spec_bits_left(),
                        old(self).spec_precision() as nat,
                        0,
                    )
                } else {
                    (
                        old(self).spec_buffer(),
                        old(bit_source).position(),
                        old(self).spec_bits_left(),
                        true,
                    )
                };
                let r0 = old(self).spec_range();
                let w = r0.high - r0.low;
                if !fill.3 {
                    &&& r == Result::<u32, DecodeError>::Err(DecodeError::UnexpectedEof)
                    &&& final(bit_source).position() == fill.1
                    &&& final(self).spec_bits_left() == fill.2
                    &&& final(self).spec_finished() == old(self).spec_finished()
                } else {
                    match r {
                        Result::Ok(sym) => {
                            &&& 0 <= sym < source_model.spec_num_symbols()
                            &&& symbol_contains(*source_model, r0.low as int, w, fill.0, sym as int)
                            &&& if sym == source_model.spec_eof() {
                                &&& final(self).spec_finished()
                                &&& final(self).spec_range() == r0
                                &&& final(self).spec_buffer() == fill.0
                                &&& final(bit_source).position() == fill.1
                                &&& final(self).spec_bits_left() == fill.2
                            } else {
                                let fin = renorm_from(
                                    *source_model,
                                    r0,
                                    sym as int,
                                    fill.0,
                                    fill.1,
                                    fill.2,
                                    bits,
                                );
                                &&& fin.ok
                                &&& final(self).spec_range().low == fin.low
                                &&& final(self).spec_range().high == fin.high
                                &&& final(self).spec_buffer() == fin.buf
                                &&& final(bit_source).position() == fin.pos
                                &&& final(self).spec_bits_left() == fin.left
                                &&& final(self).spec_finished() == old(self).spec_finished()
                            }
                        },
                        Result::Err(e) => {
                            &&& e == DecodeError::UnexpectedEof
                            &&& decode_failed_state(
                                *source_model,
                                r0,
                                fill.0,
                                fill.1,
                                fill.2,
                                bits,
                                final(bit_source).position(),
                                final(self).spec_bits_left(),
                            )
                        },
                    }
                }
            }),
    {
        let ghost bits = bit_source.stream();
        let ghost pos0 = bit_source.position();
        let ghost left0 = self.bits_left as int;
        let ghost r0 = self.range;
        if !self.started {
            let ghost whole = spec_fill(bits, pos0, left0, self.precision as nat, 0);
            proof {
                vstd::arithmetic::power2::lemma2_to64();
            }
            let mut i: u64 = 0;
            while i < self.precision
                invariant
                    i <= self.precision,
                    8 <= self.precision < 64,
                    !self.started,
                    !old(self).spec_started(),
                    self.range == r0,
                    r0 == old(self).spec_range(),
                    self.finished == old(self).spec_finished(),
                    self.precision == old(self).spec_precision(),
                    bit_source.stream() == bits,
                    bits == old(bit_source).stream(),
                    whole == spec_fill(
                        bits,
                        old(bit_source).position(),
                        old(self).spec_bits_left(),
                        old(self).spec_precision() as nat,
                        0,
                    ),
                    self.input_buffer < pow2(i as nat),
                    spec_fill(
                        bits,
                        bit_source.position(),
                        self.bits_left as int,
                        (self.precision - i) as nat,
                        self.input_buffer as int,
                    ) == whole,
                decreases self.precision - i,
            {
                proof {
                    vstd::arithmetic::power2::lemma_pow2_adds(i as nat, 1);
                    vstd::arithmetic::power2::lemma2_to64();
                    if i + 1 < 64 {
                        vstd::arithmetic::power2::lemma_pow2_strictly_increases(
                            (i + 1) as nat,
                            64,
                        );
                    }
                    vstd::arithmetic::power2::lemma2_to64_rest();
                }
                let ghost pp = bit_source.position();
                let ghost ll = self.bits_left as int;
                let ghost acc = self.input_buffer as int;
                let b: u64 = match self.bit(bit_source) {
                    Ok(b) => b,
                    Err(e) => {
                        proof {
                            let rr = spec_read(bits, pp, ll);
                            assert(!rr.3);
                            assert(whole == (acc, rr.1, rr.2, false));
                        }
                        return Err(e);
                    },
                };
                self.input_buffer = 2 * self.input_buffer + b;
                i = i + 1;
            }
            self.started = true;
        }
        let ghost fill = if !old(self).spec_started() {
            spec_fill(bits, pos0, left0, old(self).spec_precision() as nat, 0)
        } else {
            (old(self).spec_buffer(), pos0, left0, true)
        };
        proof {
            assert(fill.3);
            assert(self.input_buffer as int == fill.0);
            assert(bit_source.position() == fill.1);
            assert(self.bits_left as int == fill.2);
            if !old(self).spec_started() {
                lemma_fill_bound(bits, pos0, left0, old(self).spec_precision() as nat, 0);
                vstd::arithmetic::power2::lemma_pow2_pos(old(self).spec_precision() as nat);
                lemma_mul_basics(pow2(old(self).spec_precision() as nat) as int);
            }
            assert(r0.low <= self.input_buffer < r0.high);
        }
        let ghost w = r0.high as int - r0.low as int;
        let ghost n = source_model.spec_num_symbols();
        proof {
            lemma_mul_basics(w);
            lemma_div_of0(source_model.spec_total());
            lemma_div_by_multiple(w, source_model.spec_total());
            assert(scaled_cum(*source_model, r0.low as int, w, 0) == r0.low);
            assert(scaled_cum(*source_model, r0.low as int, w, n) == r0.high);
            lemma_symbol_exists(*source_model, r0.low as int, w, self.input_buffer as int, 0);
        }
        let ghost s_star = choose|s: int|
            0 <= s < n && #[trigger] symbol_contains(
                *source_model,
                r0.low as int,
                w,
                self.input_buffer as int,
                s,
            );
        let ghost buf0 = self.input_buffer as int;
        let mut low_idx: u32 = 0;
        let mut high_idx: u32 = source_model.num_symbols();
        let mut symbol: u32 = 0;
        let mut sym_range: (u64, u64) = (0, 0);
        let mut found = false;
        while !found
            invariant
                source_model.wf(),
                source_model.spec_total() >= 1,
                self.range == r0,
                r0.wf(),
                n == source_model.spec_num_symbols(),
                w == r0.high - r0.low,
                buf0 == self.input_buffer as int,
                r0.low <= buf0 < r0.high,
                0 <= s_star < n,
                symbol_contains(*source_model, r0.low as int, w, buf0, s_star),
                low_idx <= s_star <= high_idx,
                high_idx <= n,
                found ==> (symbol == s_star && sym_range.0 == scaled_cum(
                    *source_model,
                    r0.low as int,
                    w,
                    s_star,
                ) && sym_range.1 == scaled_cum(*source_model, r0.low as int, w, s_star + 1)
                    && r0.low <= sym_range.0 && sym_range.1 <= r0.high),
            decreases high_idx - low_idx + (
            if found {
                0int
            } else {
                1int
            }),
        {
            let mid: u32 = low_idx + (high_idx - low_idx) / 2;
            proof {
                lemma_scaled_monotone(*source_model, r0.low as int, w, s_star + 1, n);
            }
            let low_high = self.range.calculate_range(mid, source_model);
            if low_high.0 <= self.input_buffer && self.input_buffer < low_high.1 {
                proof {
                    lemma_symbol_unique(
                        *source_model,
                        r0.low as int,
                        w,
                        buf0,
                        s_star,
                        mid as int,
                    );
                }
                symbol = mid;
                sym_range = low_high;
                found = true;
            } else if self.input_buffer >= low_high.1 {
                proof {
                    if s_star < mid + 1 {
                        lemma_scaled_monotone(
                            *source_model,
                            r0.low as int,
                            w,
                            s_star + 1,
                            mid as int + 1,
                        );
                    }
                }
                low_idx = mid + 1;
            } else {
                proof {
                    if s_star > mid - 1 {
                        lemma_scaled_monotone(
                            *source_model,
                            r0.low as int,
                            w,
                            mid as int,
                            s_star,
                        );
                    }
                }
                high_idx = mid - 1;
            }
        }
        if symbol == source_model.eof() {
            self.finished = true;
            return Ok(symbol);
        }
        self.range.update_range(sym_range);
        let ghost fin = dec_renorm(
            DecState {
                low: self.range.low as int,
                high: self.range.high as int,
                buf: buf0,
                pos: bit_source.position(),
                left: self.bits_left as int,
                ok: true,
            },
            bits,
            r0.half as int,
            r0.one_quarter_mark as int,
        );
        while self.range.in_bottom_half() || self.range.in_upper_half()
            invariant
                self.range.wf(),
                self.range.half == r0.half,
                self.range.one_quarter_mark == r0.one_quarter_mark,
                self.range.three_quarter_mark == r0.three_quarter_mark,
                self.precision == old(self).spec_precision(),
                8 <= self.precision < 64,
                self.started,
                self.finished == old(self).spec_finished(),
                bit_source.stream() == bits,
                bits == old(bit_source).stream(),
                r0 == old(self).spec_range(),
                source_model.wf(),
                n == source_model.spec_num_symbols(),
                w == r0.high - r0.low,
                0 <= s_star < n,
                symbol == s_star,
                symbol as int != source_model.spec_eof(),
                symbol_contains(*source_model, r0.low as int, w, fill.0, s_star),
                fill == (if !old(self).spec_started() {
                    spec_fill(
                        bits,
                        old(bit_source).position(),
                        old(self).spec_bits_left(),
                        old(self).spec_precision() as nat,
                        0,
                    )
                } else {
                    (
                        old(self).spec_buffer(),
                        old(bit_source).position(),
                        old(self).spec_bits_left(),
                        true,
                    )
                }),
                fill.3,
                fin == renorm_from(*source_model, r0, s_star, fill.0, fill.1, fill.2, bits),
                self.range.low <= self.input_buffer < self.range.high,
                dec_renorm(
                    DecState {
                        low: self.range.low as int,
                        high: self.range.high as int,
                        buf: self.input_buffer as int,
                        pos: bit_source.position(),
                        left: self.bits_left as int,
                        ok: true,
                    },
                    bits,
                    r0.half as int,
                    r0.one_quarter_mark as int,
                ) == fin,
            decreases 2 * self.range.half - (self.range.high - self.range.low),
        {
            let ghost before = DecState {
                low: self.range.low as int,
                high: self.range.high as int,
                buf: self.input_buffer as int,
                pos: bit_source.position(),
                left: self.bits_left as int,
                ok: true,
            };
            let ghost pp = bit_source.position();
            let ghost ll = self.bits_left as int;
            if self.range.in_bottom_half() {
                self.range.scale_bottom_half();
                let b: u64 = match self.bit(bit_source) {
                    Ok(b) => b,
                    Err(e) => {
                        proof {
                            let rr = spec_read(bits, pp, ll);
                            assert(!rr.3);
                            assert(fin == (DecState { pos: rr.1, left: rr.2, ok: false, ..before }));
                            assert(w == r0.high - r0.low);
                            assert(decode_failed_state(
                                *source_model,
                                r0,
                                fill.0,
                                fill.1,
                                fill.2,
                                bits,
                                bit_source.position() as int,
                                self.bits_left as int,
                            )) by {
                                assert(symbol_contains(
                                    *source_model,
                                    r0.low as int,
                                    r0.high - r0.low,
                                    fill.0,
                                    s_star,
                                ));
                                assert(!renorm_from(
                                    *source_model,
                                    r0,
                                    s_star,
                                    fill.0,
                                    fill.1,
                                    fill.2,
                                    bits,
                                ).ok);
                            }
                        }
                        return Err(e);
                    },
                };
                self.input_buffer = 2 * self.input_buffer + b;
            } else {
                self.range.scale_upper_half();
                let half: u64 = self.range.half();
                let b: u64 = match self.bit(bit_source) {
                    Ok(b) => b,
                    Err(e) => {
                        proof {
                            let rr = spec_read(bits, pp, ll);
                            assert(!rr.3);
                            assert(fin == (DecState { pos: rr.1, left: rr.2, ok: false, ..before }));
                            assert(w == r0.high - r0.low);
                            assert(decode_failed_state(
                                *source_model,
                                r0,
                                fill.0,
                                fill.1,
                                fill.2,
                                bits,
                                bit_source.position() as int,
                                self.bits_left as int,
                            )) by {
                                assert(symbol_contains(
                                    *source_model,
                                    r0.low as int,
                                    r0.high - r0.low,
                                    fill.0,
                                    s_star,
                                ));
                                assert(!renorm_from(
                                    *source_model,
                                    r0,
                                    s_star,
                                    fill.0,
                                    fill.1,
                                    fill.2,
                                    bits,
                                ).ok);
                            }
                        }
                        return Err(e);
                    },
                };
                self.input_buffer = 2 * (self.input_buffer - half) + b;
            }
            proof {
                assert(dec_renorm(
                    before,
                    bits,
                    r0.half as int,
                    r0.one_quarter_mark as int,
                ) == dec_renorm(
                    DecState {
                        low: self.range.low as int,
                        high: self.range.high as int,
                        buf: self.input_buffer as int,
                        pos: bit_source.position(),
                        left: self.bits_left as int,
                        ok: true,
                    },
                    bits,
                    r0.half as int,
                    r0.one_quarter_mark as int,
                ));
            }
        }
        while self.range.in_middle_half()
            invariant
                self.range.wf(),
                self.range.half == r0.half,
                self.range.one_quarter_mark == r0.one_quarter_mark,
                self.range.three_quarter_mark == r0.three_quarter_mark,
                self.precision == old(self).spec_precision(),
                8 <= self.precision < 64,
                self.started,
                self.finished == old(self).spec_finished(),
                bit_source.stream() == bits,
                !(self.range.high < self.range.half),
                !(self.range.low > self.range.half),
                bits == old(bit_source).stream(),
                r0 == old(self).spec_range(),
                source_model.wf(),
                n == source_model.spec_num_symbols(),
                w == r0.high - r0.low,
                0 <= s_star < n,
                symbol == s_star,
                symbol as int != source_model.spec_eof(),
                symbol_contains(*source_model, r0.low as int, w, fill.0, s_star),
                fill == (if !old(self).spec_started() {
                    spec_fill(
                        bits,
                        old(bit_source).position(),
                        old(self).spec_bits_left(),
                        old(self).spec_precision() as nat,
                        0,
                    )
                } else {
                    (
                        old(self).spec_buffer(),
                        old(bit_source).position(),
                        old(self).spec_bits_left(),
                        true,
                    )
                }),
                fill.3,
                fin == renorm_from(*source_model, r0, s_star, fill.0, fill.1, fill.2, bits),
                self.range.low <= self.input_buffer < self.range.high,
                dec_renorm(
                    DecState {
                        low: self.range.low as int,
                        high: self.range.high as int,
                        buf: self.input_buffer as int,
                        pos: bit_source.position(),
                        left: self.bits_left as int,
                        ok: true,
                    },
                    bits,
                    r0.half as int,
                    r0.one_quarter_mark as int,
                ) == fin,
            decreases 2 * self.range.half - (self.range.high - self.range.low),
        {
            let ghost before = DecState {
                low: self.range.low as int,
                high: self.range.high as int,
                buf: self.input_buffer as int,
                pos: bit_source.position(),
                left: self.bits_left as int,
                ok: true,
            };
            let ghost pp = bit_source.position();
            let ghost ll = self.bits_left as int;
            self.range.scale_middle_half();
            let quarter: u64 = self.range.quarter();
            let b: u64 = match self.bit(bit_source) {
                Ok(b) => b,
                Err(e) => {
                    proof {
                        let rr = spec_read(bits, pp, ll);
                        assert(!rr.3);
                        assert(fin == (DecState { pos: rr.1, left: rr.2, ok: false, ..before }));
                        assert(w == r0.high - r0.low);
                            assert(decode_failed_state(
                                *source_model,
                                r0,
                                fill.0,
                                fill.1,
                                fill.2,
                                bits,
                                bit_source.position() as int,
                                self.bits_left as int,
                            )) by {
                                assert(symbol_contains(
                                    *source_model,
                                    r0.low as int,
                                    r0.high - r0.low,
                                    fill.0,
                                    s_star,
                                ));
                                assert(!renorm_from(
                                    *source_model,
                                    r0,
                                    s_star,
                                    fill.0,
                                    fill.1,
                                    fill.2,
                                    bits,
                                ).ok);
                            }
                    }
                    return Err(e);
                },
            };
            self.input_buffer = 2 * (self.input_buffer - quarter) + b;
            proof {
                assert(dec_renorm(
                    before,
                    bits,
                    r0.half as int,
                    r0.one_quarter_mark as int,
                ) == dec_renorm(
                    DecState {
                        low: self.range.low as int,
                        high: self.range.high as int,
                        buf: self.input_buffer as int,
                        pos: bit_source.position(),
                        left: self.bits_left as int,
                        ok: true,
                    },
                    bits,
                    r0.half as int,
                    r0.one_quarter_mark as int,
                ));
            }
        }
        Ok(symbol)
    }

    pub fn set_finished(&mut self)
        ensures
            final(self).spec_finished(),
            final(self).spec_range() == old(self).spec_range(),
            final(self).spec_precision() == old(self).spec_precision(),
            final(self).spec_started() == old(self).spec_started(),
            final(self).spec_buffer() == old(self).spec_buffer(),
            final(self).spec_bits_left() == old(self).spec_bits_left(),
    {
        self.finished = true;
    }

    pub fn finished(&self) -> (r: bool)
        ensures
            r == self.spec_finished(),
    {
        self.finished
    }
}

/// A fill that starts from a nonnegative accumulator and succeeds lands in
/// the window the read bits span.
proof fn lemma_fill_bound(bits: Seq<bool>, pos: int, left: int, k: nat, acc: int)
    requires
        acc >= 0,
    ensures
        spec_fill(bits, pos, left, k, acc).3 ==> acc * pow2(k) <= spec_fill(
            bits,
            pos,
            left,
            k,
            acc,
        ).0 < (acc + 1) * pow2(k),
    decreases k,
{
    vstd::arithmetic::power2::lemma2_to64();
    if k > 0 {
        let rr = spec_read(bits, pos, left);
        if rr.3 {
            let b0 = rr.0;
            lemma_fill_bound(bits, rr.1, rr.2, (k - 1) as nat, 2 * acc + b0);
            assert(spec_fill(bits, pos, left, k, acc) == spec_fill(
                bits,
                rr.1,
                rr.2,
                (k - 1) as nat,
                2 * acc + b0,
            ));
            let p1 = pow2((k - 1) as nat) as int;
            let pk = pow2(k) as int;
            assert(pk == 2 * p1) by {
                vstd::arithmetic::power2::lemma_pow2_adds((k - 1) as nat, 1);
                vstd::arithmetic::power2::lemma2_to64();
            }
            assert(acc * pk <= (2 * acc + b0) * p1 && (2 * acc + b0 + 1) * p1 <= (acc + 1)
                * pk) by (nonlinear_arith)
                requires
                    pk == 2 * p1,
                    0 <= p1,
                    0 <= b0 <= 1,
                    0 <= acc,
            ;
        }
    } else {
        lemma_mul_basics(acc);
        lemma_mul_basics(acc + 1);
    }
}

} // verus!
