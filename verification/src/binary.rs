//! A facade that codes a `w`-bit unsigned integer as `w` independent binary
//! submodels, one per bit position, most-significant bit first. The
//! submodels have no EOF symbol: an outer framing (a known count or an outer
//! EOF in a separate model) decides when to stop.

use vstd::arithmetic::power2::pow2;
use vstd::prelude::*;

use crate::bits::bit_val;
use crate::bits::bits_value;
use crate::bits::BitSink;
use crate::bits::BitSource;
use crate::decoder::spec_decode_step;
use crate::decoder::ArithmeticDecoder;
use crate::decoder::DecCoderState;
use crate::decoder::DecodeError;
use crate::encoder::enc_renorm;
use crate::encoder::ArithmeticEncoder;
use crate::encoder::EncState;
use crate::model::Model;

verus! {

/// A freshly built two-symbol model: both counts one, no in-band EOF.
pub open spec fn spec_fresh_binary(m: Model) -> bool {
    &&& m.wf()
    &&& m.spec_counts() == seq![1u32, 1u32]
    &&& m.spec_total() == 2
    &&& m.spec_eof() == 2
    &&& m.spec_num_symbols() == 2
}

/// The bit of `value` that position `i` of `len` codes (most significant
/// first).
pub open spec fn value_bit(value: u32, len: int, i: int) -> u32
    recommends
        0 <= i < len <= 32,
{
    (value >> ((len - i - 1) as u32)) & 1u32
}

/// How many bits are needed to write `v`: zero for zero.
pub open spec fn spec_bit_width(v: int) -> int
    decreases v,
{
    if v <= 0 {
        0
    } else {
        1 + spec_bit_width(v / 2)
    }
}

/// One step of the binary encoder: narrow `st` to the subinterval that model
/// `m` gives the bit, then renormalize.
pub open spec fn bc_encode_step(m: Model, st: EncState, half: int, quarter: int, bit: u32)
    -> EncState {
    let w = st.high - st.low;
    let t = m.spec_total();
    enc_renorm(
        EncState {
            low: st.low + w * m.spec_cum_low(bit as int) / t,
            high: st.low + w * m.spec_cum_high(bit as int) / t,
            pending: st.pending,
            bits: st.bits,
        },
        half,
        quarter,
    )
}

/// The encoder state after coding the first `i` bits of `value` against the
/// first `i` submodels, starting from `st`.
pub open spec fn bc_encode_upto(
    models: Seq<Model>,
    value: u32,
    i: int,
    st: EncState,
    half: int,
    quarter: int,
) -> EncState
    decreases i,
{
    if i <= 0 {
        st
    } else {
        bc_encode_step(
            models[i - 1],
            bc_encode_upto(models, value, i - 1, st, half, quarter),
            half,
            quarter,
            value_bit(value, models.len() as int, i - 1),
        )
    }
}

/// Every submodel took one more count, at the bit position its entry of
/// `bs` names.
pub open spec fn bc_models_updated(
    old_models: Seq<Model>,
    new_models: Seq<Model>,
    bs: Seq<bool>,
) -> bool {
    &&& new_models.len() == old_models.len()
    &&& bs.len() == old_models.len()
    &&& forall|i: int|
        0 <= i < old_models.len() ==> {
            let b = bit_val(bs[i]);
            let m0 = old_models[i];
            (#[trigger] new_models[i]).spec_counts() == m0.spec_counts().update(
                b,
                (m0.spec_count(b) + 1) as u32,
            ) && new_models[i].spec_total() == m0.spec_total() + 1 && new_models[i].spec_eof()
                == m0.spec_eof()
        }
}

/// The decoder state, the decoded bits and the success flag after running
/// the first `i` submodels, starting from `st`. A failed read freezes the
/// state.
pub open spec fn bc_decode_upto(
    models: Seq<Model>,
    i: int,
    st: DecCoderState,
    bits: Seq<bool>,
    half: int,
    quarter: int,
    precision: int,
) -> (DecCoderState, Seq<bool>, bool)
    decreases i,
{
    if i <= 0 {
        (st, Seq::<bool>::empty(), true)
    } else {
        let prev = bc_decode_upto(models, i - 1, st, bits, half, quarter, precision);
        if !prev.2 {
            (prev.0, prev.1, false)
        } else {
            let step = spec_decode_step(models[i - 1], prev.0, bits, half, quarter, precision);
            (step.0, prev.1.push(step.1 == 1), step.2)
        }
    }
}

/// What a successful `BinaryCoder::decode` returns and leaves behind: the
/// composed per-bit decoding succeeds, `v` is the value of the decoded bits,
/// the submodels adapted to exactly those bits, and the decoder and its
/// source stand where the composition says.
pub open spec fn bc_decode_ok(
    old_models: Seq<Model>,
    new_models: Seq<Model>,
    st0: DecCoderState,
    stf: DecCoderState,
    bits: Seq<bool>,
    half: int,
    quarter: int,
    precision: int,
    v: u32,
) -> bool {
    let comp = bc_decode_upto(
        old_models,
        old_models.len() as int,
        st0,
        bits,
        half,
        quarter,
        precision,
    );
    &&& comp.2
    &&& v == bits_value(comp.1)
    &&& bc_models_updated(old_models, new_models, comp.1)
    &&& stf == comp.0
}

/// Once a read has failed, the rest of the composition stays failed.
proof fn lemma_bc_decode_fail_propagates(
    models: Seq<Model>,
    i: int,
    k: int,
    st: DecCoderState,
    bits: Seq<bool>,
    half: int,
    quarter: int,
    precision: int,
)
    requires
        0 <= i <= k,
        !bc_decode_upto(models, i, st, bits, half, quarter, precision).2,
    ensures
        !bc_decode_upto(models, k, st, bits, half, quarter, precision).2,
    decreases k - i,
{
    if i < k {
        lemma_bc_decode_fail_propagates(models, i, k - 1, st, bits, half, quarter, precision);
    }
}

proof fn lemma_value_bit_le(value: u32, len: int, i: int)
    requires
        0 <= i < len <= 32,
    ensures
        value_bit(value, len, i) <= 1,
{
    let sh = (len - i - 1) as u32;
    assert((value >> sh) & 1u32 <= 1u32) by (bit_vector);
}

pub struct BinaryCoder {
    models: Vec<Model>,
}

impl BinaryCoder {
    pub closed spec fn spec_models(&self) -> Seq<Model> {
        self.models@
    }

    /// Every submodel is a well-formed two-symbol model with nonzero counts.
    pub open spec fn wf(&self) -> bool {
        &&& self.spec_models().len() <= 32
        &&& forall|i: int|
            0 <= i < self.spec_models().len() ==> (#[trigger] self.spec_models()[i]).wf()
                && self.spec_models()[i].spec_num_symbols() == 2 && self.spec_models()[i].spec_count(
                0,
            ) >= 1 && self.spec_models()[i].spec_count(1) >= 1
    }

    /// Enough submodels for every value up to `max_value`.
    pub fn new_from_max(max_value: u32) -> (r: Self)
        ensures
            r.wf(),
            r.spec_models().len() == spec_bit_width(max_value as int),
            forall|i: int|
                0 <= i < r.spec_models().len() ==> spec_fresh_binary(
                    #[trigger] r.spec_models()[i],
                ),
    {
        let mut width: u32 = 0;
        let mut x: u32 = max_value;
        proof {
            vstd::arithmetic::power2::lemma2_to64();
            vstd::arithmetic::power2::lemma2_to64_rest();
        }
        while x > 0
            invariant
                width <= 32,
                x < pow2((32 - width) as nat),
                spec_bit_width(max_value as int) == width + spec_bit_width(x as int),
            decreases x,
        {
            proof {
                vstd::arithmetic::power2::lemma_pow2_adds((31 - width) as nat, 1);
                vstd::arithmetic::power2::lemma2_to64();
            }
            x = x / 2;
            width = width + 1;
        }
        Self::new(width)
    }

    pub fn new(bit_width: u32) -> (r: Self)
        requires
            bit_width <= 32,
        ensures
            r.wf(),
            r.spec_models().len() == bit_width,
            forall|i: int|
                0 <= i < r.spec_models().len() ==> spec_fresh_binary(
                    #[trigger] r.spec_models()[i],
                ),
    {
        let mut models: Vec<Model> = Vec::new();
        let mut i: u32 = 0;
        while i < bit_width
            invariant
                i <= bit_width <= 32,
                models@.len() == i,
                forall|j: int| 0 <= j < i ==> spec_fresh_binary(#[trigger] models@[j]),
            decreases bit_width - i,
        {
            proof {
                let two = seq![1u32, 1u32];
                assert(crate::fenwick::range_sum(two, 0, 0) == 0);
                assert(crate::fenwick::range_sum(two, 0, 1) == 1);
                assert(crate::fenwick::range_sum(two, 0, 2) == 2);
            }
            let m = Model::builder().binary().build();
            models.push(m);
            i = i + 1;
        }
        BinaryCoder { models }
    }

    /// Restores a coder around previously built submodels; the caller
    /// supplies models that fit together.
    pub fn from_values(models: Vec<Model>) -> (r: Self)
        ensures
            r.spec_models() == models@,
    {
        BinaryCoder { models }
    }

    /// Codes the low `w` bits of `value` (where `w` is the number of
    /// submodels), most significant first, adapting each submodel after its
    /// bit; the emitted bits are exactly those of the composed
    /// renormalization cascades.
    pub fn encode(
        &mut self,
        encoder: &mut ArithmeticEncoder,
        output: &mut BitSink,
        value: u32,
    )
        requires
            old(self).wf(),
            old(encoder).wf(),
            old(encoder).spec_pending() <= 0x1000_0000_0000_0000,
            forall|i: int|
                0 <= i < old(self).spec_models().len() ==> (#[trigger] old(
                    self,
                ).spec_models()[i]).spec_total() < u32::MAX,
            forall|i: int|
                0 <= i < old(self).spec_models().len() ==> (#[trigger] old(
                    self,
                ).spec_models()[i]).spec_total() <= old(encoder).spec_range().one_quarter_mark,
        ensures
            final(self).wf(),
            final(encoder).wf(),
            final(encoder).spec_precision() == old(encoder).spec_precision(),
            final(encoder).spec_range().half == old(encoder).spec_range().half,
            final(encoder).spec_range().one_quarter_mark == old(
                encoder,
            ).spec_range().one_quarter_mark,
            final(encoder).spec_pending() <= old(encoder).spec_pending() + 1984,
            final(self).spec_models().len() == old(self).spec_models().len(),
            forall|i: int|
                0 <= i < old(self).spec_models().len() ==> {
                    let b = value_bit(value, old(self).spec_models().len() as int, i);
                    let m0 = old(self).spec_models()[i];
                    (#[trigger] final(self).spec_models()[i]).spec_counts() == m0.spec_counts().update(
                        b as int,
                        (m0.spec_count(b as int) + 1) as u32,
                    ) && final(self).spec_models()[i].spec_total() == m0.spec_total() + 1 && final(self).spec_models()[i].spec_eof() == m0.spec_eof()
                },
            ({
                let fin = bc_encode_upto(
                    old(self).spec_models(),
                    value,
                    old(self).spec_models().len() as int,
                    EncState {
                        low: old(encoder).spec_range().low as int,
                        high: old(encoder).spec_range().high as int,
                        pending: old(encoder).spec_pending(),
                        bits: old(output)@,
                    },
                    old(encoder).spec_range().half as int,
                    old(encoder).spec_range().one_quarter_mark as int,
                );
                &&& final(encoder).spec_range().low == fin.low
                &&& final(encoder).spec_range().high == fin.high
                &&& final(encoder).spec_pending() == fin.pending
                &&& final(output)@ == fin.bits
            }),
    {
        let ghost models0 = self.models@;
        let ghost init = EncState {
            low: encoder.spec_range().low as int,
            high: encoder.spec_range().high as int,
            pending: encoder.spec_pending(),
            bits: output@,
        };
        let ghost half = encoder.spec_range().half as int;
        let ghost quarter = encoder.spec_range().one_quarter_mark as int;
        let len: usize = self.models.len();
        let mut i: usize = 0;
        while i < len
            invariant
                len == models0.len() <= 32,
                i <= len,
                self.models@.len() == len,
                old(self).spec_models() == models0,
                forall|j: int| i <= j < len ==> #[trigger] self.models@[j] == models0[j],
                forall|j: int|
                    0 <= j < i ==> {
                        let b = value_bit(value, len as int, j);
                        let m0 = models0[j];
                        (#[trigger] self.models@[j]).spec_counts() == m0.spec_counts().update(
                            b as int,
                            (m0.spec_count(b as int) + 1) as u32,
                        ) && self.models@[j].spec_total() == m0.spec_total() + 1
                            && self.models@[j].spec_eof() == m0.spec_eof()
                            && self.models@[j].spec_num_symbols() == m0.spec_num_symbols()
                            && self.models@[j].wf()
                    },
                forall|j: int|
                    0 <= j < len ==> (#[trigger] models0[j]).wf() && models0[j].spec_num_symbols()
                        == 2 && models0[j].spec_count(0) >= 1 && models0[j].spec_count(1) >= 1
                        && models0[j].spec_total() < u32::MAX && models0[j].spec_total() <= old(
                        encoder,
                    ).spec_range().one_quarter_mark,
                encoder.wf(),
                encoder.spec_precision() == old(encoder).spec_precision(),
                encoder.spec_range().half == old(encoder).spec_range().half,
                encoder.spec_range().one_quarter_mark == old(encoder).spec_range().one_quarter_mark,
                half == old(encoder).spec_range().half as int,
                quarter == old(encoder).spec_range().one_quarter_mark as int,
                old(encoder).spec_pending() <= 0x1000_0000_0000_0000,
                encoder.spec_pending() <= old(encoder).spec_pending() + 62 * i,
                init.pending == old(encoder).spec_pending(),
                bc_encode_upto(models0, value, i as int, init, half, quarter) == (EncState {
                    low: encoder.spec_range().low as int,
                    high: encoder.spec_range().high as int,
                    pending: encoder.spec_pending(),
                    bits: output@,
                }),
            decreases len - i,
        {
            let shift: u32 = (len - i - 1) as u32;
            let symbol: u32 = (value >> shift) & 1;
            proof {
                assert(symbol == value_bit(value, len as int, i as int));
                assert((value >> shift) & 1u32 <= 1u32) by (bit_vector);
            }
            let ghost before_models = self.models@;
            let m = self.models.remove(i);
            proof {
                let two = m.spec_counts();
                assert(crate::fenwick::range_sum(two, 0, 0) == 0);
                assert(crate::fenwick::range_sum(two, 0, 1) == two[0]);
                assert(crate::fenwick::range_sum(two, 0, 2) == two[0] + two[1]);
                crate::model::lemma_count_le_total(two, symbol as int);
            }
            encoder.encode(symbol, &m, output);
            let mut m2 = m;
            m2.update_symbol(symbol);
            self.models.insert(i, m2);
            proof {
                assert(self.models@ =~= before_models.update(i as int, m2));
                assert(bc_encode_upto(models0, value, i as int + 1, init, half, quarter)
                    == bc_encode_step(
                    models0[i as int],
                    bc_encode_upto(models0, value, i as int, init, half, quarter),
                    half,
                    quarter,
                    value_bit(value, len as int, i as int),
                ));
            }
            i = i + 1;
        }
        proof {
            assert forall|j: int| 0 <= j < len implies (#[trigger] self.models@[j]).spec_count(0)
                >= 1 && self.models@[j].spec_count(1) >= 1 by {
                lemma_value_bit_le(value, len as int, j);
                crate::model::lemma_count_le_total(
                    models0[j].spec_counts(),
                    value_bit(value, len as int, j) as int,
                );
            }
        }
    }

    /// Decodes one bit per submodel, most significant first, adapting each
    /// submodel after its bit, and returns the assembled value.
    pub fn decode(&mut self, decoder: &mut ArithmeticDecoder, input: &mut BitSource) -> (r:
        Result<u32, DecodeError>)
        requires
            old(self).wf(),
            old(decoder).wf(),
            forall|i: int|
                0 <= i < old(self).spec_models().len() ==> (#[trigger] old(
                    self,
                ).spec_models()[i]).spec_total() < u32::MAX,
        ensures
            final(input).stream() == old(input).stream(),
            final(decoder).spec_precision() == old(decoder).spec_precision(),
            final(decoder).spec_range().half == old(decoder).spec_range().half,
            final(decoder).spec_range().one_quarter_mark == old(
                decoder,
            ).spec_range().one_quarter_mark,
            ({
                let st0 = (DecCoderState {
                    low: old(decoder).spec_range().low as int,
                    high: old(decoder).spec_range().high as int,
                    buf: old(decoder).spec_buffer(),
                    pos: old(input).position(),
                    left: old(decoder).spec_bits_left(),
                    started: old(decoder).spec_started(),
                });
                let bits = old(input).stream();
                let half = old(decoder).spec_range().half as int;
                let quarter = old(decoder).spec_range().one_quarter_mark as int;
                let precision = old(decoder).spec_precision();
                match r {
                    Result::Ok(v) => {
                        &&& final(self).wf()
                        &&& final(decoder).wf()
                        &&& final(self).spec_models().len() == old(self).spec_models().len()
                        &&& v < pow2(old(self).spec_models().len() as nat)
                        &&& bc_decode_ok(
                            old(self).spec_models(),
                            final(self).spec_models(),
                            st0,
                            (DecCoderState {
                                low: final(decoder).spec_range().low as int,
                                high: final(decoder).spec_range().high as int,
                                buf: final(decoder).spec_buffer(),
                                pos: final(input).position(),
                                left: final(decoder).spec_bits_left(),
                                started: final(decoder).spec_started(),
                            }),
                            bits,
                            half,
                            quarter,
                            precision,
                            v,
                        )
                    },
                    Result::Err(e) => {
                        &&& e == DecodeError::UnexpectedEof
                        &&& !bc_decode_upto(
                            old(self).spec_models(),
                            old(self).spec_models().len() as int,
                            st0,
                            bits,
                            half,
                            quarter,
                            precision,
                        ).2
                    },
                }
            }),
    {
        let ghost models0 = self.models@;
        let ghost st0 = DecCoderState {
            low: decoder.spec_range().low as int,
            high: decoder.spec_range().high as int,
            buf: decoder.spec_buffer(),
            pos: input.position(),
            left: decoder.spec_bits_left(),
            started: decoder.spec_started(),
        };
        let ghost bits = input.stream();
        let ghost half = decoder.spec_range().half as int;
        let ghost quarter = decoder.spec_range().one_quarter_mark as int;
        let ghost precision = decoder.spec_precision();
        let len: usize = self.models.len();
        let mut value: u32 = 0;
        let ghost mut bs: Seq<bool> = Seq::<bool>::empty();
        proof {
            vstd::arithmetic::power2::lemma2_to64();
        }
        let mut i: usize = 0;
        while i < len
            invariant
                len == models0.len() <= 32,
                i <= len,
                self.models@.len() == len,
                old(self).spec_models() == models0,
                input.stream() == old(input).stream(),
                decoder.wf(),
                decoder.spec_precision() == old(decoder).spec_precision(),
                decoder.spec_range().half == old(decoder).spec_range().half,
                decoder.spec_range().one_quarter_mark == old(
                    decoder,
                ).spec_range().one_quarter_mark,
                forall|j: int| i <= j < len ==> #[trigger] self.models@[j] == models0[j],
                forall|j: int|
                    0 <= j < len ==> (#[trigger] models0[j]).wf() && models0[j].spec_num_symbols()
                        == 2 && models0[j].spec_count(0) >= 1 && models0[j].spec_count(1) >= 1
                        && models0[j].spec_total() < u32::MAX,
                bs.len() == i,
                value == bits_value(bs),
                value < pow2(i as nat),
                forall|j: int|
                    0 <= j < i ==> {
                        let b = bit_val(bs[j]);
                        let m0 = models0[j];
                        (#[trigger] self.models@[j]).spec_counts() == m0.spec_counts().update(
                            b,
                            (m0.spec_count(b) + 1) as u32,
                        ) && self.models@[j].spec_total() == m0.spec_total() + 1
                            && self.models@[j].spec_eof() == m0.spec_eof()
                            && self.models@[j].spec_num_symbols() == m0.spec_num_symbols()
                            && self.models@[j].wf()
                    },
                st0 == (DecCoderState {
                    low: old(decoder).spec_range().low as int,
                    high: old(decoder).spec_range().high as int,
                    buf: old(decoder).spec_buffer(),
                    pos: old(input).position(),
                    left: old(decoder).spec_bits_left(),
                    started: old(decoder).spec_started(),
                }),
                bits == old(input).stream(),
                half == old(decoder).spec_range().half as int,
                quarter == old(decoder).spec_range().one_quarter_mark as int,
                precision == old(decoder).spec_precision(),
                ({
                    let c = bc_decode_upto(models0, i as int, st0, bits, half, quarter, precision);
                    c.2 && c.1 == bs && c.0 == (DecCoderState {
                        low: decoder.spec_range().low as int,
                        high: decoder.spec_range().high as int,
                        buf: decoder.spec_buffer(),
                        pos: input.position(),
                        left: decoder.spec_bits_left(),
                        started: decoder.spec_started(),
                    })
                }),
            decreases len - i,
        {
            proof {
                vstd::arithmetic::power2::lemma_pow2_adds(i as nat, 1);
                vstd::arithmetic::power2::lemma2_to64();
                if i + 1 < 32 {
                    vstd::arithmetic::power2::lemma_pow2_strictly_increases((i + 1) as nat, 32);
                }
                vstd::arithmetic::power2::lemma2_to64_rest();
            }
            let ghost before_models = self.models@;
            let mut m = self.models.remove(i);
            proof {
                let two = m.spec_counts();
                assert(crate::fenwick::range_sum(two, 0, 0) == 0);
                assert(crate::fenwick::range_sum(two, 0, 1) == two[0]);
                assert(crate::fenwick::range_sum(two, 0, 2) == two[0] + two[1]);
                crate::model::lemma_count_le_total(two, 0);
                crate::model::lemma_count_le_total(two, 1);
            }
            let ghost rng = decoder.spec_range();
            let ghost stc = DecCoderState {
                low: decoder.spec_range().low as int,
                high: decoder.spec_range().high as int,
                buf: decoder.spec_buffer(),
                pos: input.position(),
                left: decoder.spec_bits_left(),
                started: decoder.spec_started(),
            };
            let sym: u32 = match decoder.decode(&m, input) {
                Ok(s) => s,
                Err(e) => {
                    proof {
                        let step = spec_decode_step(
                            models0[i as int],
                            stc,
                            bits,
                            half,
                            quarter,
                            precision,
                        );
                        let fillv = if !stc.started {
                            crate::decoder::spec_fill(
                                bits,
                                stc.pos,
                                stc.left,
                                precision as nat,
                                0,
                            )
                        } else {
                            (stc.buf, stc.pos, stc.left, true)
                        };
                        let w0 = stc.high - stc.low;
                        if fillv.3 {
                            let cs = crate::decoder::contained_symbol(
                                models0[i as int],
                                stc.low,
                                w0,
                                fillv.0,
                            );
                            let wsym = choose|sy: int|
                                (#[trigger] crate::decoder::symbol_contains(
                                    models0[i as int],
                                    rng.low as int,
                                    rng.high - rng.low,
                                    fillv.0,
                                    sy,
                                )) && 0 <= sy < models0[i as int].spec_num_symbols() && sy
                                    != models0[i as int].spec_eof() && !crate::decoder::renorm_from(
                                    models0[i as int],
                                    rng,
                                    sy,
                                    fillv.0,
                                    fillv.1,
                                    fillv.2,
                                    bits,
                                ).ok;
                            assert(crate::decoder::symbol_contains(
                                models0[i as int],
                                stc.low,
                                w0,
                                fillv.0,
                                wsym,
                            ) && !crate::decoder::renorm_from(
                                models0[i as int],
                                rng,
                                wsym,
                                fillv.0,
                                fillv.1,
                                fillv.2,
                                bits,
                            ).ok);
                            crate::decoder::lemma_symbol_unique(
                                models0[i as int],
                                stc.low,
                                w0,
                                fillv.0,
                                cs,
                                wsym,
                            );
                            assert(!step.2);
                        } else {
                            assert(!step.2);
                        }
                        assert(!bc_decode_upto(
                            models0,
                            i as int + 1,
                            st0,
                            bits,
                            half,
                            quarter,
                            precision,
                        ).2);
                        lemma_bc_decode_fail_propagates(
                            models0,
                            i as int + 1,
                            len as int,
                            st0,
                            bits,
                            half,
                            quarter,
                            precision,
                        );
                    }
                    return Err(e);
                },
            };
            proof {
                let step = spec_decode_step(
                    models0[i as int],
                    stc,
                    bits,
                    half,
                    quarter,
                    precision,
                );
                let fillv = if !stc.started {
                    crate::decoder::spec_fill(bits, stc.pos, stc.left, precision as nat, 0)
                } else {
                    (stc.buf, stc.pos, stc.left, true)
                };
                let w0 = stc.high - stc.low;
                let cs = crate::decoder::contained_symbol(
                    models0[i as int],
                    stc.low,
                    w0,
                    fillv.0,
                );
                assert(crate::decoder::symbol_contains(
                    models0[i as int],
                    stc.low,
                    w0,
                    fillv.0,
                    sym as int,
                ));
                assert(0 <= cs < models0[i as int].spec_num_symbols()
                    && crate::decoder::symbol_contains(
                    models0[i as int],
                    stc.low,
                    w0,
                    fillv.0,
                    cs,
                ));
                crate::decoder::lemma_symbol_unique(
                    models0[i as int],
                    stc.low,
                    w0,
                    fillv.0,
                    cs,
                    sym as int,
                );
                assert(step.1 == sym as int);
                assert(step.2);
                assert(bc_decode_upto(models0, i as int + 1, st0, bits, half, quarter, precision)
                    == (step.0, bs.push(sym == 1), step.2));
            }
            m.update_symbol(sym);
            self.models.insert(i, m);
            proof {
                assert(self.models@ =~= before_models.update(i as int, m));
                crate::bits::lemma_bits_value_push(bs, sym == 1);
            }
            value = value * 2 + sym;
            proof {
                bs = bs.push(sym == 1);
                assert(bit_val(bs[i as int]) == sym as int);
            }
            i = i + 1;
        }
        proof {
            assert(value < pow2(len as nat));
            assert(bc_models_updated(models0, self.models@, bs));
            assert forall|j: int| 0 <= j < len implies (#[trigger] self.models@[j]).spec_count(0)
                >= 1 && self.models@[j].spec_count(1) >= 1 by {
                crate::model::lemma_count_le_total(models0[j].spec_counts(), bit_val(bs[j]));
            }
            assert(bc_decode_ok(
                models0,
                self.models@,
                st0,
                (DecCoderState {
                    low: decoder.spec_range().low as int,
                    high: decoder.spec_range().high as int,
                    buf: decoder.spec_buffer(),
                    pos: input.position(),
                    left: decoder.spec_bits_left(),
                    started: decoder.spec_started(),
                }),
                bits,
                half,
                quarter,
                precision,
                value,
            ));
        }
        Ok(value)
    }

    pub fn models(&self) -> (r: &Vec<Model>)
        ensures
            r@ == self.spec_models(),
    {
        &self.models
    }
}

} // verus!
