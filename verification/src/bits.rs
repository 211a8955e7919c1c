//! In-memory bit sink and bit source with most-significant-bit-first byte
//! packing: the first bit written occupies bit 7 of the first byte.

use vstd::prelude::*;

verus! {

/// A bit as the integer 0 or 1.
pub open spec fn bit_val(b: bool) -> int {
    if b {
        1
    } else {
        0
    }
}

/// The unsigned value of a bit string read most-significant bit first.
pub open spec fn bits_value(s: Seq<bool>) -> int
    decreases s.len(),
{
    if s.len() == 0 {
        0
    } else {
        2 * bits_value(s.drop_last()) + bit_val(s.last())
    }
}

pub proof fn lemma_bits_value_push(s: Seq<bool>, b: bool)
    ensures
        bits_value(s.push(b)) == 2 * bits_value(s) + bit_val(b),
{
    assert(s.push(b).drop_last() =~= s);
}

pub proof fn lemma_bits_value_bound(s: Seq<bool>)
    ensures
        0 <= bits_value(s) < vstd::arithmetic::power2::pow2(s.len()),
    decreases s.len(),
{
    if s.len() == 0 {
        vstd::arithmetic::power2::lemma2_to64();
    } else {
        vstd::arithmetic::power2::lemma_pow2_unfold(s.len());
        lemma_bits_value_bound(s.drop_last());
    }
}

/// Collects the bits emitted by the encoder; packs them into bytes on demand.
pub struct BitSink {
    bits: Vec<bool>,
}

impl View for BitSink {
    type V = Seq<bool>;

    closed spec fn view(&self) -> Seq<bool> {
        self.bits@
    }
}

impl BitSink {
    pub fn new() -> (r: Self)
        ensures
            r@ == Seq::<bool>::empty(),
    {
        BitSink { bits: Vec::new() }
    }

    pub fn write_bit(&mut self, bit: bool)
        ensures
            final(self)@ == old(self)@.push(bit),
    {
        self.bits.push(bit);
    }

    pub fn len(&self) -> (n: usize)
        ensures
            n == self@.len(),
    {
        self.bits.len()
    }

    /// Appends zero bits until the number of bits is a multiple of eight.
    pub fn pad_to_byte(&mut self)
        ensures
            final(self)@.len() % 8 == 0,
            old(self)@.len() <= final(self)@.len() < old(self)@.len() + 8,
            forall|i: int| 0 <= i < old(self)@.len() ==> final(self)@[i] == old(self)@[i],
            forall|i: int|
                old(self)@.len() <= i < final(self)@.len() ==> final(self)@[i] == false,
    {
        let r: usize = self.bits.len() % 8;
        if r != 0 {
            let mut c: usize = 8 - r;
            while c > 0
                invariant
                    r == old(self)@.len() % 8,
                    0 < r < 8,
                    c <= 8 - r,
                    self.bits@.len() == old(self)@.len() + (8 - r - c),
                    forall|i: int| 0 <= i < old(self)@.len() ==> self.bits@[i] == old(self)@[i],
                    forall|i: int|
                        old(self)@.len() <= i < self.bits@.len() ==> self.bits@[i] == false,
                decreases c,
            {
                self.bits.push(false);
                c -= 1;
            }
        }
    }

    /// Packs the collected bits into bytes, most-significant bit first.
    pub fn to_bytes(&self) -> (r: Vec<u8>)
        requires
            self@.len() % 8 == 0,
        ensures
            r@.len() == self@.len() / 8,
            forall|k: int|
                0 <= k < r@.len() ==> r@[k] == bits_value(
                    #[trigger] self@.subrange(8 * k, 8 * k + 8),
                ),
    {
        let mut out: Vec<u8> = Vec::new();
        let total: usize = self.bits.len();
        let mut k: usize = 0;
        while k < total / 8
            invariant
                self@.len() % 8 == 0,
                total == self@.len(),
                k <= total / 8,
                out@.len() == k,
                forall|kk: int|
                    0 <= kk < k ==> out@[kk] == bits_value(
                        #[trigger] self@.subrange(8 * kk, 8 * kk + 8),
                    ),
            decreases total / 8 - k,
        {
            let mut acc: u8 = 0;
            let mut j: usize = 0;
            proof {
                vstd::arithmetic::power2::lemma2_to64();
                assert(self@.subrange(8 * k as int, 8 * k as int) =~= Seq::<bool>::empty());
            }
            while j < 8
                invariant
                    k < total / 8,
                    total == self@.len(),
                    total % 8 == 0,
                    j <= 8,
                    acc == bits_value(self@.subrange(8 * k as int, 8 * k + j)),
                    0 <= acc < vstd::arithmetic::power2::pow2(j as nat),
                decreases 8 - j,
            {
                proof {
                    if j < 7 {
                        vstd::arithmetic::power2::lemma_pow2_strictly_increases(j as nat, 7);
                    }
                    vstd::arithmetic::power2::lemma2_to64();
                }
                let b = self.bits[8 * k + j];
                proof {
                    let pre = self@.subrange(8 * k as int, 8 * k + j);
                    let post = self@.subrange(8 * k as int, 8 * k + j + 1);
                    assert(post =~= pre.push(self@[8 * k + j]));
                    lemma_bits_value_push(pre, self@[8 * k + j]);
                    vstd::arithmetic::power2::lemma_pow2_unfold((j + 1) as nat);
                }
                acc = 2 * acc + if b {
                    1
                } else {
                    0
                };
                j += 1;
            }
            out.push(acc);
            k += 1;
        }
        out
    }
}

/// Supplies the bits consumed by the decoder, in the order they were written.
pub struct BitSource {
    bits: Vec<bool>,
    pos: usize,
}

impl BitSource {
    /// The whole underlying bit string.
    pub closed spec fn stream(&self) -> Seq<bool> {
        self.bits@
    }

    /// How many bits have been read so far.
    pub closed spec fn position(&self) -> int {
        self.pos as int
    }

    pub fn from_bytes(bytes: &Vec<u8>) -> (r: Self)
        ensures
            r.stream().len() == 8 * bytes@.len(),
            forall|k: int|
                0 <= k < bytes@.len() ==> bits_value(
                    #[trigger] r.stream().subrange(8 * k, 8 * k + 8),
                ) == bytes@[k],
            r.position() == 0,
    {
        let mut bits: Vec<bool> = Vec::new();
        let mut k: usize = 0;
        while k < bytes.len()
            invariant
                k <= bytes@.len(),
                bits@.len() == 8 * k,
                forall|kk: int|
                    0 <= kk < k ==> bits_value(#[trigger] bits@.subrange(8 * kk, 8 * kk + 8))
                        == bytes@[kk],
            decreases bytes@.len() - k,
        {
            let b = bytes[k];
            let ghost bits_before = bits@;
            let mut j: usize = 0;
            proof {
                assert(b >> 8u8 == 0) by (bit_vector);
                assert(bits@.subrange(bits_before.len() as int, bits@.len() as int)
                    =~= Seq::<bool>::empty());
            }
            while j < 8
                invariant
                    j <= 8,
                    k < bytes@.len(),
                    b == bytes@[k as int],
                    bits@.len() == bits_before.len() + j,
                    bits@.subrange(0, bits_before.len() as int) =~= bits_before,
                    bits_value(bits@.subrange(bits_before.len() as int, bits@.len() as int))
                        == b >> ((8 - j) as u8),
                decreases 8 - j,
            {
                let bit = (b >> ((7 - j) as u8)) & 1u8 == 1u8;
                proof {
                    let pre = bits@.subrange(bits_before.len() as int, bits@.len() as int);
                    let post = bits@.push(bit).subrange(
                        bits_before.len() as int,
                        bits@.len() as int + 1,
                    );
                    assert(post =~= pre.push(bit));
                    lemma_bits_value_push(pre, bit);
                    let jj = j as u8;
                    assert((b >> ((7 - jj) as u8)) == 2 * (b >> ((8 - jj) as u8)) + (
                    if ((b >> ((7 - jj) as u8)) & 1u8 == 1u8) {
                        1u8
                    } else {
                        0u8
                    }) && (b >> ((7 - jj) as u8)) <= 255) by (bit_vector)
                        requires
                            jj < 8,
                    ;
                    assert(bits@.push(bit).subrange(0, bits_before.len() as int)
                        =~= bits@.subrange(0, bits_before.len() as int));
                }
                bits.push(bit);
                j += 1;
            }
            proof {
                let bb = b;
                assert(bb >> 0u8 == bb) by (bit_vector);
                assert(bits@.subrange(8 * k as int, 8 * k + 8) =~= bits@.subrange(
                    bits_before.len() as int,
                    bits@.len() as int,
                ));
                assert(forall|kk: int|
                    0 <= kk < k ==> #[trigger] bits@.subrange(8 * kk, 8 * kk + 8)
                        =~= bits_before.subrange(8 * kk, 8 * kk + 8));
            }
            k += 1;
        }
        BitSource { bits, pos: 0 }
    }

    /// Reads the next bit, or reports that the stream is exhausted.
    pub fn read_bit(&mut self) -> (r: Option<bool>)
        ensures
            final(self).stream() == old(self).stream(),
            if old(self).position() < old(self).stream().len() {
                r == Some(old(self).stream()[old(self).position()])
                    && final(self).position() == old(self).position() + 1
            } else {
                r == Option::<bool>::None && final(self).position() == old(self).position()
            },
    {
        if self.pos < self.bits.len() {
            let b = self.bits[self.pos];
            self.pos += 1;
            Some(b)
        } else {
            None
        }
    }
}

} // verus!
