//! Builder for [`Model`]: symbols can be given as explicit counts, as a
//! symbol count, as a bit width, or as the binary case, and one symbol can be
//! designated as the in-band end-of-stream marker.

use vstd::arithmetic::power2::pow2;
use vstd::prelude::*;

use crate::fenwick;
use crate::fenwick::fenwick_valid;
use crate::fenwick::prefix_total;
use crate::fenwick::range_sum;
use crate::model::Model;

verus! {

/// How the end-of-stream symbol index is chosen.
#[derive(Clone, Copy, Debug)]
pub enum EOFKind {
    /// Choose a valid index as the EOF: `[0, counts.len())`.
    Specify(u32),
    /// Index 0.
    Start,
    /// Index `counts.len() - 1`.
    End,
    /// Adds an element to `counts` and sets EOF to the new `counts.len() - 1`.
    EndAddOne,
    /// Same as not specifying: sets the index to the sentinel value just
    /// outside the symbol range.
    NoEof,
}

/// Options in precedence order: explicit counts beat a bit width, which beats
/// a symbol count, which beats the binary default. After the counts are
/// settled the EOF policy is applied, then the Fenwick tree is populated and
/// the total computed.
pub struct SourceModelBuilder {
    pub counts: Option<Vec<u32>>,
    pub num_symbols: Option<u32>,
    pub num_bits: Option<u32>,
    pub eof: Option<EOFKind>,
    pub scale: Option<u32>,
    pub binary: bool,
}

impl SourceModelBuilder {
    pub open spec fn spec_new() -> SourceModelBuilder {
        SourceModelBuilder {
            counts: Option::None,
            num_symbols: Option::None,
            num_bits: Option::None,
            eof: Option::None,
            scale: Option::None,
            binary: false,
        }
    }

    /// The counts the settled options describe, before the EOF policy runs.
    pub open spec fn spec_base_counts(&self) -> Seq<u32> {
        match self.counts {
            Option::Some(v) => v@,
            Option::None => match self.num_bits {
                Option::Some(b) => Seq::new(pow2(b as nat), |i: int| 1u32),
                Option::None => match self.num_symbols {
                    Option::Some(n) => Seq::new(n as nat, |i: int| 1u32),
                    Option::None => seq![1u32, 1u32],
                },
            },
        }
    }

    /// The counts after the EOF policy has run: `EndAddOne` appends a count.
    pub open spec fn spec_final_counts(&self) -> Seq<u32> {
        match self.eof {
            Option::Some(EOFKind::EndAddOne) => self.spec_base_counts().push(1u32),
            _ => self.spec_base_counts(),
        }
    }

    /// The end-of-stream index the settled options describe, where a value
    /// equal to the number of symbols is the sentinel for "none".
    pub open spec fn spec_eof_index(&self) -> int {
        match self.eof {
            Option::None => self.spec_base_counts().len() as int,
            Option::Some(k) => match k {
                EOFKind::Specify(i) => i as int,
                EOFKind::Start => 0,
                EOFKind::End => self.spec_base_counts().len() - 1,
                EOFKind::EndAddOne => self.spec_base_counts().len() as int,
                EOFKind::NoEof => self.spec_base_counts().len() as int,
            },
        }
    }

    pub fn new() -> (r: Self)
        ensures
            r == Self::spec_new(),
    {
        SourceModelBuilder {
            counts: None,
            num_symbols: None,
            num_bits: None,
            eof: None,
            scale: None,
            binary: false,
        }
    }

    /// The number of symbols, each starting with a count of one.
    pub fn num_symbols(self, count: u32) -> (r: Self)
        ensures
            r == (SourceModelBuilder { num_symbols: Option::Some(count), ..self }),
    {
        SourceModelBuilder { num_symbols: Some(count), ..self }
    }

    /// Equivalent to `num_symbols(1 << size)`.
    pub fn num_bits(self, size: u32) -> (r: Self)
        ensures
            r == (SourceModelBuilder { num_bits: Option::Some(size), ..self }),
    {
        SourceModelBuilder { num_bits: Some(size), ..self }
    }

    /// Constructs the model from counts that are already present; the number
    /// of symbols is implied by the length of `counts`.
    pub fn counts(self, counts: Vec<u32>) -> (r: Self)
        ensures
            r == (SourceModelBuilder { counts: Option::Some(counts), ..self }),
    {
        SourceModelBuilder { counts: Some(counts), ..self }
    }

    /// Applies an EOF policy; see [`EOFKind`].
    pub fn eof(self, eof: EOFKind) -> (r: Self)
        ensures
            r == (SourceModelBuilder { eof: Option::Some(eof), ..self }),
    {
        SourceModelBuilder { eof: Some(eof), ..self }
    }

    /// Scale for a probability-distribution build; values below ten are
    /// raised to ten. Kept so that saved configurations keep their meaning;
    /// it has no effect on the count-based builds this library offers.
    pub fn scale(self, scale: u32) -> (r: Self)
        ensures
            r == (
            SourceModelBuilder {
                scale: Option::Some(
                    if scale < 10 {
                        10u32
                    } else {
                        scale
                    },
                ),
                ..self
            }),
    {
        let s: u32 = if scale < 10 {
            10
        } else {
            scale
        };
        SourceModelBuilder { scale: Some(s), ..self }
    }

    /// Constructs a model for coding zeros and ones.
    pub fn binary(self) -> (r: Self)
        ensures
            r == (SourceModelBuilder { binary: true, ..self }),
    {
        SourceModelBuilder { binary: true, ..self }
    }

    pub fn build(&self) -> (m: Model)
        requires
            1 <= self.spec_base_counts().len(),
            self.spec_final_counts().len() <= u32::MAX,
            prefix_total(self.spec_final_counts(), self.spec_final_counts().len() as int)
                <= u32::MAX,
            match self.counts {
                Option::Some(_) => true,
                Option::None => match self.num_bits {
                    Option::Some(b) => b < 32,
                    Option::None => true,
                },
            },
            match self.eof {
                Option::Some(EOFKind::Specify(i)) => (i as int) < self.spec_base_counts().len(),
                _ => true,
            },
        ensures
            m.wf(),
            m.spec_counts() == self.spec_final_counts(),
            m.spec_num_symbols() == self.spec_final_counts().len(),
            m.spec_eof() == self.spec_eof_index(),
            m.spec_total() == prefix_total(
                self.spec_final_counts(),
                self.spec_final_counts().len() as int,
            ),
    {
        let mut counts: Vec<u32> = match &self.counts {
            Some(v) => copy_counts(v),
            None => match self.num_bits {
                Some(b) => {
                    proof {
                        vstd::arithmetic::power2::lemma2_to64();
                        if b < 31 {
                            vstd::arithmetic::power2::lemma_pow2_strictly_increases(
                                b as nat,
                                31,
                            );
                        }
                    }
                    let len: usize = 1usize << b;
                    proof {
                        vstd::bits::lemma_usize_shl_is_mul(1usize, b as usize);
                    }
                    ones(len)
                },
                None => match self.num_symbols {
                    Some(n) => ones(n as usize),
                    None => {
                        let mut v: Vec<u32> = Vec::new();
                        v.push(1);
                        v.push(1);
                        proof {
                            assert(v@ =~= seq![1u32, 1u32]);
                        }
                        v
                    },
                },
            },
        };
        let eof: u32 = match &self.eof {
            None => counts.len() as u32,
            Some(kind) => match kind {
                EOFKind::Specify(index) => *index,
                EOFKind::Start => 0,
                EOFKind::End => counts.len() as u32 - 1,
                EOFKind::EndAddOne => {
                    counts.push(1);
                    counts.len() as u32 - 1
                },
                EOFKind::NoEof => counts.len() as u32,
            },
        };
        proof {
            assert(counts@ =~= self.spec_final_counts());
        }
        let n: usize = counts.len();
        let ghost c = counts@;
        let mut fenwick_counts: Vec<u32> = zeros(n);
        proof {
            assert forall|p: int| 0 <= p < n implies #[trigger] fenwick_counts@[p] == range_sum(
                masked(c, 0),
                fenwick::node_start((p + 1) as usize) as int,
                p + 1,
            ) by {
                fenwick::lemma_node_start_lt((p + 1) as usize);
                lemma_range_sum_masked(c, 0, fenwick::node_start((p + 1) as usize) as int, p + 1);
            }
        }
        let mut i: usize = 0;
        while i < n
            invariant
                n == c.len(),
                counts@ == c,
                fenwick_counts@.len() == n,
                i <= n,
                prefix_total(c, n as int) <= u32::MAX,
                fenwick_valid(fenwick_counts@, masked(c, i as int)),
            decreases n - i,
        {
            let ghost f = fenwick_counts@;
            let ghost ci = masked(c, i as int);
            proof {
                lemma_range_sum_masked(c, i as int, 0, n as int);
                fenwick::lemma_prefix_total_monotone(c, i as int + 1, n as int);
                assert forall|p: int| 0 <= p < f.len() implies #[trigger] f[p] + c[i as int]
                    <= u32::MAX by {
                    fenwick::lemma_node_start_lt((p + 1) as usize);
                    fenwick::lemma_range_sum_le_total(
                        ci,
                        fenwick::node_start((p + 1) as usize) as int,
                        p + 1,
                    );
                }
            }
            fenwick::update(&mut fenwick_counts, i, counts[i]);
            proof {
                fenwick::lemma_update_preserves_valid(f, fenwick_counts@, ci, i as int, c[i as int]);
                assert(ci.update(i as int, (ci[i as int] + c[i as int]) as u32) =~= masked(
                    c,
                    i as int + 1,
                ));
            }
            i += 1;
        }
        proof {
            assert(masked(c, n as int) =~= c);
        }
        let mut total: u32 = 0;
        let mut k: usize = 0;
        while k < n
            invariant
                n == c.len(),
                counts@ == c,
                k <= n,
                prefix_total(c, n as int) <= u32::MAX,
                total == prefix_total(c, k as int),
            decreases n - k,
        {
            proof {
                fenwick::lemma_prefix_total_monotone(c, k as int + 1, n as int);
            }
            total = total + counts[k];
            k += 1;
        }
        Model::from_values(counts, fenwick_counts, total, eof)
    }
}

/// `c` with everything at or after position `k` replaced by zero: the counts
/// that have been folded into the Fenwick tree so far.
spec fn masked(c: Seq<u32>, k: int) -> Seq<u32> {
    Seq::new(
        c.len(),
        |j: int|
            if j < k {
                c[j]
            } else {
                0u32
            },
    )
}

proof fn lemma_range_sum_masked(c: Seq<u32>, k: int, lo: int, hi: int)
    requires
        0 <= lo <= hi <= c.len(),
        0 <= k,
    ensures
        range_sum(masked(c, k), lo, hi) == if hi <= k {
            range_sum(c, lo, hi)
        } else if lo >= k {
            0
        } else {
            range_sum(c, lo, k)
        },
    decreases hi - lo,
{
    if lo < hi {
        lemma_range_sum_masked(c, k, lo, hi - 1);
    }
}

fn ones(n: usize) -> (r: Vec<u32>)
    ensures
        r@ == Seq::new(n as nat, |i: int| 1u32),
{
    let mut v: Vec<u32> = Vec::new();
    let mut i: usize = 0;
    while i < n
        invariant
            i <= n,
            v@ == Seq::new(i as nat, |j: int| 1u32),
        decreases n - i,
    {
        v.push(1);
        proof {
            assert(v@ =~= Seq::new((i + 1) as nat, |j: int| 1u32));
        }
        i += 1;
    }
    v
}

fn zeros(n: usize) -> (r: Vec<u32>)
    ensures
        r@.len() == n,
        forall|j: int| 0 <= j < n ==> r@[j] == 0u32,
    decreases n,
{
    let mut v: Vec<u32> = Vec::new();
    let mut i: usize = 0;
    while i < n
        invariant
            i <= n,
            v@.len() == i,
            forall|j: int| 0 <= j < i ==> v@[j] == 0u32,
        decreases n - i,
    {
        v.push(0);
        i += 1;
    }
    v
}

fn copy_counts(v: &Vec<u32>) -> (r: Vec<u32>)
    ensures
        r@ == v@,
{
    let mut out: Vec<u32> = Vec::new();
    let mut i: usize = 0;
    while i < v.len()
        invariant
            i <= v@.len(),
            out@ == v@.subrange(0, i as int),
        decreases v@.len() - i,
    {
        out.push(v[i]);
        proof {
            assert(out@ =~= v@.subrange(0, i as int + 1));
        }
        i += 1;
    }
    proof {
        assert(v@.subrange(0, v@.len() as int) =~= v@);
    }
    out
}

} // verus!
