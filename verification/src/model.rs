//! The adaptive symbol model: a table of per-symbol occurrence counts whose
//! cumulative sums are maintained in a Fenwick tree, so that both the
//! cumulative-probability query and the per-symbol count update take
//! logarithmic time.

use vstd::prelude::*;

use crate::builder::SourceModelBuilder;
use crate::fenwick;
use crate::fenwick::chain_sum;
use crate::fenwick::fenwick_valid;
use crate::fenwick::prefix_total;
use crate::fenwick::range_sum;

verus! {

/// Symbol table for the encoder/decoder. Stores the probabilities as a vector
/// of counts (number of occurrences); `fenwick_counts` carries the same data
/// in binary-indexed form for fast prefix sums.
pub struct Model {
    counts: Vec<u32>,
    fenwick_counts: Vec<u32>,
    total_count: u32,
    eof: u32,
    num_symbols: u32,
}

impl Model {
    pub closed spec fn spec_counts(&self) -> Seq<u32> {
        self.counts@
    }

    pub closed spec fn spec_fenwick(&self) -> Seq<u32> {
        self.fenwick_counts@
    }

    pub closed spec fn spec_total(&self) -> int {
        self.total_count as int
    }

    pub closed spec fn spec_eof(&self) -> int {
        self.eof as int
    }

    pub closed spec fn spec_num_symbols(&self) -> int {
        self.num_symbols as int
    }

    /// The count of one symbol.
    pub open spec fn spec_count(&self, s: int) -> int {
        self.spec_counts()[s] as int
    }

    /// The lower end of the symbol's cumulative range, scaled by the total:
    /// the sum of the counts of all smaller symbols.
    pub open spec fn spec_cum_low(&self, s: int) -> int {
        prefix_total(self.spec_counts(), s)
    }

    /// The upper end of the symbol's cumulative range, scaled by the total.
    pub open spec fn spec_cum_high(&self, s: int) -> int {
        prefix_total(self.spec_counts(), s + 1)
    }

    /// Internal consistency: the Fenwick tree represents the counts, the
    /// total is their sum, and the end-of-stream index is in range (where
    /// `num_symbols` itself is the sentinel for "no in-band EOF").
    pub open spec fn wf(&self) -> bool {
        &&& self.spec_counts().len() == self.spec_num_symbols()
        &&& 1 <= self.spec_num_symbols() <= u32::MAX
        &&& fenwick_valid(self.spec_fenwick(), self.spec_counts())
        &&& self.spec_total() == prefix_total(self.spec_counts(), self.spec_num_symbols())
        &&& 0 <= self.spec_eof() <= self.spec_num_symbols()
    }

    pub fn builder() -> (r: SourceModelBuilder)
        ensures
            r == SourceModelBuilder::spec_new(),
    {
        SourceModelBuilder::new()
    }

    /// For loading a saved model; the caller supplies a consistent snapshot.
    /// Use the [`SourceModelBuilder`] for more options.
    pub fn from_values(counts: Vec<u32>, fenwick_counts: Vec<u32>, total_count: u32, eof: u32) -> (
        r: Self
    )
        requires
            1 <= counts@.len() <= u32::MAX,
            fenwick_valid(fenwick_counts@, counts@),
            total_count == prefix_total(counts@, counts@.len() as int),
            eof <= counts@.len(),
        ensures
            r.wf(),
            r.spec_counts() == counts@,
            r.spec_fenwick() == fenwick_counts@,
            r.spec_total() == total_count,
            r.spec_eof() == eof,
            r.spec_num_symbols() == counts@.len(),
    {
        let num_symbols: u32 = counts.len() as u32;
        Model { num_symbols, counts, fenwick_counts, total_count, eof }
    }

    /// Records one more occurrence of `symbol`.
    pub fn update_symbol(&mut self, symbol: u32)
        requires
            old(self).wf(),
            symbol < old(self).spec_num_symbols(),
            old(self).spec_total() < u32::MAX,
        ensures
            final(self).wf(),
            final(self).spec_counts() == old(self).spec_counts().update(
                symbol as int,
                (old(self).spec_count(symbol as int) + 1) as u32,
            ),
            final(self).spec_total() == old(self).spec_total() + 1,
            final(self).spec_eof() == old(self).spec_eof(),
            final(self).spec_num_symbols() == old(self).spec_num_symbols(),
    {
        let ghost c = self.counts@;
        let ghost f = self.fenwick_counts@;
        let s = symbol as usize;
        proof {
            lemma_count_le_total(c, symbol as int);
            assert forall|p: int| 0 <= p < f.len() implies #[trigger] f[p] + 1u32 <= u32::MAX by {
                fenwick::lemma_node_start_lt((p + 1) as usize);
                fenwick::lemma_range_sum_le_total(
                    c,
                    fenwick::node_start((p + 1) as usize) as int,
                    p + 1,
                );
            }
        }
        self.total_count = self.total_count + 1;
        let v: u32 = self.counts[s];
        self.counts.set(s, v + 1);
        fenwick::update(&mut self.fenwick_counts, s, 1);
        proof {
            fenwick::lemma_update_preserves_valid(f, self.fenwick_counts@, c, s as int, 1);
            assert(self.counts@ =~= c.update(s as int, (c[s as int] + 1) as u32));
            fenwick::lemma_range_sum_update(c, s as int, (c[s as int] + 1) as u32, 0, c.len() as int);
        }
    }

    pub fn num_symbols(&self) -> (r: u32)
        ensures
            r == self.spec_num_symbols(),
    {
        self.num_symbols
    }

    /// The upper end of the symbol's cumulative range, as a count; the real
    /// probability bound is this divided by `total_count`.
    pub fn high(&self, index: u32) -> (r: u32)
        requires
            self.wf(),
            index < self.spec_num_symbols(),
        ensures
            r == self.spec_cum_high(index as int),
    {
        let ghost c = self.counts@;
        proof {
            fenwick::lemma_chain_sum_is_prefix_total(self.fenwick_counts@, c, (index + 1) as usize);
            fenwick::lemma_range_sum_le_total(c, 0, index as int + 1);
        }
        fenwick::prefix_sum(&self.fenwick_counts, index as usize)
    }

    /// The lower end of the symbol's cumulative range, as a count; the real
    /// probability bound is this divided by `total_count`.
    pub fn low(&self, index: u32) -> (r: u32)
        requires
            self.wf(),
            index < self.spec_num_symbols(),
        ensures
            r == self.spec_cum_low(index as int),
    {
        let hi: u32 = self.high(index);
        proof {
            fenwick::lemma_range_sum_nonneg(self.counts@, 0, index as int);
        }
        hi - self.counts[index as usize]
    }

    /// The cumulative range of `symbol`, scaled by `total_count`: the pair
    /// `(low, high)` of counts whose quotients by the total are the real
    /// cumulative probabilities.
    pub fn probability(&self, symbol: u32) -> (r: (u32, u32))
        requires
            self.wf(),
            symbol < self.spec_num_symbols(),
        ensures
            r.0 == self.spec_cum_low(symbol as int),
            r.1 == self.spec_cum_high(symbol as int),
    {
        let hi: u32 = self.high(symbol);
        proof {
            fenwick::lemma_range_sum_nonneg(self.counts@, 0, symbol as int);
        }
        let lo: u32 = hi - self.counts[symbol as usize];
        (lo, hi)
    }

    pub fn eof(&self) -> (r: u32)
        ensures
            r == self.spec_eof(),
    {
        self.eof
    }

    pub fn counts(&self) -> (r: &Vec<u32>)
        ensures
            r@ == self.spec_counts(),
    {
        &self.counts
    }

    pub fn fenwick_counts(&self) -> (r: &Vec<u32>)
        ensures
            r@ == self.spec_fenwick(),
    {
        &self.fenwick_counts
    }

    pub fn total_count(&self) -> (r: u32)
        ensures
            r == self.spec_total(),
    {
        self.total_count
    }
}

/// A single count never exceeds the total of all counts.
pub proof fn lemma_count_le_total(c: Seq<u32>, s: int)
    requires
        0 <= s < c.len(),
    ensures
        c[s] <= prefix_total(c, c.len() as int),
{
    assert(range_sum(c, s, s) == 0);
    assert(range_sum(c, s, s + 1) == c[s]);
    fenwick::lemma_range_sum_le_total(c, s, s + 1);
}

/// The cumulative bounds are ordered and bounded by the total.
pub proof fn lemma_cum_bounds(m: Model, s: int)
    requires
        m.wf(),
        0 <= s < m.spec_num_symbols(),
    ensures
        0 <= m.spec_cum_low(s),
        m.spec_cum_low(s) + m.spec_count(s) == m.spec_cum_high(s),
        m.spec_cum_high(s) <= m.spec_total(),
{
    fenwick::lemma_range_sum_nonneg(m.spec_counts(), 0, s);
    fenwick::lemma_range_sum_le_total(m.spec_counts(), 0, s + 1);
}

/// Fenwick consistency: after any sequence of updates, the query chain of
/// every symbol sums to the prefix sum of the counts, and the stored total is
/// the sum of all counts.
pub proof fn lemma_fenwick_consistency(m: Model, s: int)
    requires
        m.wf(),
        0 <= s < m.spec_num_symbols(),
    ensures
        chain_sum(m.spec_fenwick(), (s + 1) as usize) == prefix_total(m.spec_counts(), s + 1),
        m.spec_total() == prefix_total(m.spec_counts(), m.spec_num_symbols()),
{
    fenwick::lemma_chain_sum_is_prefix_total(m.spec_fenwick(), m.spec_counts(), (s + 1) as usize);
}

/// In a freshly built uniform model (every count equal to one), symbol `s`
/// occupies exactly the cumulative range `(s, s + 1)` out of `n`.
pub proof fn lemma_uniform_probability(m: Model, s: int)
    requires
        m.wf(),
        0 <= s < m.spec_num_symbols(),
        forall|i: int| 0 <= i < m.spec_counts().len() ==> m.spec_counts()[i] == 1u32,
    ensures
        m.spec_cum_low(s) == s,
        m.spec_cum_high(s) == s + 1,
        m.spec_total() == m.spec_num_symbols(),
{
    lemma_uniform_prefix(m.spec_counts(), s);
    lemma_uniform_prefix(m.spec_counts(), s + 1);
    lemma_uniform_prefix(m.spec_counts(), m.spec_counts().len() as int);
}

proof fn lemma_uniform_prefix(c: Seq<u32>, k: int)
    requires
        0 <= k <= c.len(),
        forall|i: int| 0 <= i < c.len() ==> c[i] == 1u32,
    ensures
        prefix_total(c, k) == k,
    decreases k,
{
    if k > 0 {
        lemma_uniform_prefix(c, k - 1);
    }
}

/// The cumulative probabilities depend on the counts alone: without an
/// intervening update, repeated queries return identical values.
pub proof fn lemma_probability_idempotent(m1: Model, m2: Model, s: int)
    requires
        m1.spec_counts() == m2.spec_counts(),
    ensures
        m1.spec_cum_low(s) == m2.spec_cum_low(s),
        m1.spec_cum_high(s) == m2.spec_cum_high(s),
        m1.spec_count(s) == m2.spec_count(s),
{
}

} // verus!
