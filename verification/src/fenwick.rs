//! A Fenwick (binary-indexed) tree over `u32` counts: point update and prefix
//! sum in logarithmic time, with the classical one-based node layout stored in
//! a zero-based vector. Node `j` (one-based) holds the sum of the counts at
//! zero-based positions `[node_start(j), j)`.

use vstd::prelude::*;

verus! {

/// Sum of `c[lo..hi)`.
pub open spec fn range_sum(c: Seq<u32>, lo: int, hi: int) -> int
    decreases hi - lo,
{
    if lo >= hi {
        0
    } else {
        range_sum(c, lo, hi - 1) + c[hi - 1]
    }
}

/// Sum of the first `k` entries of `c`.
pub open spec fn prefix_total(c: Seq<u32>, k: int) -> int {
    range_sum(c, 0, k)
}

/// One-based node `j` with its lowest set bit cleared: the zero-based start of
/// the block of counts that node `j` sums.
pub open spec fn node_start(j: usize) -> usize
    recommends
        1 <= j,
{
    j & ((j - 1) as usize)
}

/// Whether tree node `j` lies on the update chain of the element at one-based
/// position `x`, i.e. whether the block summed by `j` contains `x`.
pub open spec fn node_covers(j: usize, x: usize) -> bool
    recommends
        1 <= j,
{
    node_start(j) < x <= j
}

/// `f` is the Fenwick representation of the counts `c`.
pub open spec fn fenwick_valid(f: Seq<u32>, c: Seq<u32>) -> bool {
    &&& f.len() == c.len()
    &&& forall|p: int|
        0 <= p < f.len() ==> #[trigger] f[p] == range_sum(
            c,
            node_start((p + 1) as usize) as int,
            p + 1,
        )
}

/// The sum of the nodes on the query chain that starts at one-based `j`:
/// what a prefix-sum query adds up.
pub open spec fn chain_sum(f: Seq<u32>, j: usize) -> int
    decreases j,
{
    if j == 0 || j > f.len() {
        0
    } else {
        proof {
            assert(j & ((j - 1) as usize) < j) by (bit_vector)
                requires
                    1 <= j,
            ;
        }
        f[j - 1] + chain_sum(f, node_start(j))
    }
}

pub proof fn lemma_node_start_lt(j: usize)
    by (bit_vector)
    requires
        1 <= j,
    ensures
        node_start(j) < j,
{
}

/// Stepping up the update chain from zero-based `ii` to `ii | (ii + 1)` lands
/// strictly higher and, within bounds, on a node that still covers `x`.
proof fn lemma_chain_step(ii: usize, x: usize)
    by (bit_vector)
    requires
        ((ii + 1) as usize) != 0,
        node_covers((ii + 1) as usize, x),
    ensures
        ii + 1 <= (ii | ((ii + 1) as usize)),
        (((ii | ((ii + 1) as usize)) + 1) as usize) != 0 ==> node_covers(
            (((ii | ((ii + 1) as usize)) + 1) as usize),
            x,
        ),
{
}

/// No node strictly between an update-chain node and its successor covers the
/// updated position.
proof fn lemma_chain_gap(ii: usize, x: usize, jj: usize)
    by (bit_vector)
    requires
        ((ii + 1) as usize) != 0,
        x <= ii + 1,
        ii + 1 < jj,
        node_covers(jj, x),
    ensures
        jj > (ii | ((ii + 1) as usize)),
{
}

pub proof fn lemma_range_sum_nonneg(c: Seq<u32>, lo: int, hi: int)
    ensures
        range_sum(c, lo, hi) >= 0,
    decreases hi - lo,
{
    if lo < hi {
        lemma_range_sum_nonneg(c, lo, hi - 1);
    }
}

pub proof fn lemma_range_sum_concat(c: Seq<u32>, lo: int, mid: int, hi: int)
    requires
        lo <= mid <= hi,
    ensures
        range_sum(c, lo, hi) == range_sum(c, lo, mid) + range_sum(c, mid, hi),
    decreases hi - mid,
{
    if mid < hi {
        lemma_range_sum_concat(c, lo, mid, hi - 1);
    }
}

/// Replacing `c[i]` shifts exactly those block sums whose block contains `i`.
pub proof fn lemma_range_sum_update(c: Seq<u32>, i: int, v: u32, lo: int, hi: int)
    requires
        0 <= i < c.len(),
        0 <= lo,
        hi <= c.len(),
    ensures
        range_sum(c.update(i, v), lo, hi) == range_sum(c, lo, hi) + if lo <= i < hi {
            v - c[i]
        } else {
            0
        },
    decreases hi - lo,
{
    if lo < hi {
        lemma_range_sum_update(c, i, v, lo, hi - 1);
    }
}

/// Every block sum is bounded by the total of all counts.
pub proof fn lemma_range_sum_le_total(c: Seq<u32>, lo: int, hi: int)
    requires
        0 <= lo <= hi <= c.len(),
    ensures
        range_sum(c, lo, hi) <= prefix_total(c, c.len() as int),
{
    lemma_range_sum_concat(c, 0, lo, hi);
    lemma_range_sum_concat(c, 0, hi, c.len() as int);
    lemma_range_sum_nonneg(c, 0, lo);
    lemma_range_sum_nonneg(c, hi, c.len() as int);
}

/// Longer prefixes can only have larger sums.
pub proof fn lemma_prefix_total_monotone(c: Seq<u32>, k1: int, k2: int)
    requires
        0 <= k1 <= k2,
    ensures
        prefix_total(c, k1) <= prefix_total(c, k2),
{
    lemma_range_sum_concat(c, 0, k1, k2);
    lemma_range_sum_nonneg(c, k1, k2);
}

pub proof fn lemma_chain_sum_nonneg(f: Seq<u32>, j: usize)
    ensures
        chain_sum(f, j) >= 0,
    decreases j,
{
    if !(j == 0 || j > f.len()) {
        lemma_node_start_lt(j);
        lemma_chain_sum_nonneg(f, node_start(j));
    }
}

/// Correctness of the prefix-sum query: on a valid tree, the query chain from
/// `j` adds up to the sum of the first `j` counts.
pub proof fn lemma_chain_sum_is_prefix_total(f: Seq<u32>, c: Seq<u32>, j: usize)
    requires
        fenwick_valid(f, c),
        j <= f.len(),
    ensures
        chain_sum(f, j) == prefix_total(c, j as int),
    decreases j,
{
    if j != 0 {
        lemma_node_start_lt(j);
        lemma_chain_sum_is_prefix_total(f, c, node_start(j));
        assert(f[j - 1] == range_sum(c, node_start(j) as int, j as int));
        lemma_range_sum_concat(c, 0, node_start(j) as int, j as int);
    }
}

/// Correctness of the point update: adding `delta` along the update chain of
/// position `i` turns a valid tree for `c` into a valid tree for `c` with
/// `c[i]` increased by `delta`.
pub proof fn lemma_update_preserves_valid(
    f1: Seq<u32>,
    f2: Seq<u32>,
    c: Seq<u32>,
    i: int,
    delta: u32,
)
    requires
        fenwick_valid(f1, c),
        c.len() <= usize::MAX,
        0 <= i < c.len(),
        c[i] + delta <= u32::MAX,
        f2.len() == f1.len(),
        forall|p: int|
            0 <= p < f1.len() ==> #[trigger] f2[p] == f1[p] + if node_covers(
                (p + 1) as usize,
                (i + 1) as usize,
            ) {
                delta as int
            } else {
                0
            },
    ensures
        fenwick_valid(f2, c.update(i, (c[i] + delta) as u32)),
{
    let c2 = c.update(i, (c[i] + delta) as u32);
    assert forall|p: int| 0 <= p < f2.len() implies #[trigger] f2[p] == range_sum(
        c2,
        node_start((p + 1) as usize) as int,
        p + 1,
    ) by {
        let j = (p + 1) as usize;
        lemma_node_start_lt(j);
        lemma_range_sum_update(c, i, (c[i] + delta) as u32, node_start(j) as int, p + 1);
    }
}

/// Conceptually performs `c[i] += delta` on the counts represented by the
/// tree: adds `delta` to every node whose block contains position `i`.
pub fn update(fenwick: &mut Vec<u32>, i: usize, delta: u32)
    requires
        i < old(fenwick).len(),
        forall|p: int|
            0 <= p < old(fenwick)@.len() ==> #[trigger] old(fenwick)@[p] + delta <= u32::MAX,
    ensures
        final(fenwick)@.len() == old(fenwick)@.len(),
        forall|p: int|
            0 <= p < old(fenwick)@.len() ==> #[trigger] final(fenwick)@[p] == old(fenwick)@[p]
                + if node_covers((p + 1) as usize, (i + 1) as usize) {
                delta as int
            } else {
                0
            },
{
    let n: usize = fenwick.len();
    let mut ii: usize = i;
    proof {
        assert(node_covers((i + 1) as usize, (i + 1) as usize)) by (bit_vector)
            requires
                ((i + 1) as usize) != 0,
        ;
    }
    while ii < n
        invariant
            n == fenwick@.len(),
            fenwick@.len() == old(fenwick)@.len(),
            i < n,
            i <= ii,
            ii < n ==> node_covers((ii + 1) as usize, (i + 1) as usize),
            forall|p: int|
                0 <= p < n ==> #[trigger] fenwick@[p] == old(fenwick)@[p] + if p < ii
                    && node_covers((p + 1) as usize, (i + 1) as usize) {
                    delta as int
                } else {
                    0
                },
            forall|p: int|
                0 <= p < n ==> #[trigger] old(fenwick)@[p] + delta <= u32::MAX,
        decreases
                if ii < n {
                    n - ii
                } else {
                    0
                },
    {
        let v: u32 = fenwick[ii];
        fenwick.set(ii, v + delta);
        let next: usize = ii | (ii + 1);
        proof {
            lemma_chain_step(ii, (i + 1) as usize);
            assert forall|p: int|
                0 <= p < n && ii < p < next implies !(#[trigger] node_covers(
                (p + 1) as usize,
                (i + 1) as usize,
            )) by {
                if node_covers((p + 1) as usize, (i + 1) as usize) {
                    lemma_chain_gap(ii, (i + 1) as usize, (p + 1) as usize);
                }
            }
        }
        ii = next;
    }
}

/// The prefix sum over the represented counts, up to and including `i`:
/// adds the nodes on the query chain of `i`.
pub fn prefix_sum(fenwick: &Vec<u32>, i: usize) -> (r: u32)
    requires
        i < fenwick.len(),
        chain_sum(fenwick@, (i + 1) as usize) <= u32::MAX,
    ensures
        r == chain_sum(fenwick@, (i + 1) as usize),
{
    let mut j: usize = i + 1;
    let mut sum: u32 = 0;
    while j > 0
        invariant
            j <= fenwick@.len(),
            sum + chain_sum(fenwick@, j) == chain_sum(fenwick@, (i + 1) as usize),
            chain_sum(fenwick@, (i + 1) as usize) <= u32::MAX,
        decreases j,
    {
        proof {
            lemma_node_start_lt(j);
            lemma_chain_sum_nonneg(fenwick@, node_start(j));
        }
        sum = sum + fenwick[j - 1];
        j = j & (j - 1);
    }
    sum
}

} // verus!
