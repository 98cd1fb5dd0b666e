//! Deterministic randomness: seed derivation, and everything drawn from a seed.
//!
//! The generator's state is an ordinary `u64` here: each draw takes the state
//! and hands back the number drawn and the state after it.

use vstd::arithmetic::div_mod::*;
use vstd::arithmetic::mul::*;
use vstd::prelude::*;

use crate::config::DimRange;

verus! {

/// The multiplier of seed derivation: the golden ratio of the 64-bit range.
pub const GOLDEN: u64 = 0x9e37_79b9_7f4a_7c15;

/// The seed with ordinal `i` under `base`.
pub open spec fn derived_seed(base: u64, i: usize) -> u64 {
    base.wrapping_add((i as u64).wrapping_mul(GOLDEN))
}

/// Derives the seed with ordinal `i` from `base`.
pub fn derive_seed(base: u64, i: usize) -> (r: u64)
    ensures
        r == derived_seed(base, i),
{
    base.wrapping_add((i as u64).wrapping_mul(GOLDEN))
}

/// The multiplicative inverse of `GOLDEN` modulo 2^64.
const GOLDEN_INVERSE: u64 = 0xf1de_83e1_9937_733d;

proof fn golden_is_invertible(i: u64)
    ensures
        (i.wrapping_mul(GOLDEN) * GOLDEN_INVERSE) % 0x1_0000_0000_0000_0000 == i,
{
    let m: int = 0x1_0000_0000_0000_0000;
    let g = GOLDEN as int;
    let x = i as int;
    assert(i.wrapping_mul(GOLDEN) == (x * g) % m);
    let inverse = GOLDEN_INVERSE as int;
    lemma_mul_mod_noop_left(x * g, inverse, m);
    lemma_mul_is_associative(x, g, inverse);
    let t: int = 10771413168148108919;
    assert(g * inverse == 1 + t * m);
    assert(x * (1 + t * m) == x + (x * t) * m) by (nonlinear_arith);
    lemma_mod_multiples_vanish(x * t, x, m);
    assert((x * t) * m == m * (x * t)) by (nonlinear_arith);
    lemma_small_mod(i as nat, m as nat);
}

/// Different ordinals under one base give different seeds.
pub proof fn derived_seeds_are_distinct(base: u64, i: usize, j: usize)
    requires
        i != j,
    ensures
        derived_seed(base, i) != derived_seed(base, j),
{
    golden_is_invertible(i as u64);
    golden_is_invertible(j as u64);
}

// ── Draws ────────────────────────────────────────────────────────────────

/// What `fastrand::Rng::u64` draws from a generator in the given state, and the
/// state it leaves the generator in.
pub uninterp spec fn u64_draw(state: u64, low: u64, high: u64) -> (u64, u64);

/// Calls `fastrand::Rng::u64` on a generator in state `state`
/// (`Rng::with_seed`) with the range `low..=high`, and reads the state back
/// (`Rng::get_seed`). The number lies in the range; number and next state
/// depend on the three arguments alone. On a 64-bit target `Rng::usize` draws
/// the same numbers.
#[verifier::external_body]
fn draw_u64(state: u64, low: u64, high: u64) -> (r: (u64, u64))
    requires
        low <= high,
    ensures
        low <= r.0 <= high,
        r == u64_draw(state, low, high),
{
    let mut rng = fastrand::Rng::with_seed(state);
    let x = rng.u64(low..=high);
    (x, rng.get_seed())
}

/// A uniform index below `n`, and the state after the draw.
pub open spec fn index_draw(state: u64, n: usize) -> (usize, u64) {
    let d = u64_draw(state, 0, (n - 1) as u64);
    (d.0 as usize, d.1)
}

/// Draws a uniform index below `n`.
pub fn draw_index(state: u64, n: usize) -> (r: (usize, u64))
    requires
        n > 0,
    ensures
        r.0 < n,
        r == index_draw(state, n),
{
    let (x, next) = draw_u64(state, 0, (n - 1) as u64);
    (x as usize, next)
}

/// A uniform number from `low` to `high`, and the state after the draw.
pub open spec fn between_draw(state: u64, low: usize, high: usize) -> (usize, u64) {
    let d = u64_draw(state, low as u64, high as u64);
    (d.0 as usize, d.1)
}

/// Draws a uniform number from `low` to `high`.
pub fn draw_between(state: u64, low: usize, high: usize) -> (r: (usize, u64))
    requires
        low <= high,
    ensures
        low <= r.0 <= high,
        r == between_draw(state, low, high),
{
    let (x, next) = draw_u64(state, low as u64, high as u64);
    (x as usize, next)
}

// ── Hidden dimensions ────────────────────────────────────────────────────

/// How many dimensions a range offers at a stride.
pub open spec fn stride_count(pool: DimRange, stride: usize) -> int {
    (pool.end - pool.start) / stride as int + 1
}

/// The `k`-th dimension of a range at a stride.
pub open spec fn stride_dim(pool: DimRange, stride: usize, k: int) -> int {
    pool.start + k * stride
}

/// A dimension is on offer: it lies in the range, a whole number of strides
/// from its start.
pub open spec fn on_stride(pool: DimRange, stride: usize, dim: int) -> bool {
    &&& pool.start <= dim <= pool.end
    &&& (dim - pool.start) % stride as int == 0
}

/// How many dimensions the range offers.
pub fn count_dims(pool: DimRange, stride: usize) -> (r: usize)
    requires
        pool.start <= pool.end,
        stride > 0,
        stride_count(pool, stride) <= usize::MAX,
    ensures
        r == stride_count(pool, stride),
        r > 0,
{
    proof {
        lemma_div_pos_is_pos(pool.end - pool.start, stride as int);
    }
    (pool.end - pool.start) / stride + 1
}

/// The `k`-th dimension on offer.
pub fn dim_at(pool: DimRange, stride: usize, k: usize) -> (r: usize)
    requires
        pool.start <= pool.end,
        stride > 0,
        k < stride_count(pool, stride),
    ensures
        r == stride_dim(pool, stride, k as int),
        on_stride(pool, stride, r as int),
{
    proof {
        stride_dims_fit(pool, stride, k as int);
        lemma_mul_nonnegative(k as int, stride as int);
    }
    pool.start + k * stride
}

/// Every dimension at a stride lies in the range, on a stride.
pub proof fn stride_dims_fit(pool: DimRange, stride: usize, k: int)
    requires
        pool.start <= pool.end,
        stride > 0,
        0 <= k < stride_count(pool, stride),
    ensures
        on_stride(pool, stride, stride_dim(pool, stride, k)),
{
    let span = pool.end - pool.start;
    let s = stride as int;
    lemma_fundamental_div_mod(span, s);
    lemma_mul_inequality(k, span / s, s);
    lemma_mul_is_commutative(span / s, s);
    lemma_mul_nonnegative(k, s);
    lemma_mod_multiples_basic(k, s);
}

/// Every dimension of the range on a stride is offered.
pub proof fn stride_dims_cover(pool: DimRange, stride: usize, dim: int)
    requires
        pool.start <= pool.end,
        stride > 0,
        on_stride(pool, stride, dim),
    ensures
        ({
            let k = (dim - pool.start) / stride as int;
            0 <= k < stride_count(pool, stride) && stride_dim(pool, stride, k) == dim
        }),
{
    let s = stride as int;
    let off = dim - pool.start;
    lemma_fundamental_div_mod(off, s);
    lemma_mul_is_commutative(off / s, s);
    lemma_div_pos_is_pos(off, s);
    lemma_div_is_ordered(off, pool.end - pool.start, s);
}

/// What `sample_hidden_dim` draws.
pub open spec fn hidden_dim_draw(pool: DimRange, stride: usize, state: u64) -> (usize, u64) {
    let d = index_draw(state, stride_count(pool, stride) as usize);
    (stride_dim(pool, stride, d.0 as int) as usize, d.1)
}

/// Draws a hidden dimension uniformly from those the range offers.
pub fn sample_hidden_dim(pool: DimRange, stride: usize, state: u64) -> (r: (usize, u64))
    requires
        pool.start <= pool.end,
        stride > 0,
        stride_count(pool, stride) <= usize::MAX,
    ensures
        r == hidden_dim_draw(pool, stride, state),
        on_stride(pool, stride, r.0 as int),
{
    let n: usize = count_dims(pool, stride);
    let (k, next) = draw_index(state, n);
    (dim_at(pool, stride, k), next)
}

// ── Node genes ───────────────────────────────────────────────────────────

/// What is drawn for one hidden node; the functions are positions in the
/// pools of the run.
#[derive(Clone, Copy, Debug, PartialEq, Eq, Structural)]
pub struct NodeGenes {
    pub hidden_dim: usize,
    pub activation: usize,
    pub combine: usize,
    pub standardize: usize,
}

/// What node genes are drawn from.
#[derive(Clone, Copy, Debug, PartialEq, Eq, Structural)]
pub struct GenePools {
    pub dims: DimRange,
    pub stride: usize,
    pub activations: usize,
    pub combines: usize,
    pub standardizes: usize,
}

impl GenePools {
    /// Every pool has something to draw.
    pub open spec fn drawable(self) -> bool {
        &&& self.dims.start <= self.dims.end
        &&& self.stride > 0
        &&& stride_count(self.dims, self.stride) <= usize::MAX
        &&& self.activations > 0
        &&& self.combines > 0
        &&& self.standardizes > 0
    }
}

/// The genes of one node: the dimension first, then one draw per pool.
pub open spec fn node_draw(pools: GenePools, state: u64) -> (NodeGenes, u64) {
    let d = hidden_dim_draw(pools.dims, pools.stride, state);
    let a = index_draw(d.1, pools.activations);
    let c = index_draw(a.1, pools.combines);
    let s = index_draw(c.1, pools.standardizes);
    (
        NodeGenes { hidden_dim: d.0, activation: a.0, combine: c.0, standardize: s.0 },
        s.1,
    )
}

/// Genes that the pools can have given.
pub open spec fn genes_fit(pools: GenePools, g: NodeGenes) -> bool {
    &&& on_stride(pools.dims, pools.stride, g.hidden_dim as int)
    &&& g.activation < pools.activations
    &&& g.combine < pools.combines
    &&& g.standardize < pools.standardizes
}

/// Draws the genes of one hidden node.
pub fn draw_node(pools: GenePools, state: u64) -> (r: (NodeGenes, u64))
    requires
        pools.drawable(),
    ensures
        r == node_draw(pools, state),
        genes_fit(pools, r.0),
{
    let (hidden_dim, s1) = sample_hidden_dim(pools.dims, pools.stride, state);
    let (activation, s2) = draw_index(s1, pools.activations);
    let (combine, s3) = draw_index(s2, pools.combines);
    let (standardize, s4) = draw_index(s3, pools.standardizes);
    (NodeGenes { hidden_dim, activation, combine, standardize }, s4)
}

/// The genes of `n` nodes, drawn one after the other, and the state after.
pub open spec fn genome_draw(pools: GenePools, n: nat, state: u64) -> (Seq<NodeGenes>, u64)
    decreases n,
{
    if n == 0 {
        (Seq::empty(), state)
    } else {
        let before = genome_draw(pools, (n - 1) as nat, state);
        let last = node_draw(pools, before.1);
        (before.0.push(last.0), last.1)
    }
}

/// Draws the genes of all hidden nodes of a topology, in node order.
pub fn draw_genome(pools: GenePools, hidden_nodes: usize, state: u64) -> (r: (Vec<NodeGenes>, u64))
    requires
        pools.drawable(),
    ensures
        (r.0@, r.1) == genome_draw(pools, hidden_nodes as nat, state),
        r.0@.len() == hidden_nodes,
        forall|i: int| 0 <= i < r.0@.len() ==> genes_fit(pools, #[trigger] r.0@[i]),
{
    let mut out: Vec<NodeGenes> = Vec::new();
    let mut now: u64 = state;
    let mut i: usize = 0;
    while i < hidden_nodes
        invariant
            i <= hidden_nodes,
            pools.drawable(),
            (out@, now) == genome_draw(pools, i as nat, state),
            out@.len() == i,
            forall|j: int| 0 <= j < i ==> genes_fit(pools, #[trigger] out@[j]),
        decreases hidden_nodes - i,
    {
        let (genes, next) = draw_node(pools, now);
        out.push(genes);
        now = next;
        i = i + 1;
    }
    (out, now)
}

/// What is drawn for a whole random topology.
#[derive(Debug)]
pub struct TopologyDraw {
    pub hidden_nodes: usize,
    /// The generator after the number of nodes was drawn; the genes of the
    /// nodes are drawn from here on.
    pub state: u64,
}

/// Draws how many hidden nodes the topology with seed `seed` has.
pub fn draw_hidden_count(seed: u64, min: usize, max: usize) -> (r: TopologyDraw)
    requires
        min <= max,
    ensures
        min <= r.hidden_nodes <= max,
        (r.hidden_nodes, r.state) == between_draw(seed, min, max),
{
    let (hidden_nodes, state) = draw_between(seed, min, max);
    TopologyDraw { hidden_nodes, state }
}

// ── Shuffled splits ──────────────────────────────────────────────────────

/// `s` with the elements at `i` and `j` exchanged.
pub open spec fn swapped<T>(s: Seq<T>, i: int, j: int) -> Seq<T> {
    s.update(i, s[j]).update(j, s[i])
}

/// The swap partners of a shuffle of `n` rows: one for each row from the last
/// down to the second, each no higher than its row.
pub open spec fn swap_draws(n: nat, state: u64) -> Seq<usize>
    decreases n,
{
    if n <= 1 {
        Seq::empty()
    } else {
        let d = between_draw(state, 0, (n - 1) as usize);
        seq![d.0] + swap_draws((n - 1) as nat, d.1)
    }
}

/// Swap partners that a shuffle of `n` rows can use.
pub open spec fn swaps_fit(n: nat, swaps: Seq<usize>) -> bool {
    &&& swaps.len() + 1 == n || (n == 0 && swaps.len() == 0)
    &&& forall|k: int| 0 <= k < swaps.len() ==> #[trigger] swaps[k] <= n - 1 - k
}

/// The rows after the swaps from row `i` down.
pub open spec fn swapped_down(rows: Seq<usize>, i: int, swaps: Seq<usize>) -> Seq<usize>
    decreases swaps.len(),
{
    if swaps.len() == 0 {
        rows
    } else {
        swapped_down(swapped(rows, i, swaps[0] as int), i - 1, swaps.skip(1))
    }
}

/// The rows 0 to `n - 1` in order.
pub open spec fn identity_rows(n: nat) -> Seq<usize> {
    Seq::new(n, |i: int| i as usize)
}

/// The rows 0 to `n - 1` shuffled by the given swaps.
pub open spec fn shuffled_rows(n: nat, swaps: Seq<usize>) -> Seq<usize> {
    swapped_down(identity_rows(n), n - 1, swaps)
}

/// Draws the swap partners of a shuffle of `n` rows.
pub fn draw_swaps(n: usize, seed: u64) -> (r: Vec<usize>)
    ensures
        r@ == swap_draws(n as nat, seed),
        swaps_fit(n as nat, r@),
{
    let mut out: Vec<usize> = Vec::new();
    let mut state: u64 = seed;
    let mut left: usize = n;
    while left > 1
        invariant
            left <= n,
            n >= 1 ==> left >= 1,
            out@.len() + left == n || n == 0,
            n == 0 ==> left == 0 && out@.len() == 0,
            out@ + swap_draws(left as nat, state) =~= swap_draws(n as nat, seed),
            forall|k: int| 0 <= k < out@.len() ==> #[trigger] out@[k] <= n - 1 - k,
        decreases left,
    {
        let (j, next) = draw_between(state, 0, left - 1);
        proof {
            assert(swap_draws(left as nat, state) =~= seq![j] + swap_draws(
                (left - 1) as nat,
                next,
            ));
        }
        out.push(j);
        state = next;
        left = left - 1;
    }
    out
}

/// Shuffles the rows 0 to `n - 1` by the given swaps.
pub fn shuffle_rows(n: usize, swaps: &Vec<usize>) -> (r: Vec<usize>)
    requires
        swaps_fit(n as nat, swaps@),
    ensures
        r@ == shuffled_rows(n as nat, swaps@),
{
    let mut rows: Vec<usize> = Vec::new();
    let mut i: usize = 0;
    while i < n
        invariant
            i <= n,
            rows@ =~= identity_rows(i as nat),
        decreases n - i,
    {
        rows.push(i);
        i = i + 1;
    }
    let mut k: usize = 0;
    assert(swaps@.skip(0) =~= swaps@);
    while k < swaps.len()
        invariant
            k <= swaps@.len(),
            swaps_fit(n as nat, swaps@),
            rows@.len() == n,
            swapped_down(rows@, n - 1 - k, swaps@.skip(k as int)) == shuffled_rows(
                n as nat,
                swaps@,
            ),
        decreases swaps@.len() - k,
    {
        let high: usize = n - 1 - k;
        let low: usize = swaps[k];
        proof {
            assert(swaps@.skip(k as int)[0] == low);
            assert(swaps@.skip(k as int).skip(1) =~= swaps@.skip(k + 1));
        }
        let a: usize = rows[high];
        let b: usize = rows[low];
        rows.set(high, b);
        rows.set(low, a);
        k = k + 1;
    }
    rows
}

/// Exactly the rows 0 to `n - 1`, each once.
pub open spec fn is_row_permutation(n: nat, rows: Seq<usize>) -> bool {
    &&& rows.len() == n
    &&& rows.no_duplicates()
    &&& forall|k: int| 0 <= k < n ==> #[trigger] rows[k] < n
}

proof fn swaps_keep_rows(n: nat, rows: Seq<usize>, i: int, swaps: Seq<usize>)
    requires
        is_row_permutation(n, rows),
        swaps.len() <= i + 1,
        i < n,
        forall|k: int| 0 <= k < swaps.len() ==> #[trigger] swaps[k] <= i - k,
    ensures
        is_row_permutation(n, swapped_down(rows, i, swaps)),
    decreases swaps.len(),
{
    if swaps.len() > 0 {
        let j = swaps[0] as int;
        let next = swapped(rows, i, j);
        assert(is_row_permutation(n, next)) by {
            assert forall|a: int, b: int|
                0 <= a < next.len() && 0 <= b < next.len() && a != b implies next[a] != next[b] by {
                let aa = if a == j { i } else if a == i { j } else { a };
                let bb = if b == j { i } else if b == i { j } else { b };
                assert(next[a] == rows[aa]);
                assert(next[b] == rows[bb]);
            }
            assert forall|k: int| 0 <= k < n implies #[trigger] next[k] < n by {
                let kk = if k == j { i } else if k == i { j } else { k };
                assert(next[k] == rows[kk]);
            }
        }
        assert forall|k: int| 0 <= k < swaps.skip(1).len() implies #[trigger] swaps.skip(1)[k] <= i
            - 1 - k by {
            assert(swaps.skip(1)[k] == swaps[k + 1]);
        }
        swaps_keep_rows(n, next, i - 1, swaps.skip(1));
    }
}

/// A shuffle loses no row and invents none.
pub proof fn shuffle_is_permutation(n: nat, swaps: Seq<usize>)
    requires
        n <= usize::MAX,
        swaps_fit(n, swaps),
    ensures
        is_row_permutation(n, shuffled_rows(n, swaps)),
{
    assert(is_row_permutation(n, identity_rows(n)));
    if n > 0 {
        swaps_keep_rows(n, identity_rows(n), n - 1, swaps);
    }
}

/// The rows of a dataset, split in two.
#[derive(Debug)]
pub struct RowSplit {
    pub train: Vec<usize>,
    pub eval: Vec<usize>,
}

impl RowSplit {
    /// The split of `n` shuffled rows: the first `eval_count` are held out.
    pub open spec fn of_rows(self, rows: Seq<usize>, eval_count: int) -> bool {
        &&& self.eval@ == rows.take(eval_count)
        &&& self.train@ == rows.skip(eval_count)
    }
}

/// Cuts shuffled rows: the first `eval_count` are held out, the rest train.
pub fn cut_rows(rows: &Vec<usize>, eval_count: usize) -> (r: RowSplit)
    requires
        eval_count <= rows@.len(),
    ensures
        r.of_rows(rows@, eval_count as int),
{
    let mut eval: Vec<usize> = Vec::new();
    let mut train: Vec<usize> = Vec::new();
    let mut i: usize = 0;
    while i < rows.len()
        invariant
            i <= rows@.len(),
            eval_count <= rows@.len(),
            eval@ =~= rows@.take(if i <= eval_count {
                i as int
            } else {
                eval_count as int
            }),
            i <= eval_count ==> train@.len() == 0,
            i > eval_count ==> train@ =~= rows@.subrange(eval_count as int, i as int),
        decreases rows@.len() - i,
    {
        if i < eval_count {
            eval.push(rows[i]);
        } else {
            train.push(rows[i]);
        }
        i = i + 1;
    }
    assert(train@ =~= rows@.skip(eval_count as int));
    RowSplit { train, eval }
}

/// Splits `n` rows at random: `eval_count` held out, the rest for training.
pub fn split_dataset(n: usize, eval_count: usize, seed: u64) -> (r: RowSplit)
    requires
        eval_count <= n,
    ensures
        r.of_rows(shuffled_rows(n as nat, swap_draws(n as nat, seed)), eval_count as int),
        is_row_permutation(n as nat, r.eval@ + r.train@),
        r.eval@.len() == eval_count,
{
    let swaps = draw_swaps(n, seed);
    let rows = shuffle_rows(n, &swaps);
    proof {
        shuffle_is_permutation(n as nat, swaps@);
    }
    let split = cut_rows(&rows, eval_count);
    assert(split.eval@ + split.train@ =~= rows@);
    split
}

/// Training and held-out rows never overlap, and together they are all rows.
pub proof fn split_is_partition(n: nat, train: Seq<usize>, eval: Seq<usize>)
    requires
        n <= usize::MAX,
        is_row_permutation(n, eval + train),
    ensures
        forall|i: int, j: int|
            0 <= i < train.len() && 0 <= j < eval.len() ==> train[i] != eval[j],
        forall|row: usize| row < n ==> train.contains(row) || eval.contains(row),
{
    let all = eval + train;
    assert forall|i: int, j: int| 0 <= i < train.len() && 0 <= j < eval.len() implies train[i]
        != eval[j] by {
        assert(all[j] == eval[j]);
        assert(all[eval.len() + i] == train[i]);
    }
    assert forall|row: usize| row < n implies train.contains(row) || eval.contains(row) by {
        if !all.contains(row) {
            let more = all.push(row);
            assert(more.no_duplicates());
            pigeonhole(more, n);
        }
        let k = choose|k: int| 0 <= k < all.len() && all[k] == row;
        if k < eval.len() {
            assert(eval[k] == row);
        } else {
            assert(train[k - eval.len()] == row);
        }
    }
}

/// A list of different numbers below `n` has at most `n` members.
proof fn pigeonhole(s: Seq<usize>, n: nat)
    requires
        s.no_duplicates(),
        forall|k: int| 0 <= k < s.len() ==> #[trigger] s[k] < n,
        n <= usize::MAX,
    ensures
        s.len() <= n,
{
    let below = vstd::set_lib::set_int_range(0, n as int);
    let ints = s.map_values(|x: usize| x as int);
    assert(ints.no_duplicates());
    ints.unique_seq_to_set();
    assert(ints.to_set().subset_of(below)) by {
        assert forall|x: int| ints.to_set().contains(x) implies below.contains(x) by {
            let k = choose|k: int| 0 <= k < ints.len() && ints[k] == x;
            assert(s[k] < n);
        }
    }
    vstd::set_lib::lemma_int_range(0, n as int);
    vstd::set_lib::lemma_len_subset(ints.to_set(), below);
}

// ── What is drawn ────────────────────────────────────────────────────────

/// An index is the number that the generator gives for the range from 0 to the
/// last index, and a number between two bounds the one it gives for these.
pub proof fn a_draw_is_the_generators(state: u64, low: usize, high: usize, n: usize)
    requires
        n > 0,
        low <= high,
    ensures
        u64_draw(state, 0, (n - 1) as u64).0 < n ==> index_draw(state, n).0 == u64_draw(
            state,
            0,
            (n - 1) as u64,
        ).0,
        index_draw(state, n).1 == u64_draw(state, 0, (n - 1) as u64).1,
        u64_draw(state, low as u64, high as u64).0 <= high ==> between_draw(state, low, high).0
            == u64_draw(state, low as u64, high as u64).0,
        between_draw(state, low, high).1 == u64_draw(state, low as u64, high as u64).1,
{
}

/// A drawn dimension lies as many strides above the start of its range as the
/// generator says, of those that do not go beyond the end.
pub proof fn a_dimension_is_drawn(pool: DimRange, stride: usize, state: u64)
    requires
        pool.start <= pool.end,
        stride > 0,
        (pool.end - pool.start) / stride as int + 1 <= usize::MAX,
    ensures
        ({
            let d = u64_draw(state, 0, ((pool.end - pool.start) / stride as int) as u64);
            &&& d.0 <= (pool.end - pool.start) / stride as int ==> hidden_dim_draw(
                pool,
                stride,
                state,
            ).0 == pool.start + d.0 * stride
            &&& hidden_dim_draw(pool, stride, state).1 == d.1
        }),
{
    let d = u64_draw(state, 0, ((pool.end - pool.start) / stride as int) as u64);
    assert(stride_count(pool, stride) == (pool.end - pool.start) / stride as int + 1);
    assert((pool.end - pool.start) / stride as int >= 0) by {
        lemma_div_pos_is_pos(pool.end - pool.start, stride as int);
    }
    if d.0 <= (pool.end - pool.start) / stride as int {
        stride_dims_fit(pool, stride, d.0 as int);
    }
}

/// A node takes four draws, each from the state that the one before left: its
/// dimension, its activation, its combine operation, its standardization.
pub proof fn a_node_takes_four_draws(pools: GenePools, state: u64)
    requires
        pools.drawable(),
    ensures
        ({
            let (g, after) = node_draw(pools, state);
            let dim = hidden_dim_draw(pools.dims, pools.stride, state);
            let a = u64_draw(dim.1, 0, (pools.activations - 1) as u64);
            let c = u64_draw(a.1, 0, (pools.combines - 1) as u64);
            let s = u64_draw(c.1, 0, (pools.standardizes - 1) as u64);
            &&& g.hidden_dim == dim.0
            &&& a.0 < pools.activations ==> g.activation == a.0
            &&& c.0 < pools.combines ==> g.combine == c.0
            &&& s.0 < pools.standardizes ==> g.standardize == s.0
            &&& after == s.1
        }),
{
}

/// A genome goes on where it left off: the genes of `m + n` nodes are those of
/// `m`, followed by those of `n` drawn from the state after them. There is one
/// set of genes for each node, and a genome of one node is one node's draw.
pub proof fn a_genome_goes_on(pools: GenePools, m: nat, n: nat, state: u64)
    ensures
        ({
            let head = genome_draw(pools, m, state);
            let tail = genome_draw(pools, n, head.1);
            let whole = genome_draw(pools, m + n, state);
            &&& whole.0 == head.0 + tail.0
            &&& whole.1 == tail.1
            &&& head.0.len() == m
            &&& tail.0.len() == n
        }),
        genome_draw(pools, 1, state).0 == seq![node_draw(pools, state).0],
        genome_draw(pools, 1, state).1 == node_draw(pools, state).1,
    decreases n, m,
{
    let head = genome_draw(pools, m, state);
    reveal_with_fuel(genome_draw, 2);
    assert(genome_draw(pools, 1, state).0 =~= seq![node_draw(pools, state).0]);
    if n > 0 {
        a_genome_goes_on(pools, m, (n - 1) as nat, state);
        let before = genome_draw(pools, (n - 1) as nat, head.1);
        assert((m + n - 1) as nat == m + (n - 1) as nat);
        assert(genome_draw(pools, m + n, state).0 =~= head.0 + genome_draw(pools, n, head.1).0);
    } else {
        assert(genome_draw(pools, 0, head.1).0 =~= Seq::empty());
        assert(genome_draw(pools, m, state).0 =~= head.0 + genome_draw(pools, 0, head.1).0);
        if m > 0 {
            a_genome_goes_on(pools, (m - 1) as nat, 0, state);
        }
    }
}

/// A shuffle draws a partner for every row but the first, from the last row
/// down, each from the state that the draw before left.
pub proof fn every_row_gets_a_partner(n: nat, state: u64)
    requires
        n <= usize::MAX,
    ensures
        swap_draws(n, state).len() == (if n == 0 {
            0
        } else {
            n - 1
        }),
        n > 1 ==> ({
            let d = u64_draw(state, 0, (n - 1) as u64);
            &&& d.0 < n ==> swap_draws(n, state)[0] == d.0
            &&& swap_draws(n, state).skip(1) == swap_draws((n - 1) as nat, d.1)
        }),
    decreases n,
{
    if n > 1 {
        let d = between_draw(state, 0, (n - 1) as usize);
        every_row_gets_a_partner((n - 1) as nat, d.1);
        assert(swap_draws(n, state).skip(1) =~= swap_draws((n - 1) as nat, d.1));
    }
}

/// The swaps from row `i` down put the partner's row in place `i` and leave
/// everything above it alone.
pub proof fn a_swap_settles_its_row(rows: Seq<usize>, i: int, swaps: Seq<usize>, k: int)
    requires
        0 <= i < rows.len(),
        swaps.len() <= i,
        forall|j: int| 0 <= j < swaps.len() ==> #[trigger] swaps[j] <= i - j,
        i <= k < rows.len(),
    ensures
        swapped_down(rows, i, swaps).len() == rows.len(),
        k > i ==> swapped_down(rows, i, swaps)[k] == rows[k],
        swaps.len() > 0 ==> swapped_down(rows, i, swaps)[i] == rows[swaps[0] as int],
        swaps.len() == 0 ==> swapped_down(rows, i, swaps) == rows,
    decreases swaps.len(),
{
    if swaps.len() > 0 {
        let next = swapped(rows, i, swaps[0] as int);
        assert forall|j: int| 0 <= j < swaps.skip(1).len() implies #[trigger] swaps.skip(1)[j] <= i
            - 1 - j by {
            assert(swaps.skip(1)[j] == swaps[j + 1]);
        }
        a_swap_settles_its_row(next, i - 1, swaps.skip(1), k);
        a_swap_settles_its_row(next, i - 1, swaps.skip(1), i);
    }
}

/// Different partners give different orders, so that every order is the result
/// of one choice of partners only.
pub proof fn different_partners_shuffle_differently(
    rows: Seq<usize>,
    i: int,
    a: Seq<usize>,
    b: Seq<usize>,
)
    requires
        0 <= i < rows.len(),
        a.len() == i,
        b.len() == i,
        rows.no_duplicates(),
        forall|j: int| 0 <= j < i ==> #[trigger] a[j] <= i - j,
        forall|j: int| 0 <= j < i ==> #[trigger] b[j] <= i - j,
        a != b,
    ensures
        swapped_down(rows, i, a) != swapped_down(rows, i, b),
    decreases i,
{
    if i == 0 {
        assert(a =~= b);
    } else {
        a_swap_settles_its_row(rows, i, a, i);
        a_swap_settles_its_row(rows, i, b, i);
        assert(rows[a[0] as int] == swapped_down(rows, i, a)[i]);
        assert(rows[b[0] as int] == swapped_down(rows, i, b)[i]);
        if a[0] == b[0] {
            let next = swapped(rows, i, a[0] as int);
            if a.skip(1) == b.skip(1) {
                assert forall|j: int| 0 <= j < i implies a[j] == b[j] by {
                    if j > 0 {
                        assert(a[j] == a.skip(1)[j - 1]);
                        assert(b[j] == b.skip(1)[j - 1]);
                    }
                }
                assert(a =~= b);
            }
            assert forall|j: int| 0 <= j < i - 1 implies #[trigger] a.skip(1)[j] <= i - 1 - j by {
                assert(a.skip(1)[j] == a[j + 1]);
            }
            assert forall|j: int| 0 <= j < i - 1 implies #[trigger] b.skip(1)[j] <= i - 1 - j by {
                assert(b.skip(1)[j] == b[j + 1]);
            }
            different_partners_shuffle_differently(next, i - 1, a.skip(1), b.skip(1));
        }
    }
}

// ── Derived seeds ────────────────────────────────────────────────────────

/// The seeds under a base begin with the base itself and lie one golden ratio of
/// the range apart, around the end of it where they reach it.
pub proof fn seeds_lie_a_golden_ratio_apart(base: u64, i: usize)
    requires
        i < usize::MAX,
    ensures
        derived_seed(base, 0) == base,
        derived_seed(base, (i + 1) as usize) == (derived_seed(base, i) + 0x9e37_79b9_7f4a_7c15)
            % 0x1_0000_0000_0000_0000,
{
    let m: int = 0x1_0000_0000_0000_0000;
    let g = GOLDEN as int;
    let x = i as int;
    let b = base as int;
    lemma_small_mod(base as nat, m as nat);
    assert((0u64).wrapping_mul(GOLDEN) == (0 * g) % m);
    assert((x + 1) * g == x * g + g) by (nonlinear_arith);
    assert(derived_seed(base, i) == (b + (x * g) % m) % m);
    assert(derived_seed(base, (i + 1) as usize) == (b + (x * g + g) % m) % m);
    vstd::arithmetic::div_mod::lemma_add_mod_noop(b, x * g + g, m);
    vstd::arithmetic::div_mod::lemma_add_mod_noop_right(b, x * g + g, m);
    vstd::arithmetic::div_mod::lemma_add_mod_noop_right(b, x * g, m);
    vstd::arithmetic::div_mod::lemma_add_mod_noop_right(g, b + x * g, m);
    vstd::arithmetic::div_mod::lemma_add_mod_noop_right(g, b + (x * g) % m, m);
    assert((g + (b + x * g)) % m == (b + (x * g + g)) % m);
}

/// Under different bases the same ordinal gives different seeds.
pub proof fn bases_are_told_apart(a: u64, b: u64, i: usize)
    requires
        a != b,
    ensures
        derived_seed(a, i) != derived_seed(b, i),
{
}

/// Of shuffled rows the first ones are held out and all others train, each in
/// its order.
pub proof fn the_first_rows_are_held_out(s: RowSplit, rows: Seq<usize>, count: int, i: int)
    requires
        0 <= count <= rows.len(),
        s.of_rows(rows, count),
    ensures
        s.eval@.len() == count,
        s.train@.len() == rows.len() - count,
        0 <= i < count ==> s.eval@[i] == rows[i],
        count <= i < rows.len() ==> s.train@[i - count] == rows[i],
        s.eval@ + s.train@ == rows,
{
    assert(s.eval@ + s.train@ =~= rows);
}

} // verus!
