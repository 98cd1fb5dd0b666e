//! One generation of a generational run: its seeds, its statistics, and the
//! steps from its population to the next.

use vstd::prelude::*;

use crate::options::{is_never, never, CrossoverMethod, MutationMethod};
use crate::race::{best_index, find_best};
use crate::score::{fires, roll_fires, Direction, Score};
use crate::seeds::{derive_seed, derived_seed, derived_seeds_are_distinct, draw_index, index_draw};
use crate::text::{decimal, decimal_text, pad_left, padded_text, same_text};

verus! {

// ── Seeds ────────────────────────────────────────────────────────────────

/// The ordinal of the batches that a generation trains on, or is tested on.
pub open spec fn batch_ordinal(generation: int, random_data: bool, test: bool) -> int {
    if random_data {
        generation * 3 + (if test {
            1int
        } else {
            0int
        })
    } else if test {
        usize::MAX as int
    } else {
        0
    }
}

/// The seed of the training batches: a new one for every generation, or the
/// same for all.
pub fn train_seed(run_seed: u64, generation: usize, random_data: bool) -> (r: u64)
    requires
        generation * 3 <= usize::MAX,
    ensures
        r == derived_seed(
            run_seed,
            if random_data {
                (generation * 3) as usize
            } else {
                0
            },
        ),
        r == derived_seed(
            run_seed,
            batch_ordinal(generation as int, random_data, false) as usize,
        ),
{
    if random_data {
        derive_seed(run_seed, generation * 3)
    } else {
        derive_seed(run_seed, 0)
    }
}

/// The seed of the test batches.
pub fn test_seed(run_seed: u64, generation: usize, random_data: bool) -> (r: u64)
    requires
        generation * 3 + 1 <= usize::MAX,
    ensures
        r == derived_seed(
            run_seed,
            if random_data {
                (generation * 3 + 1) as usize
            } else {
                usize::MAX
            },
        ),
        r == derived_seed(run_seed, batch_ordinal(generation as int, random_data, true) as usize),
{
    if random_data {
        derive_seed(run_seed, generation * 3 + 1)
    } else {
        derive_seed(run_seed, usize::MAX)
    }
}

/// The steps of a generation that draw at random.
#[derive(Clone, Copy, Debug, PartialEq, Eq, Structural)]
pub enum Draws {
    Selection,
    Crossover,
    Mutation,
}

/// The seed of a step of a generation.
pub open spec fn genetics_ordinal(generation: int, step: Draws) -> int {
    generation * 3 + (match step {
        Draws::Selection => 1int,
        Draws::Crossover => 2int,
        Draws::Mutation => 3int,
    })
}

pub fn genetics_seed(run_seed: u64, generation: usize, step: Draws) -> (r: u64)
    requires
        generation * 3 + 3 <= usize::MAX,
    ensures
        r == derived_seed(run_seed, genetics_ordinal(generation as int, step) as usize),
{
    let base: usize = generation * 3;
    match step {
        Draws::Selection => derive_seed(run_seed, base + 1),
        Draws::Crossover => derive_seed(run_seed, base + 2),
        Draws::Mutation => derive_seed(run_seed, base + 3),
    }
}

/// No two steps that draw share a seed, within a generation or across them.
pub proof fn genetics_seeds_differ(run_seed: u64, g: usize, a: Draws, h: usize, b: Draws)
    requires
        g * 3 + 3 <= usize::MAX,
        h * 3 + 3 <= usize::MAX,
        g != h || a != b,
    ensures
        derived_seed(run_seed, genetics_ordinal(g as int, a) as usize) != derived_seed(
            run_seed,
            genetics_ordinal(h as int, b) as usize,
        ),
{
    derived_seeds_are_distinct(
        run_seed,
        genetics_ordinal(g as int, a) as usize,
        genetics_ordinal(h as int, b) as usize,
    );
}

// ── Statistics ───────────────────────────────────────────────────────────

/// The places at which a key stands for the first time.
pub open spec fn first_places(keys: Seq<Option<Seq<char>>>) -> Seq<int>
    decreases keys.len(),
{
    if keys.len() == 0 {
        Seq::empty()
    } else {
        let rest = first_places(keys.drop_last());
        if keys.last() is Some && !keys.drop_last().contains(keys.last()) {
            rest.push(keys.len() - 1)
        } else {
            rest
        }
    }
}

/// The views of some keys.
pub open spec fn key_views(keys: Seq<Option<String>>) -> Seq<Option<Seq<char>>> {
    keys.map_values(
        |k: Option<String>|
            match k {
                Some(s) => Some(s@),
                None => None,
            },
    )
}

fn is_new_key(keys: &Vec<Option<String>>, n: usize) -> (r: bool)
    requires
        n < keys@.len(),
    ensures
        r == (key_views(keys@)[n as int] is Some && !key_views(keys@).take(n as int).contains(
            key_views(keys@)[n as int],
        )),
{
    let ghost all = key_views(keys@);
    match &keys[n] {
        None => false,
        Some(k) => {
            let mut i: usize = 0;
            while i < n
                invariant
                    i <= n,
                    n < keys@.len(),
                    all == key_views(keys@),
                    all[n as int] == Some(k@),
                    forall|j: int| 0 <= j < i ==> #[trigger] all[j] != all[n as int],
                decreases n - i,
            {
                if let Some(other) = &keys[i] {
                    if same_text(other.as_str(), k.as_str()) {
                        assert(all.take(n as int)[i as int] == all[n as int]);
                        return false;
                    }
                }
                i = i + 1;
            }
            assert forall|j: int| 0 <= j < n implies all.take(n as int)[j] != all[n as int] by {
                assert(all.take(n as int)[j] == all[j]);
            }
            true
        },
    }
}

/// Finds the places at which a key stands for the first time.
pub fn find_first_places(keys: &Vec<Option<String>>) -> (r: Vec<usize>)
    ensures
        r@.len() == first_places(key_views(keys@)).len(),
        forall|i: int|
            0 <= i < r@.len() ==> (#[trigger] r@[i]) == first_places(key_views(keys@))[i],
{
    let ghost all = key_views(keys@);
    let mut out: Vec<usize> = Vec::new();
    let mut n: usize = 0;
    assert(all.take(0) =~= Seq::empty());
    while n < keys.len()
        invariant
            n <= keys@.len(),
            all == key_views(keys@),
            out@.len() == first_places(all.take(n as int)).len(),
            forall|i: int|
                0 <= i < out@.len() ==> (#[trigger] out@[i]) == first_places(all.take(n as int))[i],
        decreases keys@.len() - n,
    {
        assert(all.take(n + 1).drop_last() =~= all.take(n as int));
        assert(all.take(n + 1).last() == all[n as int]);
        if is_new_key(keys, n) {
            out.push(n);
        }
        n = n + 1;
    }
    assert(all.take(keys@.len() as int) =~= all);
    out
}

/// A first place lies inside the list and holds a key that no earlier place
/// holds; every key has one.
pub proof fn first_places_are_the_distinct_keys(keys: Seq<Option<Seq<char>>>, i: int)
    ensures
        first_places(keys).contains(i) <==> 0 <= i < keys.len() && keys[i] is Some
            && !keys.take(i).contains(keys[i]),
    decreases keys.len(),
{
    if keys.len() > 0 {
        let front = keys.drop_last();
        let rest = first_places(front);
        let last = keys.len() - 1;
        first_places_are_the_distinct_keys(front, i);
        if 0 <= i < last {
            assert(front.take(i) =~= keys.take(i));
        }
        if i == last {
            assert(keys.take(i) =~= front);
        }
        let all = first_places(keys);
        if rest.contains(i) {
            let k = choose|k: int| 0 <= k < rest.len() && rest[k] == i;
            assert(all[k] == i);
        }
        if keys.last() is Some && !front.contains(keys.last()) {
            assert(all[rest.len() as int] == last);
        }
        if all.contains(i) {
            let k = choose|k: int| 0 <= k < all.len() && all[k] == i;
            if k < rest.len() {
                assert(rest[k] == i);
            }
        }
    }
}

/// What a generation came to. The means are computed by the caller.
#[derive(Clone, Copy, Debug, PartialEq, Eq, Structural)]
pub struct GenStats {
    pub best_idx: usize,
    pub worst_idx: usize,
    pub best_score: Score,
    pub best_loss: Option<Score>,
    pub worst_score: Score,
    pub worst_loss: Option<Score>,
    pub best_params: usize,
    pub worst_params: usize,
    /// Different topologies.
    pub unique_topos: usize,
}

/// The loss at a place, if it was measured.
pub open spec fn loss_at(losses: Seq<Option<Score>>, i: int) -> Option<Score> {
    if i < losses.len() {
        losses[i]
    } else {
        None
    }
}

fn get_loss(losses: &Vec<Option<Score>>, i: usize) -> (r: Option<Score>)
    ensures
        r == loss_at(losses@, i as int),
{
    if i < losses.len() {
        losses[i]
    } else {
        None
    }
}

/// The statistics are those of a generation: of its best and its worst
/// individual, and of how many topologies there are.
pub open spec fn summed_up(
    r: GenStats,
    scores: Seq<Score>,
    losses: Seq<Option<Score>>,
    params: Seq<usize>,
    direction: Direction,
    keys: Seq<Option<Seq<char>>>,
) -> bool {
    let best = best_index(direction, scores);
    let worst = best_index(direction.flipped(), scores);
    &&& r.best_idx == best && r.worst_idx == worst
    &&& r.best_score == scores[best] && r.worst_score == scores[worst]
    &&& r.best_loss == loss_at(losses, best) && r.worst_loss == loss_at(losses, worst)
    &&& r.best_params == params[best] && r.worst_params == params[worst]
    &&& r.unique_topos == first_places(keys).len()
}

/// Computes the statistics of a generation. `keys` holds a text per topology
/// that is the same for equal ones, if it has one.
pub fn compute_gen_stats(
    scores: &Vec<Score>,
    losses: &Vec<Option<Score>>,
    params: &Vec<usize>,
    direction: Direction,
    keys: &Vec<Option<String>>,
) -> (r: GenStats)
    requires
        scores@.len() > 0,
        params@.len() == scores@.len(),
    ensures
        r.best_idx == best_index(direction, scores@),
        r.worst_idx == best_index(direction.flipped(), scores@),
        r.best_idx < scores@.len(),
        r.worst_idx < scores@.len(),
        r.best_score == scores@[r.best_idx as int],
        r.worst_score == scores@[r.worst_idx as int],
        r.best_loss == loss_at(losses@, r.best_idx as int),
        r.worst_loss == loss_at(losses@, r.worst_idx as int),
        r.best_params == params@[r.best_idx as int],
        r.worst_params == params@[r.worst_idx as int],
        r.unique_topos == first_places(key_views(keys@)).len(),
        summed_up(r, scores@, losses@, params@, direction, key_views(keys@)),
{
    let best_idx: usize = find_best(direction, scores);
    let worst_idx: usize = find_best(direction.flip(), scores);
    let first = find_first_places(keys);
    GenStats {
        best_idx,
        worst_idx,
        best_score: scores[best_idx],
        best_loss: get_loss(losses, best_idx),
        worst_score: scores[worst_idx],
        worst_loss: get_loss(losses, worst_idx),
        best_params: params[best_idx],
        worst_params: params[worst_idx],
        unique_topos: first.len(),
    }
}

/// A number that is neither infinite nor a NaN.
pub open spec fn finite(s: Score) -> bool {
    s.magnitude() < 0x7f80_0000
}

/// The finite numbers, in order.
pub open spec fn finite_scores(scores: Seq<Score>) -> Seq<Score> {
    scores.filter(|s: Score| finite(s))
}

/// The numbers a mean is taken over: infinite ones and NaNs are left out.
pub fn keep_finite(scores: &Vec<Score>) -> (r: Vec<Score>)
    ensures
        r@ == finite_scores(scores@),
{
    let mut out: Vec<Score> = Vec::new();
    let mut i: usize = 0;
    let ghost keep = |s: Score| finite(s);
    assert(scores@.take(0).filter(keep) =~= Seq::empty()) by {
        reveal(Seq::filter);
    }
    while i < scores.len()
        invariant
            i <= scores@.len(),
            keep == (|s: Score| finite(s)),
            out@ == scores@.take(i as int).filter(keep),
        decreases scores@.len() - i,
    {
        let s = scores[i];
        proof {
            assert(scores@.take(i + 1).drop_last() =~= scores@.take(i as int));
            assert(scores@.take(i + 1).last() == s);
            reveal(Seq::filter);
        }
        let m: u32 = if s.bits >= 0x8000_0000 {
            s.bits - 0x8000_0000
        } else {
            s.bits
        };
        if m < 0x7f80_0000 {
            out.push(s);
        }
        i = i + 1;
    }
    assert(scores@.take(scores@.len() as int) =~= scores@);
    out
}

/// A generation did better than every one before it, or is the first.
pub open spec fn is_progress(
    direction: Direction,
    best_so_far: Option<Score>,
    best_score: Score,
) -> bool {
    match best_so_far {
        Some(b) => direction.better(best_score, b),
        None => true,
    }
}

/// Whether a generation's best beats the best so far; the first one does.
pub fn improves(direction: Direction, best_so_far: Option<Score>, best_score: Score) -> (r: bool)
    ensures
        r == (match best_so_far {
            Some(b) => direction.better(best_score, b),
            None => true,
        }),
        r == is_progress(direction, best_so_far, best_score),
{
    match best_so_far {
        Some(b) => direction.is_better(best_score, b),
        None => true,
    }
}

// ── Selection and crossover ──────────────────────────────────────────────

/// How many different places some picks name.
pub open spec fn places_named(picks: Seq<usize>, n: nat) -> nat
    decreases n,
{
    if n == 0 {
        0
    } else {
        places_named(picks, (n - 1) as nat) + (if picks.contains((n - 1) as usize) {
            1nat
        } else {
            0nat
        })
    }
}

/// Counts the individuals that survive a selection, each once.
pub fn count_survivors(picks: &Vec<usize>, pop_size: usize) -> (r: usize)
    ensures
        r == places_named(picks@, pop_size as nat),
        r <= pop_size,
{
    let mut count: usize = 0;
    let mut n: usize = 0;
    while n < pop_size
        invariant
            n <= pop_size,
            count <= n,
            count == places_named(picks@, n as nat),
        decreases pop_size - n,
    {
        let mut found = false;
        let mut k: usize = 0;
        while k < picks.len()
            invariant
                k <= picks@.len(),
                found == picks@.take(k as int).contains(n),
            decreases picks@.len() - k,
        {
            let ghost before = picks@.take(k as int);
            let ghost after = picks@.take(k + 1);
            proof {
                assert(after =~= before.push(picks@[k as int]));
                if before.contains(n) {
                    let j = choose|j: int| 0 <= j < before.len() && before[j] == n;
                    assert(after[j] == n);
                }
                if after.contains(n) && picks@[k as int] != n {
                    let j = choose|j: int| 0 <= j < after.len() && after[j] == n;
                    assert(before[j] == n);
                }
                if picks@[k as int] == n {
                    assert(after[k as int] == n);
                }
            }
            if picks[k] == n {
                found = true;
            }
            k = k + 1;
        }
        assert(picks@.take(picks@.len() as int) =~= picks@);
        if found {
            count = count + 1;
        }
        n = n + 1;
    }
    count
}

/// The scores of the selected individuals, in the new order.
pub fn reorder_scores(scores: &Vec<Score>, picks: &Vec<usize>) -> (r: Vec<Score>)
    requires
        forall|k: int| 0 <= k < picks@.len() ==> (#[trigger] picks@[k]) < scores@.len(),
    ensures
        r@ == Seq::new(picks@.len(), |k: int| scores@[picks@[k] as int]),
{
    let mut out: Vec<Score> = Vec::new();
    let mut k: usize = 0;
    while k < picks.len()
        invariant
            k <= picks@.len(),
            forall|j: int| 0 <= j < picks@.len() ==> (#[trigger] picks@[j]) < scores@.len(),
            out@ =~= Seq::new(k as nat, |j: int| scores@[picks@[j] as int]),
        decreases picks@.len() - k,
    {
        let i: usize = picks[k];
        out.push(scores[i]);
        k = k + 1;
    }
    out
}

/// The pairs of neighbours that a crossover may combine.
pub open spec fn neighbour_pairs(pop_size: nat) -> Seq<(usize, usize)> {
    Seq::new(pop_size / 2, |k: int| ((2 * k) as usize, (2 * k + 1) as usize))
}

/// The pairs that a crossover of this kind may combine: none if it never
/// happens.
pub fn crossover_pairs(pop_size: usize, kind: &CrossoverMethod) -> (r: Vec<(usize, usize)>)
    ensures
        r@ == (if never(kind.prob_of()) {
            Seq::<(usize, usize)>::empty()
        } else {
            neighbour_pairs(pop_size as nat)
        }),
{
    let mut out: Vec<(usize, usize)> = Vec::new();
    if is_never(kind.action_prob()) {
        return out;
    }
    let half: usize = pop_size / 2;
    let mut k: usize = 0;
    while k < half
        invariant
            k <= half,
            half == pop_size / 2,
            out@ =~= neighbour_pairs(pop_size as nat).take(k as int),
        decreases half - k,
    {
        out.push((2 * k, 2 * k + 1));
        k = k + 1;
    }
    assert(out@ =~= neighbour_pairs(pop_size as nat));
    out
}

/// Every individual is in at most one pair, and in one unless it is the last of
/// an odd number; the one that comes first in the population is the first of its
/// pair.
pub proof fn pairs_are_disjoint(pop_size: usize, i: usize)
    requires
        i < pop_size,
    ensures
        ({
            let pairs = neighbour_pairs(pop_size as nat);
            let k = (i / 2) as int;
            &&& k < pairs.len() ==> pairs[k].0 == i || pairs[k].1 == i
            &&& k < pairs.len() <==> !(pop_size % 2 == 1 && i == pop_size - 1)
            &&& forall|j: int|
                0 <= j < pairs.len() && j != k ==> (#[trigger] pairs[j]).0 != i && pairs[j].1 != i
            &&& forall|j: int| 0 <= j < pairs.len() ==> (#[trigger] pairs[j]).0 < pairs[j].1
        }),
{
}

/// Whether a pair is crossed: its roll lies below the probability.
pub fn pair_crosses(roll: Score, kind: &CrossoverMethod) -> (r: bool)
    ensures
        r == roll.below(kind.prob_of()),
{
    roll.less_than(kind.action_prob())
}

// ── Mutation ─────────────────────────────────────────────────────────────

/// The places of the hidden nodes.
pub open spec fn hidden_places(hidden: Seq<bool>) -> Seq<usize>
    decreases hidden.len(),
{
    if hidden.len() == 0 {
        Seq::empty()
    } else if hidden.last() {
        hidden_places(hidden.drop_last()).push((hidden.len() - 1) as usize)
    } else {
        hidden_places(hidden.drop_last())
    }
}

pub fn find_hidden(hidden: &Vec<bool>) -> (r: Vec<usize>)
    ensures
        r@ == hidden_places(hidden@),
{
    let mut out: Vec<usize> = Vec::new();
    let mut i: usize = 0;
    assert(hidden@.take(0) =~= Seq::empty());
    while i < hidden.len()
        invariant
            i <= hidden@.len(),
            out@ == hidden_places(hidden@.take(i as int)),
        decreases hidden@.len() - i,
    {
        assert(hidden@.take(i + 1).drop_last() =~= hidden@.take(i as int));
        if hidden[i] {
            out.push(i);
        }
        i = i + 1;
    }
    assert(hidden@.take(hidden@.len() as int) =~= hidden@);
    out
}

/// What a mutation does: it gives one hidden node the entry of a pool.
#[derive(Clone, Copy, Debug, PartialEq, Eq, Structural)]
pub struct Mutation {
    pub node: usize,
    pub entry: usize,
}

/// The sizes of the pools.
#[derive(Clone, Copy, Debug, PartialEq, Eq, Structural)]
pub struct PoolSizes {
    pub activations: usize,
    pub combine_ops: usize,
    pub standardize_ops: usize,
}

/// The size of the pool a mutation draws from.
pub open spec fn pool_of(method: MutationMethod, sizes: PoolSizes) -> usize {
    match method {
        MutationMethod::Activation { prob } => sizes.activations,
        MutationMethod::CombineOp { prob } => sizes.combine_ops,
        MutationMethod::Standardize { prob } => sizes.standardize_ops,
    }
}

/// The mutation of an individual whose roll came up, and the state of the
/// generator after it: no draw without a hidden node, one for the node, one
/// more for the entry if the pool holds any.
pub open spec fn mutation_draw(
    hidden: Seq<bool>,
    method: MutationMethod,
    sizes: PoolSizes,
    state: u64,
) -> (Option<Mutation>, u64) {
    let places = hidden_places(hidden);
    if places.len() == 0 {
        (None, state)
    } else {
        let (k, s1) = index_draw(state, places.len() as usize);
        if pool_of(method, sizes) == 0 {
            (None, s1)
        } else {
            let (e, s2) = index_draw(s1, pool_of(method, sizes));
            (Some(Mutation { node: places[k as int], entry: e }), s2)
        }
    }
}

proof fn hidden_places_are_hidden(hidden: Seq<bool>, k: int)
    requires
        0 <= k < hidden_places(hidden).len(),
        hidden.len() <= usize::MAX,
    ensures
        hidden_places(hidden)[k] < hidden.len(),
        hidden[hidden_places(hidden)[k] as int],
    decreases hidden.len(),
{
    let rest = hidden_places(hidden.drop_last());
    if k < rest.len() {
        hidden_places_are_hidden(hidden.drop_last(), k);
    }
}

/// Draws the mutation of an individual whose roll came up.
pub fn draw_mutation(
    hidden: &Vec<bool>,
    method: &MutationMethod,
    sizes: PoolSizes,
    state: u64,
) -> (r: (Option<Mutation>, u64))
    ensures
        r == mutation_draw(hidden@, *method, sizes, state),
        r.0 matches Some(m) ==> m.node < hidden@.len() && hidden@[m.node as int] && m.entry
            < pool_of(*method, sizes),
{
    let places = find_hidden(hidden);
    if places.len() == 0 {
        return (None, state);
    }
    let (k, s1) = draw_index(state, places.len());
    let pool: usize = match method {
        MutationMethod::Activation { .. } => sizes.activations,
        MutationMethod::CombineOp { .. } => sizes.combine_ops,
        MutationMethod::Standardize { .. } => sizes.standardize_ops,
    };
    if pool == 0 {
        return (None, s1);
    }
    let (e, s2) = draw_index(s1, pool);
    proof {
        assert(hidden@.len() == hidden.len());
        hidden_places_are_hidden(hidden@, k as int);
    }
    (Some(Mutation { node: places[k], entry: e }), s2)
}

/// Whether an individual is mutated. A mutation that never happens rolls for
/// nobody.
pub fn mutates(roll: Score, method: &MutationMethod) -> (r: bool)
    ensures
        r == (!never(method.prob_of()) && fires(roll, method.prob_of())),
{
    !is_never(method.prob()) && roll_fires(roll, method.prob())
}

// ── Refill ───────────────────────────────────────────────────────────────

/// The first ordinal of refilled individuals; those of the first generation lie
/// below it.
pub const REFILL_BASE: usize = 1_000_000;

/// The ordinal of refilled individual `k`.
pub open spec fn refill_ordinal(generation: int, target: int, left: int, k: int) -> int {
    REFILL_BASE + generation * target + left + k
}

/// The seeds of the individuals that fill a population of `left` up to
/// `target`.
pub fn refill_seeds(run_seed: u64, generation: usize, target: usize, left: usize) -> (r: Vec<u64>)
    requires
        refill_ordinal(generation as int, target as int, target as int, 0) <= usize::MAX,
    ensures
        r@.len() == (if left >= target {
            0
        } else {
            target - left
        }),
        forall|k: int|
            0 <= k < r@.len() ==> (#[trigger] r@[k]) == derived_seed(
                run_seed,
                refill_ordinal(generation as int, target as int, left as int, k) as usize,
            ),
{
    let mut out: Vec<u64> = Vec::new();
    if left >= target {
        return out;
    }
    let needed: usize = target - left;
    assert(generation * target >= 0) by (nonlinear_arith);
    let base: usize = REFILL_BASE + generation * target + left;
    let mut k: usize = 0;
    while k < needed
        invariant
            k <= needed,
            left + needed == target,
            base == refill_ordinal(generation as int, target as int, left as int, 0),
            base + needed <= usize::MAX,
            out@.len() == k,
            forall|j: int|
                0 <= j < k ==> (#[trigger] out@[j]) == derived_seed(
                    run_seed,
                    refill_ordinal(generation as int, target as int, left as int, j) as usize,
                ),
        decreases needed - k,
    {
        out.push(derive_seed(run_seed, base + k));
        k = k + 1;
    }
    out
}

/// Refilled individuals never share a seed with one of the first generation,
/// nor with a refilled one of another generation.
pub proof fn refill_seeds_are_new(
    run_seed: u64,
    target: usize,
    g: usize,
    left: usize,
    k: int,
    h: usize,
    left_h: usize,
    k_h: int,
    founder: usize,
)
    requires
        target <= REFILL_BASE,
        founder < target,
        0 <= k < target - left,
        0 <= k_h < target - left_h,
        g < h,
        refill_ordinal(h as int, target as int, target as int, 0) <= usize::MAX,
    ensures
        ({
            let a = refill_ordinal(g as int, target as int, left as int, k) as usize;
            let b = refill_ordinal(h as int, target as int, left_h as int, k_h) as usize;
            &&& derived_seed(run_seed, a) != derived_seed(run_seed, founder)
            &&& derived_seed(run_seed, a) != derived_seed(run_seed, b)
        }),
{
    let a = refill_ordinal(g as int, target as int, left as int, k);
    let b = refill_ordinal(h as int, target as int, left_h as int, k_h);
    assert(g * target >= 0 && (g + 1) * target <= h * target && (g + 1) * target == g * target
        + target) by (nonlinear_arith)
        requires
            g < h,
    ;
    assert(a < b);
    derived_seeds_are_distinct(run_seed, a as usize, founder);
    derived_seeds_are_distinct(run_seed, a as usize, b as usize);
}

// ── The steps of a generation ────────────────────────────────────────────

/// What comes next on the way to the next generation.
#[derive(Clone, Copy, Debug, PartialEq, Eq, Structural)]
pub enum GenStep {
    Select,
    Cross,
    /// Take out repeated topologies.
    Dedup,
    Refill,
    /// Take out what the refill repeated.
    DedupAgain,
    Mutate,
    Done,
}

/// The step after `step`; `added` individuals were refilled.
pub open spec fn next_gen_step(step: GenStep, dedup: bool, added: usize) -> GenStep {
    match step {
        GenStep::Select => GenStep::Cross,
        GenStep::Cross => if dedup {
            GenStep::Dedup
        } else {
            GenStep::Refill
        },
        GenStep::Dedup => GenStep::Refill,
        GenStep::Refill => if dedup && added > 0 {
            GenStep::DedupAgain
        } else {
            GenStep::Mutate
        },
        GenStep::DedupAgain => GenStep::Mutate,
        GenStep::Mutate => GenStep::Done,
        GenStep::Done => GenStep::Done,
    }
}

impl GenStep {
    pub fn next(self, dedup: bool, added: usize) -> (r: GenStep)
        ensures
            r == next_gen_step(self, dedup, added),
    {
        match self {
            GenStep::Select => GenStep::Cross,
            GenStep::Cross => if dedup {
                GenStep::Dedup
            } else {
                GenStep::Refill
            },
            GenStep::Dedup => GenStep::Refill,
            GenStep::Refill => if dedup && added > 0 {
                GenStep::DedupAgain
            } else {
                GenStep::Mutate
            },
            GenStep::DedupAgain => GenStep::Mutate,
            GenStep::Mutate => GenStep::Done,
            GenStep::Done => GenStep::Done,
        }
    }

    /// How far along a step is.
    pub open spec fn rank(self) -> int {
        match self {
            GenStep::Select => 0,
            GenStep::Cross => 1,
            GenStep::Dedup => 2,
            GenStep::Refill => 3,
            GenStep::DedupAgain => 4,
            GenStep::Mutate => 5,
            GenStep::Done => 6,
        }
    }
}

/// A generation ends, its steps come in one order, and without deduplication
/// nothing is taken out.
pub proof fn generations_end(step: GenStep, dedup: bool, added: usize)
    ensures
        step != GenStep::Done ==> next_gen_step(step, dedup, added).rank() > step.rank(),
        !dedup ==> next_gen_step(step, dedup, added) != GenStep::Dedup && next_gen_step(
            step,
            dedup,
            added,
        ) != GenStep::DedupAgain,
{
}

/// What each step follows: nothing is skipped. Done is entered from Mutate
/// alone, Mutate from a refill, a refill from the crossover, the crossover from
/// the selection.
pub proof fn no_step_is_skipped(step: GenStep, dedup: bool, added: usize)
    requires
        step != GenStep::Done,
    ensures
        ({
            let after = next_gen_step(step, dedup, added);
            &&& after == GenStep::Done <==> step == GenStep::Mutate
            &&& after == GenStep::Mutate <==> step == GenStep::DedupAgain || (step
                == GenStep::Refill && !(dedup && added > 0))
            &&& after == GenStep::DedupAgain <==> step == GenStep::Refill && dedup && added > 0
            &&& after == GenStep::Refill <==> step == GenStep::Dedup || (step == GenStep::Cross
                && !dedup)
            &&& after == GenStep::Dedup <==> step == GenStep::Cross && dedup
            &&& after == GenStep::Cross <==> step == GenStep::Select
            &&& after != GenStep::Select
        }),
{
}

/// The steps of a generation, each following the one before. `added` says how
/// many individuals had been refilled at each of them.
pub open spec fn gone_through(steps: Seq<GenStep>, dedup: bool, added: Seq<usize>) -> bool {
    &&& steps.len() > 0
    &&& steps[0] == GenStep::Select
    &&& steps.last() == GenStep::Done
    &&& added.len() == steps.len()
    &&& forall|i: int| 0 <= i < steps.len() - 1 ==> #[trigger] follows(steps, dedup, added, i)
}

/// The step behind place `i` follows the one at it.
pub open spec fn follows(steps: Seq<GenStep>, dedup: bool, added: Seq<usize>, i: int) -> bool {
    &&& steps[i] != GenStep::Done
    &&& steps[i + 1] == next_gen_step(steps[i], dedup, added[i])
}

/// Every generation selects, crosses, refills and mutates, each exactly once and
/// in this order, whatever is taken out or refilled on the way. With
/// deduplication, repeats are taken out before the refill, and once more behind
/// it if the refill added anybody; without it, never.
pub proof fn every_generation_does_everything(steps: Seq<GenStep>, dedup: bool, added: Seq<usize>)
    requires
        gone_through(steps, dedup, added),
    ensures
        !dedup ==> steps == seq![
            GenStep::Select,
            GenStep::Cross,
            GenStep::Refill,
            GenStep::Mutate,
            GenStep::Done,
        ],
        dedup && added[3] == 0 ==> steps == seq![
            GenStep::Select,
            GenStep::Cross,
            GenStep::Dedup,
            GenStep::Refill,
            GenStep::Mutate,
            GenStep::Done,
        ],
        dedup && added[3] > 0 ==> steps == seq![
            GenStep::Select,
            GenStep::Cross,
            GenStep::Dedup,
            GenStep::Refill,
            GenStep::DedupAgain,
            GenStep::Mutate,
            GenStep::Done,
        ],
{
    let n = steps.len() as int;
    assert(steps.last() == steps[n - 1]);
    assert(n > 1 && follows(steps, dedup, added, 0));
    assert(n > 2 && follows(steps, dedup, added, 1));
    assert(n > 3 && follows(steps, dedup, added, 2));
    assert(n > 4 && follows(steps, dedup, added, 3));
    if dedup {
        assert(n > 5 && follows(steps, dedup, added, 4));
        if added[3] > 0 {
            assert(n > 6 && follows(steps, dedup, added, 5));
            assert(n > 7 ==> follows(steps, dedup, added, 6));
        } else {
            assert(n > 6 ==> follows(steps, dedup, added, 5));
        }
    } else {
        assert(n > 5 ==> follows(steps, dedup, added, 4));
    }
}

// ── Files ────────────────────────────────────────────────────────────────

/// Where the data of a run is found.
#[derive(Clone, Copy, Debug, PartialEq, Eq, Structural)]
pub enum DataSource {
    /// Converted before.
    Cached,
    /// Tensor files of the user.
    Direct,
    /// A table that has to be converted.
    Table,
}

/// Which of the data found is used: what was converted before comes first, then
/// tensor files, then a table.
pub fn data_source(cached: bool, direct: bool, table: bool) -> (r: Option<DataSource>)
    ensures
        r == (if cached {
            Some(DataSource::Cached)
        } else if direct {
            Some(DataSource::Direct)
        } else if table {
            Some(DataSource::Table)
        } else {
            None
        }),
{
    if cached {
        Some(DataSource::Cached)
    } else if direct {
        Some(DataSource::Direct)
    } else if table {
        Some(DataSource::Table)
    } else {
        None
    }
}

/// The name of a generation's file, with at least `width` digits.
pub fn gen_file_name(generation: usize, width: usize, extension: &str) -> (r: String)
    ensures
        r@ == "gen_"@ + padded_text(decimal_text(generation as nat), '0', width as nat) + "."@
            + extension@,
{
    proof {
        reveal_strlit("0");
    }
    let mut out = String::from_str("gen_");
    out.append(pad_left(decimal(generation as u64).as_str(), "0", width).as_str());
    out.append(".");
    out.append(extension);
    out
}

/// The hidden places are all the places of hidden nodes, each once, in order.
pub proof fn hidden_places_are_all_of_them(hidden: Seq<bool>)
    requires
        hidden.len() <= usize::MAX,
    ensures
        forall|p: int|
            0 <= p < hidden.len() && #[trigger] hidden[p] ==> hidden_places(hidden).contains(
                p as usize,
            ),
        forall|k: int|
            0 <= k < hidden_places(hidden).len() ==> (#[trigger] hidden_places(hidden)[k])
                < hidden.len() && hidden[hidden_places(hidden)[k] as int],
        forall|j: int, k: int|
            0 <= j < k < hidden_places(hidden).len() ==> (#[trigger] hidden_places(hidden)[j])
                < #[trigger] hidden_places(hidden)[k],
    decreases hidden.len(),
{
    if hidden.len() > 0 {
        let front = hidden.drop_last();
        hidden_places_are_all_of_them(front);
        let before = hidden_places(front);
        let all = hidden_places(hidden);
        assert forall|p: int| 0 <= p < hidden.len() && #[trigger] hidden[p] implies all.contains(
            p as usize,
        ) by {
            if p < hidden.len() - 1 {
                assert(front[p]);
                let m = choose|m: int| 0 <= m < before.len() && before[m] == p as usize;
                assert(all[m] == p as usize);
            } else {
                assert(all[before.len() as int] == p as usize);
            }
        }
        assert forall|k: int| 0 <= k < all.len() implies (#[trigger] all[k]) < hidden.len()
            && hidden[all[k] as int] by {
            if k < before.len() {
                assert(all[k] == before[k]);
                assert(front[before[k] as int]);
            }
        }
        assert forall|j: int, k: int| 0 <= j < k < all.len() implies (#[trigger] all[j])
            < #[trigger] all[k] by {
            assert(all[j] == before[j]);
            if k < before.len() {
                assert(all[k] == before[k]);
            }
        }
    }
}

/// A mutation changes the hidden node that the generator names, to the entry
/// that it names next, out of the pool that the method is about. Nothing is
/// drawn without a hidden node, and nothing changes without an entry.
pub proof fn a_mutation_is_drawn(
    hidden: Seq<bool>,
    method: MutationMethod,
    sizes: PoolSizes,
    state: u64,
)
    requires
        hidden.len() <= usize::MAX,
    ensures
        ({
            let places = hidden_places(hidden);
            let entries = match method {
                MutationMethod::Activation { .. } => sizes.activations,
                MutationMethod::CombineOp { .. } => sizes.combine_ops,
                MutationMethod::Standardize { .. } => sizes.standardize_ops,
            };
            let node = crate::seeds::u64_draw(state, 0, (places.len() - 1) as u64);
            let entry = crate::seeds::u64_draw(node.1, 0, (entries - 1) as u64);
            let (r, after) = mutation_draw(hidden, method, sizes, state);
            &&& (forall|p: int| 0 <= p < hidden.len() ==> !#[trigger] hidden[p]) ==> r is None
                && after == state
            &&& (exists|p: int| 0 <= p < hidden.len() && #[trigger] hidden[p]) ==> {
                &&& entries == 0 ==> r is None && after == node.1
                &&& entries > 0 ==> r is Some && after == entry.1
                &&& entries > 0 && node.0 < places.len() ==> r->0.node == places[node.0 as int]
                &&& entries > 0 && entry.0 < entries ==> r->0.entry == entry.0
            }
        }),
{
    let places = hidden_places(hidden);
    hidden_places_are_all_of_them(hidden);
    if exists|p: int| 0 <= p < hidden.len() && #[trigger] hidden[p] {
        let p = choose|p: int| 0 <= p < hidden.len() && #[trigger] hidden[p];
        assert(places.contains(p as usize));
    }
    if places.len() > 0 {
        assert(hidden[places[0] as int]);
    }
    hidden_places_are_few(hidden);
}

proof fn hidden_places_are_few(hidden: Seq<bool>)
    ensures
        hidden_places(hidden).len() <= hidden.len(),
    decreases hidden.len(),
{
    if hidden.len() > 0 {
        hidden_places_are_few(hidden.drop_last());
    }
}

/// Survivors are counted as individuals, however often each was selected: as
/// many as there are different places below `n` among the picks.
pub proof fn survivors_are_counted_once(picks: Seq<usize>, n: nat)
    requires
        n <= usize::MAX,
    ensures
        picks.to_set().filter(|p: usize| p < n).finite(),
        places_named(picks, n) == picks.to_set().filter(|p: usize| p < n).len(),
    decreases n,
{
    broadcast use vstd::seq_lib::group_seq_properties;

    let now = picks.to_set().filter(|p: usize| p < n);
    assert(picks.to_set().finite()) by {
        vstd::seq_lib::seq_to_set_is_finite(picks);
    }
    if n == 0 {
        assert(now =~= Set::empty());
    } else {
        let before = picks.to_set().filter(|p: usize| p < n - 1);
        survivors_are_counted_once(picks, (n - 1) as nat);
        assert(before =~= picks.to_set().filter(|p: usize| p < (n - 1) as nat));
        let q = (n - 1) as usize;
        if picks.contains(q) {
            assert(picks.to_set().contains(q));
            assert(now =~= before.insert(q));
            assert(!before.contains(q));
        } else {
            assert(!picks.to_set().contains(q));
            assert(now =~= before);
        }
    }
}

/// What a mean is taken over, number by number: those of two lists are those of
/// the first, followed by those of the second, and one number counts unless it is
/// infinite or none at all.
pub proof fn only_finite_numbers_count(a: Seq<Score>, b: Seq<Score>, s: Score)
    ensures
        finite_scores(a + b) == finite_scores(a) + finite_scores(b),
        finite_scores(seq![s]) == (if -0x7f80_0000 < s.key() < 0x7f80_0000 {
            seq![s]
        } else {
            Seq::<Score>::empty()
        }),
{
    let keep = |x: Score| finite(x);
    Seq::filter_distributes_over_add(a, b, keep);
    reveal_with_fuel(Seq::filter, 2);
    assert(seq![s].drop_last() =~= Seq::<Score>::empty());
    assert(finite_scores(seq![s]) =~= (if finite(s) {
        seq![s]
    } else {
        Seq::<Score>::empty()
    }));
}

/// Ordinals follow one another: the steps of a generation draw one behind the
/// other, the first of all with ordinal 1, and the next generation goes on where
/// this one ends. Individuals that refill a population do the same from ordinal
/// 1000000 on, with room for a whole population in each generation.
pub proof fn ordinals_follow_one_another(generation: int, target: int, left: int, k: int)
    ensures
        genetics_ordinal(0, Draws::Selection) == 1,
        genetics_ordinal(generation, Draws::Crossover) == genetics_ordinal(
            generation,
            Draws::Selection,
        ) + 1,
        genetics_ordinal(generation, Draws::Mutation) == genetics_ordinal(
            generation,
            Draws::Crossover,
        ) + 1,
        genetics_ordinal(generation + 1, Draws::Selection) == genetics_ordinal(
            generation,
            Draws::Mutation,
        ) + 1,
        refill_ordinal(0, target, 0, 0) == 1_000_000,
        refill_ordinal(generation, target, left, k + 1) == refill_ordinal(
            generation,
            target,
            left,
            k,
        ) + 1,
        refill_ordinal(generation, target, left + 1, k) == refill_ordinal(
            generation,
            target,
            left,
            k,
        ) + 1,
        refill_ordinal(generation + 1, target, left, k) == refill_ordinal(
            generation,
            target,
            left,
            k,
        ) + target,
{
    assert((generation + 1) * target == generation * target + target) by (nonlinear_arith);
    assert(0 * target == 0) by (nonlinear_arith);
}

/// The first places come in order, each once.
pub proof fn first_places_ascend(keys: Seq<Option<Seq<char>>>)
    ensures
        forall|j: int, k: int|
            0 <= j < k < first_places(keys).len() ==> (#[trigger] first_places(keys)[j]) < (
            #[trigger] first_places(keys)[k]),
        forall|k: int|
            0 <= k < first_places(keys).len() ==> 0 <= (#[trigger] first_places(keys)[k])
                < keys.len(),
    decreases keys.len(),
{
    if keys.len() > 0 {
        first_places_ascend(keys.drop_last());
        let rest = first_places(keys.drop_last());
        let all = first_places(keys);
        assert forall|k: int| 0 <= k < all.len() implies 0 <= (#[trigger] all[k]) < keys.len() by {
            if k < rest.len() {
                assert(all[k] == rest[k]);
            }
        }
        assert forall|j: int, k: int| 0 <= j < k < all.len() implies (#[trigger] all[j]) < (
        #[trigger] all[k]) by {
            assert(all[j] == rest[j]);
            if k < rest.len() {
                assert(all[k] == rest[k]);
            }
        }
    }
}

/// Fixed data is the same in every generation, random data in none; what a
/// generation trains on is never what it is tested on.
pub proof fn batches_are_told_apart(run_seed: u64, g: usize, h: usize)
    requires
        g != h,
        g * 3 + 1 < usize::MAX,
        h * 3 + 1 < usize::MAX,
    ensures
        ({
            let seed = |generation: usize, random: bool, test: bool|
                derived_seed(
                    run_seed,
                    batch_ordinal(generation as int, random, test) as usize,
                );
            &&& seed(g, false, false) == seed(h, false, false)
            &&& seed(g, false, true) == seed(h, false, true)
            &&& seed(g, false, false) != seed(g, false, true)
            &&& seed(g, true, false) != seed(g, true, true)
            &&& seed(g, true, false) != seed(h, true, false)
            &&& seed(g, true, true) != seed(h, true, true)
            &&& seed(g, true, false) != seed(h, true, true)
        }),
        batch_ordinal(g as int, true, false) == 3 * g,
        batch_ordinal(g as int, true, true) == 3 * g + 1,
        batch_ordinal(g as int, false, false) == 0,
        batch_ordinal(g as int, false, true) == usize::MAX,
{
    derived_seeds_are_distinct(run_seed, 0, usize::MAX);
    derived_seeds_are_distinct(run_seed, (g * 3) as usize, (g * 3 + 1) as usize);
    derived_seeds_are_distinct(run_seed, (g * 3) as usize, (h * 3) as usize);
    derived_seeds_are_distinct(run_seed, (g * 3 + 1) as usize, (h * 3 + 1) as usize);
    derived_seeds_are_distinct(run_seed, (g * 3) as usize, (h * 3 + 1) as usize);
}

/// The statistics of a generation are about its extremes: nobody is better than
/// the best or worse than the worst, and loss and size belong to them. Topologies
/// are counted once, whoever has them.
pub proof fn statistics_are_about_the_extremes(
    r: GenStats,
    scores: Seq<Score>,
    losses: Seq<Option<Score>>,
    params: Seq<usize>,
    direction: Direction,
    keys: Seq<Option<Seq<char>>>,
    i: int,
)
    requires
        0 <= i < scores.len() <= usize::MAX,
        forall|j: int| 0 <= j < scores.len() ==> !(#[trigger] scores[j]).nan(),
        losses.len() == scores.len(),
        params.len() == scores.len(),
        summed_up(r, scores, losses, params, direction, keys),
    ensures
        r.best_idx < scores.len() && r.worst_idx < scores.len(),
        match direction {
            Direction::Minimize => r.best_score.key() <= scores[i].key() <= r.worst_score.key(),
            Direction::Maximize => r.worst_score.key() <= scores[i].key() <= r.best_score.key(),
        },
        r.best_score == scores[r.best_idx as int] && r.worst_score == scores[r.worst_idx as int],
        r.best_loss == losses[r.best_idx as int] && r.worst_loss == losses[r.worst_idx as int],
        r.best_params == params[r.best_idx as int] && r.worst_params
            == params[r.worst_idx as int],
        r.unique_topos <= keys.len(),
{
    crate::race::best_is_best(direction, scores, i);
    crate::race::best_is_best(direction.flipped(), scores, i);
    first_places_are_few(keys);
}

proof fn first_places_are_few(keys: Seq<Option<Seq<char>>>)
    ensures
        first_places(keys).len() <= keys.len(),
    decreases keys.len(),
{
    if keys.len() > 0 {
        first_places_are_few(keys.drop_last());
    }
}

/// The first generation is progress; a later one exactly if its best number lies
/// on the better side of the best before.
pub proof fn progress_is_a_better_best(direction: Direction, before: Score, now: Score)
    ensures
        is_progress(direction, None, now),
        is_progress(direction, Some(before), now) <==> !before.nan() && !now.nan()
            && match direction {
            Direction::Minimize => now.key() < before.key(),
            Direction::Maximize => now.key() > before.key(),
        },
{
}

} // verus!
