//! Children: how they are seeded, paired, named, and brought up to the clock.

use vstd::prelude::*;

use crate::labels::CrossoverOp;
use crate::net::NetMetrics;
use crate::population::{draw_topology, drawn_genes, Blueprint};
use crate::race::{holds, parent_entries, Race};
use crate::ranking::{ranking, Ranked};
use crate::score::Score;
use crate::seeds::{
    derive_seed, derived_seed, derived_seeds_are_distinct, draw_index, genes_fit, index_draw, GenePools,
};
use crate::text::{decimal, join};

verus! {

/// How many pairs of parents a crossover roll may draw.
pub const MAX_PARENT_PAIRINGS: usize = 3;

/// How many random children an immigrant roll may generate to find a new one.
pub const MAX_RANDOM_CHILDREN: usize = 8;

/// How far apart the child ordinals of two clocks are.
pub const ORDINALS_PER_CLOCK: usize = 1024;

// ── Seeds ────────────────────────────────────────────────────────────────

/// The ordinal of child `idx` of a clock.
pub open spec fn child_ordinal(clock: usize, idx: usize) -> int {
    clock * ORDINALS_PER_CLOCK + idx
}

/// The seed of child `idx` of a clock: it seeds its rolls, its topology and its
/// weights.
pub fn child_seed(run_seed: u64, clock: usize, idx: usize) -> (r: u64)
    requires
        child_ordinal(clock, idx) <= usize::MAX,
    ensures
        r == derived_seed(run_seed, child_ordinal(clock, idx) as usize),
{
    derive_seed(run_seed, clock * ORDINALS_PER_CLOCK + idx)
}

/// Draws the random child `idx` of a clock.
pub fn random_child(
    pools: GenePools,
    min: usize,
    max: usize,
    run_seed: u64,
    clock: usize,
    idx: usize,
) -> (r: Blueprint)
    requires
        pools.drawable(),
        min <= max,
        child_ordinal(clock, idx) <= usize::MAX,
    ensures
        r.seed == derived_seed(run_seed, child_ordinal(clock, idx) as usize),
        r.hidden@ == drawn_genes(pools, min, max, r.seed),
        min <= r.hidden@.len() <= max,
        forall|i: int| 0 <= i < r.hidden@.len() ==> genes_fit(pools, #[trigger] r.hidden@[i]),
{
    draw_topology(pools, min, max, run_seed, clock * ORDINALS_PER_CLOCK + idx)
}

/// Siblings of one clock never share a seed.
pub proof fn siblings_differ(run_seed: u64, clock: usize, i: usize, j: usize)
    requires
        i != j,
        child_ordinal(clock, i) <= usize::MAX,
        child_ordinal(clock, j) <= usize::MAX,
    ensures
        derived_seed(run_seed, child_ordinal(clock, i) as usize) != derived_seed(
            run_seed,
            child_ordinal(clock, j) as usize,
        ),
{
    derived_seeds_are_distinct(
        run_seed,
        child_ordinal(clock, i) as usize,
        child_ordinal(clock, j) as usize,
    );
}

/// Children of different clocks never share a seed, as long as a clock has no
/// more children than there are ordinals for it.
pub proof fn clocks_differ(run_seed: u64, a: usize, i: usize, b: usize, j: usize)
    requires
        a != b,
        i < ORDINALS_PER_CLOCK,
        j < ORDINALS_PER_CLOCK,
        child_ordinal(a, i) <= usize::MAX,
        child_ordinal(b, j) <= usize::MAX,
    ensures
        derived_seed(run_seed, child_ordinal(a, i) as usize) != derived_seed(
            run_seed,
            child_ordinal(b, j) as usize,
        ),
{
    derived_seeds_are_distinct(
        run_seed,
        child_ordinal(a, i) as usize,
        child_ordinal(b, j) as usize,
    );
}

// ── Pairing ──────────────────────────────────────────────────────────────

/// Draws the crossover operator of a child from the pool.
pub fn draw_operator(ops: &Vec<CrossoverOp>, state: u64) -> (r: (CrossoverOp, u64))
    requires
        ops@.len() > 0,
    ensures
        r.0 == ops@[index_draw(state, ops@.len() as usize).0 as int],
        r.1 == index_draw(state, ops@.len() as usize).1,
        ops@.contains(r.0),
{
    let (k, next) = draw_index(state, ops.len());
    (ops[k], next)
}

/// A crossover on its way: the parents to draw from, the operator, and how far
/// it has come.
#[derive(Debug)]
pub struct Crossing {
    /// The population as parents, best first.
    pub ranked: Vec<Ranked>,
    pub op: CrossoverOp,
    /// Where the generator of the roll stands.
    pub state: u64,
    /// The number of the pair to draw, counted from 1.
    pub pair: usize,
}

/// What a crossover roll begins with.
#[derive(Debug)]
pub enum Crossover {
    /// The number drawn for the child was too high: the roll is spent.
    NotFired,
    /// Nobody is alive to be a parent.
    NoParents,
    /// Parents are to be drawn.
    Draw(Crossing),
}

/// What became of a pair of parents.
#[derive(Debug)]
pub enum Settled {
    /// The crossover worked: a child is born, with this lineage.
    Born { lineage: String },
    /// The two do not fit: other parents are to be drawn.
    DrawAgain(Crossing),
    /// No pair fitted: the roll is spent without a child.
    Spent,
}

impl Crossing {
    /// The entries are nets of the race, and pairs are left to draw.
    pub open spec fn well_formed(self, race: Race) -> bool {
        &&& 1 <= self.pair <= MAX_PARENT_PAIRINGS
        &&& forall|k: int|
            0 <= k < self.ranked@.len() ==> (#[trigger] self.ranked@[k]).index < race.nets@.len()
    }

    /// The hashes of the parents at the given places of the ranking.
    pub open spec fn parents(self, race: Race, places: Seq<usize>) -> Seq<Seq<char>> {
        places.map_values(
            |p: usize| race.nets@[self.ranked@[p as int].index as int].hash@,
        )
    }

    /// Goes on after the parents at these places of the ranking were crossed, or
    /// could not be. `state` is where the generator stands by now.
    pub fn settle(self, race: &Race, places: &Vec<usize>, crossed: bool, state: u64) -> (r:
        Settled)
        requires
            self.well_formed(*race),
            forall|k: int|
                0 <= k < places@.len() ==> (#[trigger] places@[k]) < self.ranked@.len(),
        ensures
            settled_as(r, self, *race, places@, crossed, state),
    {
        if crossed {
            let parents = race.parents_at(&self.ranked, places);
            assert(crate::text::texts(parents@) =~= self.parents(*race, places@));
            Settled::Born { lineage: lineage(self.op.origin(), &parents, false) }
        } else if self.pair < MAX_PARENT_PAIRINGS {
            Settled::DrawAgain(Crossing { pair: self.pair + 1, state, ..self })
        } else {
            Settled::Spent
        }
    }
}

/// What becomes of a pair: a child if it could be crossed, else another pair as
/// long as there is one left. Nothing else ever takes the place of a child.
pub open spec fn settled_as(
    r: Settled,
    c: Crossing,
    race: Race,
    places: Seq<usize>,
    crossed: bool,
    state: u64,
) -> bool {
    if crossed {
        r matches Settled::Born { lineage: l } && l@ == lineage_text(
            c.op.origin_text(),
            c.parents(race, places),
            false,
        )
    } else if c.pair < MAX_PARENT_PAIRINGS {
        r matches Settled::DrawAgain(next) && next == (Crossing {
            pair: (c.pair + 1) as usize,
            state,
            ..c
        })
    } else {
        r is Spent
    }
}

/// A roll draws at most three pairs: each pair that does not fit leaves one
/// fewer, and the race it draws from stays valid.
pub proof fn pairing_ends(
    r: Settled,
    c: Crossing,
    race: Race,
    places: Seq<usize>,
    crossed: bool,
    state: u64,
)
    requires
        c.well_formed(race),
        settled_as(r, c, race, places, crossed, state),
    ensures
        r matches Settled::DrawAgain(next) ==> next.well_formed(race) && MAX_PARENT_PAIRINGS
            - next.pair < MAX_PARENT_PAIRINGS - c.pair && next.op == c.op && next.ranked
            == c.ranked,
        c.pair == MAX_PARENT_PAIRINGS ==> !(r is DrawAgain),
{
}

/// A crossover was begun: not at all if the draw is too high, without parents if
/// nobody is alive, and otherwise with the whole population ranked and an operator
/// drawn.
pub open spec fn begun(
    r: Crossover,
    race: Race,
    draw: Score,
    probability: Score,
    ops: Seq<CrossoverOp>,
    state: u64,
) -> bool {
    if !draw.below(probability) {
        r is NotFired
    } else if race.nets@.len() == 0 {
        r is NoParents
    } else {
        r matches Crossover::Draw(c) && {
            &&& c.well_formed(race)
            &&& c.pair == 1
            &&& c.ranked@ == ranking(race.direction, parent_entries(race.nets@))
            &&& c.op == ops[index_draw(state, ops.len() as usize).0 as int]
            &&& c.state == index_draw(state, ops.len() as usize).1
        }
    }
}

impl Race {
    /// Begins the crossover of a roll. `draw` is the number drawn for the child
    /// and `state` where its generator stands after it; the operator is drawn
    /// once, the parents anew for every pair.
    pub fn begin_crossover(
        &self,
        draw: Score,
        probability: Score,
        ops: &Vec<CrossoverOp>,
        state: u64,
    ) -> (r: Crossover)
        requires
            ops@.len() > 0,
        ensures
            match r {
                Crossover::NotFired => !draw.below(probability),
                Crossover::NoParents => draw.below(probability) && self.nets@.len() == 0,
                Crossover::Draw(c) => {
                    &&& draw.below(probability)
                    &&& self.nets@.len() > 0
                    &&& c.well_formed(*self)
                    &&& c.pair == 1
                    &&& c.ranked@ == ranking(self.direction, parent_entries(self.nets@))
                    &&& c.ranked@.len() == self.nets@.len()
                    &&& c.op == ops@[index_draw(state, ops@.len() as usize).0 as int]
                    &&& c.state == index_draw(state, ops@.len() as usize).1
                },
            },
            begun(r, *self, draw, probability, ops@, state),
    {
        if !draw.less_than(probability) {
            return Crossover::NotFired;
        }
        if self.nets.len() == 0 {
            return Crossover::NoParents;
        }
        let ranked = self.rank_parents();
        let (op, next) = draw_operator(ops, state);
        proof {
            parents_are_nets(*self, self.nets.len());
        }
        Crossover::Draw(Crossing { ranked, op, state: next, pair: 1 })
    }
}

proof fn parents_are_nets(race: Race, n: usize)
    requires
        race.nets@.len() == n,
    ensures
        ({
            let ranked = ranking(race.direction, parent_entries(race.nets@));
            &&& ranked.len() == race.nets@.len()
            &&& forall|k: int|
                0 <= k < ranked.len() ==> (#[trigger] ranked[k]).index < race.nets@.len()
        }),
{
    let entries = parent_entries(race.nets@);
    let ranked = ranking(race.direction, entries);
    crate::ranking::ranking_is_permutation(race.direction, entries);
    crate::ranking::ranking_members(race.direction, entries);
    assert forall|k: int| 0 <= k < ranked.len() implies (#[trigger] ranked[k]).index
        < race.nets@.len() by {
        assert(entries.contains(ranked[k]));
        let m = choose|m: int| 0 <= m < entries.len() && entries[m] == ranked[k];
        assert(entries[m].index == m as usize);
    }
}

impl Race {
    /// The hashes of the parents at the given places of a ranking.
    pub fn parents_at(&self, ranked: &Vec<Ranked>, places: &Vec<usize>) -> (r: Vec<String>)
        requires
            forall|k: int|
                0 <= k < places@.len() ==> (#[trigger] places@[k]) < ranked@.len(),
            forall|k: int|
                0 <= k < ranked@.len() ==> (#[trigger] ranked@[k]).index < self.nets@.len(),
        ensures
            r@.len() == places@.len(),
            forall|k: int|
                0 <= k < r@.len() ==> (#[trigger] r@[k])@
                    == self.nets@[ranked@[places@[k] as int].index as int].hash@,
    {
        let mut out: Vec<String> = Vec::new();
        let mut k: usize = 0;
        while k < places.len()
            invariant
                k <= places@.len(),
                out@.len() == k,
                forall|j: int|
                    0 <= j < places@.len() ==> (#[trigger] places@[j]) < ranked@.len(),
                forall|j: int|
                    0 <= j < ranked@.len() ==> (#[trigger] ranked@[j]).index < self.nets@.len(),
                forall|j: int|
                    0 <= j < k ==> (#[trigger] out@[j])@
                        == self.nets@[ranked@[places@[j] as int].index as int].hash@,
            decreases places@.len() - k,
        {
            let p: usize = places[k];
            let i: usize = ranked[p].index;
            out.push(self.nets[i].hash.clone());
            k = k + 1;
        }
        out
    }

    /// Decides about random child number `attempt` (from 0) of an immigrant
    /// roll that began at ordinal `start`: it is taken if its hash is not
    /// alive, and then the ordinals used so far are marked as handed out.
    pub fn judge_random_child(
        &mut self,
        clock: usize,
        start: usize,
        attempt: usize,
        hash: &str,
    ) -> (r: RandomChild)
        requires
            old(self).well_formed(),
            start + attempt < usize::MAX,
        ensures
            r == (if !holds(old(self).nets@, hash@) {
                RandomChild::Taken
            } else if attempt + 1 < MAX_RANDOM_CHILDREN {
                RandomChild::TryAgain
            } else {
                RandomChild::GiveUp
            }),
            r == random_child_fate(holds(old(self).nets@, hash@), attempt),
            r == RandomChild::Taken ==> final(self).births@ == old(self).births@.insert(
                clock,
                (start + attempt + 1) as usize,
            ),
            r != RandomChild::Taken ==> *final(self) == *old(self),
            *final(self) == (Race { births: final(self).births, ..*old(self) }),
            final(self).well_formed(),
    {
        if !self.is_live(hash) {
            self.consume_ordinals(clock, start + attempt + 1);
            RandomChild::Taken
        } else if attempt < MAX_RANDOM_CHILDREN - 1 {
            RandomChild::TryAgain
        } else {
            RandomChild::GiveUp
        }
    }
}

/// What becomes of random child number `attempt` (from 0) of a roll; `alive` if
/// its topology is.
pub open spec fn random_child_fate(alive: bool, attempt: usize) -> RandomChild {
    if !alive {
        RandomChild::Taken
    } else if attempt + 1 < MAX_RANDOM_CHILDREN {
        RandomChild::TryAgain
    } else {
        RandomChild::GiveUp
    }
}

/// What becomes of a random child.
#[derive(Clone, Copy, Debug, PartialEq, Eq, Structural)]
pub enum RandomChild {
    /// It is a new topology.
    Taken,
    /// It repeats a live topology; draw the next one.
    TryAgain,
    /// Too many repeats.
    GiveUp,
}

// ── Lineage ──────────────────────────────────────────────────────────────

/// Where a net comes from: its origin, its parents if it has any, and whether
/// it was mutated.
pub open spec fn lineage_text(origin: Seq<char>, parents: Seq<Seq<char>>, mutated: bool) -> Seq<
    char,
> {
    let base = if parents.len() == 0 {
        origin
    } else {
        origin + ":parents="@ + crate::text::joined_text(parents, ","@)
    };
    if mutated {
        base + "+mut"@
    } else {
        base
    }
}

pub fn lineage(origin: &str, parents: &Vec<String>, mutated: bool) -> (r: String)
    ensures
        r@ == lineage_text(origin@, crate::text::texts(parents@), mutated),
{
    let mut out = String::from_str(origin);
    if parents.len() > 0 {
        out.append(":parents=");
        out.append(join(parents, ",").as_str());
    }
    if mutated {
        out.append("+mut");
    }
    out
}

/// The origin of a random net.
pub fn random_origin() -> (r: &'static str)
    ensures
        r@ == "random"@,
{
    "random"
}

/// The origin of member `ordinal` of the first population.
pub fn founder_origin(ordinal: usize) -> (r: String)
    ensures
        r@ == "founder-"@ + crate::text::decimal_text(ordinal as nat),
{
    let mut out = String::from_str("founder-");
    out.append(decimal(ordinal as u64).as_str());
    out
}

// ── Replay ───────────────────────────────────────────────────────────────

/// The clocks a net has to replay, as half-open ranges.
pub open spec fn replay_ranges(trainings: usize, entered: usize, last: Option<usize>) -> Seq<
    (usize, usize),
> {
    if trainings == 0 {
        Seq::empty()
    } else {
        match last {
            None => seq![(0usize, trainings)],
            Some(end) => if trainings >= end + 1 {
                seq![(0usize, (end + 1) as usize)]
            } else {
                let before = if entered > 0 {
                    seq![
                        (
                            0usize,
                            if entered <= end + 1 {
                                entered
                            } else {
                                (end + 1) as usize
                            },
                        ),
                    ]
                } else {
                    Seq::empty()
                };
                if entered + 1 <= end {
                    before.push(((entered + 1) as usize, (end + 1) as usize))
                } else {
                    before
                }
            },
        }
    }
}

/// The clocks a rebuilt net has to replay. A net trains at every clock of its
/// life but the one it joined at; whether it skipped that one shows in the
/// number of its trainings. Without a recorded clock it is replayed from 0.
pub fn replay_segments(trainings: usize, entered: usize, last: Option<usize>) -> (r: Vec<
    (usize, usize),
>)
    requires
        last matches Some(end) ==> end < usize::MAX,
        entered < usize::MAX,
    ensures
        r@ == replay_ranges(trainings, entered, last),
{
    let mut out: Vec<(usize, usize)> = Vec::new();
    if trainings == 0 {
        assert(out@ =~= replay_ranges(trainings, entered, last));
        return out;
    }
    match last {
        None => {
            out.push((0, trainings));
        },
        Some(end) => {
            if trainings >= end + 1 {
                out.push((0, end + 1));
            } else {
                if entered > 0 {
                    let to: usize = if entered <= end + 1 {
                        entered
                    } else {
                        end + 1
                    };
                    out.push((0, to));
                }
                if entered + 1 <= end {
                    out.push((entered + 1, end + 1));
                }
            }
        },
    }
    assert(out@ =~= replay_ranges(trainings, entered, last));
    out
}

/// Whether a clock lies in one of the ranges.
pub open spec fn covered(ranges: Seq<(usize, usize)>, c: int) -> bool {
    exists|k: int| 0 <= k < ranges.len() && (#[trigger] ranges[k]).0 <= c < ranges[k].1
}

/// The number of clocks in the ranges.
pub open spec fn clocks_in(ranges: Seq<(usize, usize)>) -> int
    decreases ranges.len(),
{
    if ranges.len() == 0 {
        0
    } else {
        clocks_in(ranges.drop_last()) + (ranges.last().1 - ranges.last().0)
    }
}

/// A net that trained at every clock replays exactly the clocks up to its last.
pub proof fn founders_replay_everything(trainings: usize, entered: usize, end: usize, c: int)
    requires
        trainings == end + 1,
    ensures
        covered(replay_ranges(trainings, entered, Some(end)), c) <==> 0 <= c <= end,
        clocks_in(replay_ranges(trainings, entered, Some(end))) == trainings,
{
    let r = replay_ranges(trainings, entered, Some(end));
    assert(r[0] == (0usize, (end + 1) as usize));
    assert(r.drop_last() =~= Seq::empty());
    assert(clocks_in(r.drop_last()) == 0);
}

/// A net that joined while the race was on replays exactly the clocks up to its
/// last without the one it joined at: as many as it trained.
pub proof fn joiners_skip_their_birth(trainings: usize, entered: usize, end: usize, c: int)
    requires
        0 < end < usize::MAX,
        trainings == end,
        entered <= end,
    ensures
        covered(replay_ranges(trainings, entered, Some(end)), c) <==> 0 <= c <= end && c
            != entered,
        clocks_in(replay_ranges(trainings, entered, Some(end))) == trainings,
{
    let r = replay_ranges(trainings, entered, Some(end));
    reveal_with_fuel(clocks_in, 3);
    if entered == 0 {
        assert(r =~= seq![(1usize, (end + 1) as usize)]);
        assert(r[0] == (1usize, (end + 1) as usize));
        assert(r.drop_last() =~= Seq::empty());
    } else if entered + 1 <= end {
        assert(r =~= seq![(0usize, entered), ((entered + 1) as usize, (end + 1) as usize)]);
        assert(r[0] == (0usize, entered));
        assert(r[1] == ((entered + 1) as usize, (end + 1) as usize));
        assert(r.drop_last() =~= seq![(0usize, entered)]);
        assert(r.drop_last().drop_last() =~= Seq::empty());
    } else {
        assert(r =~= seq![(0usize, entered)]);
        assert(r[0] == (0usize, entered));
        assert(r.drop_last() =~= Seq::empty());
    }
}

/// The two kinds of nets above differ in their trainings alone, so the same
/// birth clock is replayed by one and skipped by the other.
pub proof fn birth_clock_tells_them_apart(entered: usize, end: usize)
    requires
        0 < end < usize::MAX,
        entered <= end,
    ensures
        covered(replay_ranges((end + 1) as usize, entered, Some(end)), entered as int),
        !covered(replay_ranges(end, entered, Some(end)), entered as int),
{
    founders_replay_everything((end + 1) as usize, entered, end, entered as int);
    joiners_skip_their_birth(end, entered, end, entered as int);
}

// ── Parity ───────────────────────────────────────────────────────────────

/// Two numbers are equal as IEEE-754 defines it: a NaN equals nothing, and the
/// two zeros are one number.
pub open spec fn same_number(a: Score, b: Score) -> bool {
    !a.nan() && !b.nan() && a.key() == b.key()
}

fn equal_numbers(a: Score, b: Score) -> (r: bool)
    ensures
        r == same_number(a, b),
{
    !a.is_nan() && !b.is_nan() && !a.less_than(b) && !b.less_than(a)
}

/// The measurements agree, number by number.
pub open spec fn same_metrics(a: NetMetrics, b: NetMetrics) -> bool {
    &&& a.step == b.step
    &&& same_number(a.train_loss, b.train_loss)
    &&& match (a.eval_loss, b.eval_loss) {
        (Some(x), Some(y)) => same_number(x, y),
        (None, None) => true,
        _ => false,
    }
    &&& same_number(a.fitness, b.fitness)
    &&& a.informative@.len() == b.informative@.len()
    &&& forall|i: int|
        0 <= i < a.informative@.len() ==> same_number(#[trigger] a.informative@[i], b.informative@[i])
}

/// Compares what a net recorded with what its replay measured.
pub fn metrics_agree(a: &NetMetrics, b: &NetMetrics) -> (r: bool)
    ensures
        r == same_metrics(*a, *b),
{
    if a.step != b.step || !equal_numbers(a.train_loss, b.train_loss) {
        return false;
    }
    match (a.eval_loss, b.eval_loss) {
        (Some(x), Some(y)) => {
            if !equal_numbers(x, y) {
                return false;
            }
        },
        (None, None) => {},
        _ => {
            return false;
        },
    }
    if !equal_numbers(a.fitness, b.fitness) || a.informative.len() != b.informative.len() {
        return false;
    }
    let mut i: usize = 0;
    while i < a.informative.len()
        invariant
            i <= a.informative@.len(),
            a.informative@.len() == b.informative@.len(),
            forall|j: int|
                0 <= j < i ==> same_number(#[trigger] a.informative@[j], b.informative@[j]),
        decreases a.informative@.len() - i,
    {
        if !equal_numbers(a.informative[i], b.informative[i]) {
            return false;
        }
        i = i + 1;
    }
    true
}

/// Whether a replay reproduced what was recorded; with nothing to compare it
/// did.
pub fn replay_parity(recorded: &Option<NetMetrics>, replayed: &Option<NetMetrics>) -> (r: bool)
    ensures
        r == (match (*recorded, *replayed) {
            (Some(a), Some(b)) => same_metrics(a, b),
            _ => true,
        }),
{
    match (recorded, replayed) {
        (Some(a), Some(b)) => metrics_agree(a, b),
        _ => true,
    }
}

/// A child is born exactly if its parents could be crossed, and the roll is
/// spent exactly when the third pair could not be; before that another pair is
/// drawn.
pub proof fn three_pairs_are_drawn(
    r: Settled,
    c: Crossing,
    race: Race,
    places: Seq<usize>,
    crossed: bool,
    state: u64,
)
    requires
        c.well_formed(race),
        settled_as(r, c, race, places, crossed, state),
    ensures
        r is Born <==> crossed,
        r is Spent <==> !crossed && c.pair == 3,
        r is DrawAgain <==> !crossed && c.pair < 3,
        r matches Settled::DrawAgain(next) ==> next.pair == c.pair + 1 && next.state == state,
        1 <= c.pair <= 3,
{
}

/// The lineage of a child begins with its operator and names its parents, in
/// order.
pub proof fn a_lineage_names_the_parents(
    r: Settled,
    c: Crossing,
    race: Race,
    a: usize,
    b: usize,
    state: u64,
)
    requires
        c.well_formed(race),
        settled_as(r, c, race, seq![a, b], true, state),
        a < c.ranked@.len(),
        b < c.ranked@.len(),
    ensures
        r matches Settled::Born { lineage } && lineage@ == c.op.origin_text() + ":parents="@
            + race.nets@[c.ranked@[a as int].index as int].hash@ + ","@
            + race.nets@[c.ranked@[b as int].index as int].hash@,
{
    let parents = c.parents(race, seq![a, b]);
    let x = race.nets@[c.ranked@[a as int].index as int].hash@;
    let y = race.nets@[c.ranked@[b as int].index as int].hash@;
    assert(parents =~= seq![x, y]);
    reveal_with_fuel(crate::text::joined_text, 3);
    assert(parents.drop_last() =~= seq![x]);
    let o = c.op.origin_text() + ":parents="@;
    assert(crate::text::joined_text(parents, ","@) =~= x + ","@ + y);
    assert(o + crate::text::joined_text(parents, ","@) =~= o + x + ","@ + y);
}

/// What a net replays. One that never trained replays nothing; one without a
/// recorded clock replays as many clocks as it trained, from 0. Any other
/// replays every clock up to its last, without the one it joined at if it
/// trained less often than there are clocks; and no clock twice.
pub proof fn a_replay_covers_the_training(
    trainings: usize,
    entered: usize,
    last: Option<usize>,
    c: int,
)
    requires
        last matches Some(end) ==> end < usize::MAX,
        entered < usize::MAX,
    ensures
        covered(replay_ranges(trainings, entered, last), c) <==> trainings > 0 && 0 <= c && match last {
            Some(end) => c <= end && (trainings > end || c != entered),
            None => c < trainings,
        },
        forall|j: int, k: int|
            0 <= j < k < replay_ranges(trainings, entered, last).len() ==> (
            #[trigger] replay_ranges(trainings, entered, last)[j]).1 < (#[trigger] replay_ranges(
                trainings,
                entered,
                last,
            )[k]).0,
{
    let r = replay_ranges(trainings, entered, last);
    if trainings > 0 {
        match last {
            None => {
                assert(r[0] == (0usize, trainings));
            },
            Some(end) => {
                if trainings >= end + 1 {
                    assert(r[0] == (0usize, (end + 1) as usize));
                } else if entered == 0 {
                    if 1 <= end {
                        assert(r =~= seq![(1usize, (end + 1) as usize)]);
                        assert(r[0] == (1usize, (end + 1) as usize));
                    }
                } else if entered + 1 <= end {
                    assert(r =~= seq![
                        (0usize, entered),
                        ((entered + 1) as usize, (end + 1) as usize),
                    ]);
                    assert(r[0] == (0usize, entered));
                    assert(r[1] == ((entered + 1) as usize, (end + 1) as usize));
                } else {
                    let to = if entered <= end + 1 {
                        entered
                    } else {
                        (end + 1) as usize
                    };
                    assert(r =~= seq![(0usize, to)]);
                    assert(r[0] == (0usize, to));
                }
            },
        }
    }
}

/// Parity takes every number: measurements that agree have the same clock and,
/// number by number, the same losses, fitness and informative metrics. Parity
/// goes both ways, and a measurement without a NaN agrees with itself.
pub proof fn parity_takes_every_number(a: NetMetrics, b: NetMetrics, i: int)
    ensures
        same_metrics(a, b) <==> same_metrics(b, a),
        same_metrics(a, b) ==> {
            &&& a.step == b.step
            &&& a.train_loss.key() == b.train_loss.key() && !a.train_loss.nan()
            &&& a.fitness.key() == b.fitness.key() && !a.fitness.nan()
            &&& a.eval_loss is Some <==> b.eval_loss is Some
            &&& a.eval_loss matches Some(x) ==> !x.nan() && x.key() == b.eval_loss->0.key()
            &&& a.informative@.len() == b.informative@.len()
            &&& 0 <= i < a.informative@.len() ==> !a.informative@[i].nan()
                && a.informative@[i].key() == b.informative@[i].key()
        },
        !a.train_loss.nan() && !a.fitness.nan() && (a.eval_loss matches Some(x) ==> !x.nan()) && (
        forall|j: int| 0 <= j < a.informative@.len() ==> !(#[trigger] a.informative@[j]).nan())
            ==> same_metrics(a, a),
{
    if same_metrics(a, b) {
        assert forall|j: int| 0 <= j < b.informative@.len() implies same_number(
            #[trigger] b.informative@[j],
            a.informative@[j],
        ) by {
            assert(same_number(a.informative@[j], b.informative@[j]));
        }
        if 0 <= i < a.informative@.len() {
            assert(same_number(a.informative@[i], b.informative@[i]));
        }
    }
    if same_metrics(b, a) {
        assert forall|j: int| 0 <= j < a.informative@.len() implies same_number(
            #[trigger] a.informative@[j],
            b.informative@[j],
        ) by {
            assert(same_number(b.informative@[j], a.informative@[j]));
        }
    }
}

/// Children are numbered one behind the other, with room for 1024 at each clock.
pub proof fn children_are_numbered(clock: usize, idx: usize)
    requires
        clock < usize::MAX,
        idx < usize::MAX,
    ensures
        child_ordinal(0, 0) == 0,
        child_ordinal(clock, (idx + 1) as usize) == child_ordinal(clock, idx) + 1,
        child_ordinal((clock + 1) as usize, idx) == child_ordinal(clock, idx) + 1024,
{
}

/// A lineage begins with the origin, names the parents only if there are any, and
/// ends with a mark exactly if the net was mutated.
pub proof fn a_lineage_tells_the_story(
    origin: Seq<char>,
    parents: Seq<Seq<char>>,
    first: Seq<char>,
    mutated: bool,
)
    ensures
        lineage_text(origin, parents, mutated).take(origin.len() as int) == origin,
        lineage_text(origin, Seq::empty(), false) == origin,
        lineage_text(origin, seq![first], false) == origin + ":parents="@ + first,
        lineage_text(origin, parents, true) == lineage_text(origin, parents, false) + "+mut"@,
{
    assert(lineage_text(origin, parents, mutated).take(origin.len() as int) =~= origin);
}

/// A random child is taken exactly if its topology is new; eight repeats in a row
/// end the roll, and fewer do not.
pub proof fn eight_random_children_are_tried(alive: bool, attempt: usize)
    ensures
        random_child_fate(alive, attempt) == RandomChild::Taken <==> !alive,
        random_child_fate(alive, attempt) == RandomChild::TryAgain <==> alive && attempt < 7,
        random_child_fate(alive, attempt) == RandomChild::GiveUp <==> alive && attempt >= 7,
{
}

/// How a crossover begins: it fires with a draw below its probability, and then
/// only the lack of anybody alive keeps it from drawing parents. It draws from
/// everybody, begins with the first pair, and takes the operator that the
/// generator names.
pub proof fn a_crossover_begins_with_everybody(
    r: Crossover,
    race: Race,
    draw: Score,
    probability: Score,
    ops: Seq<CrossoverOp>,
    state: u64,
)
    requires
        0 < ops.len() <= usize::MAX,
        race.nets@.len() <= usize::MAX,
        begun(r, race, draw, probability, ops, state),
    ensures
        r is NotFired <==> draw.nan() || probability.nan() || draw.key() >= probability.key(),
        r is NoParents <==> !(r is NotFired) && race.nets@.len() == 0,
        r matches Crossover::Draw(c) ==> {
            let d = crate::seeds::u64_draw(state, 0, (ops.len() - 1) as u64);
            &&& c.pair == 1
            &&& c.ranked@.len() == race.nets@.len()
            &&& d.0 < ops.len() ==> c.op == ops[d.0 as int]
            &&& c.state == d.1
        },
{
    if r is Draw {
        crate::ranking::ranking_is_permutation(race.direction, parent_entries(race.nets@));
    }
}

} // verus!
