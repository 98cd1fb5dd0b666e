//! The live population of a step race and the decisions made over it.

use std::collections::HashMap;
use vstd::prelude::*;

use crate::config::{
    CrossCullPolicy, MutationCullPolicy, RaceConfig, RaceSnapshot, StopReason,
};
use crate::net::Net;
use crate::ranking::{
    all_pass, at_most, candidates, collect_candidates, drop_best, elites, find_elites, find_worst, is_among,
    make_outside_mask, outside_mask, positions, rank, ranking, without_best,
    worst_first, Ranked,
};
use crate::score::{Direction, Score};
use crate::seeds::{derive_seed, derived_seed, draw_index, index_draw};
use crate::text::{same_text, text_below, text_less, text_order_is_total, text_order_is_transitive};
use crate::victims::{draw_seed, is_drawn, outside_positions_are_numbered};

verus! {

broadcast use vstd::std_specs::hash::group_hash_axioms;

/// One entry of the checkpoint ledger.
#[derive(Clone, Copy, Debug, PartialEq, Eq, Structural)]
pub struct Checkpoint {
    pub step: usize,
    /// The mean smoothed fitness of the population, the bar for children.
    pub pop_mean_fitness: Score,
    /// The mean fitness on rows nobody trained on; a diagnostic.
    pub exam_mean_fitness: Score,
}

/// The live population: its nets in the order of their hashes, the checkpoint
/// ledger and the counters of the run.
#[derive(Debug)]
pub struct Race {
    pub direction: Direction,
    pub elite_count: usize,
    /// The capacity of the smoothing windows.
    pub window: usize,
    pub nets: Vec<Net>,
    pub checkpoints: Vec<Checkpoint>,
    /// Nets culled so far.
    pub culls: usize,
    /// How many children were generated at each clock.
    pub births: HashMap<usize, usize>,
    /// The hashes of the nets exported as champions.
    pub champions: Vec<String>,
    /// The hash of the net that took a seat of the frozen elites last.
    pub last_crowned: Option<String>,
}

// ── The population as a sorted list ──────────────────────────────────────

/// The nets stand in the order of their hashes, and no hash occurs twice.
pub open spec fn in_hash_order(nets: Seq<Net>) -> bool {
    forall|i: int, j: int|
        0 <= i < j < nets.len() ==> text_below(
            (#[trigger] nets[i]).hash@,
            (#[trigger] nets[j]).hash@,
        )
}

/// Where a hash is, or would go: behind every net whose hash comes before it.
pub open spec fn slot(nets: Seq<Net>, hash: Seq<char>) -> int
    decreases nets.len(),
{
    if nets.len() == 0 || !text_below(nets[0].hash@, hash) {
        0
    } else {
        1 + slot(nets.skip(1), hash)
    }
}

/// Whether a net with this hash is in the list.
pub open spec fn holds(nets: Seq<Net>, hash: Seq<char>) -> bool {
    slot(nets, hash) < nets.len() && nets[slot(nets, hash)].hash@ == hash
}

/// The list with `net` in it: in place of a net with the same hash, else at
/// its slot.
pub open spec fn with_net(nets: Seq<Net>, net: Net) -> Seq<Net> {
    if holds(nets, net.hash@) {
        nets.update(slot(nets, net.hash@), net)
    } else {
        nets.insert(slot(nets, net.hash@), net)
    }
}

/// The smoothed scores, in order.
pub open spec fn score_column(nets: Seq<Net>) -> Seq<Option<Score>> {
    nets.map_values(|n: Net| n.smoothed)
}

/// The demotion flags, in order.
pub open spec fn demoted_column(nets: Seq<Net>) -> Seq<bool> {
    nets.map_values(|n: Net| n.demoted)
}

/// The hashes, in order.
pub open spec fn hash_column(nets: Seq<Net>) -> Seq<Seq<char>> {
    nets.map_values(|n: Net| n.hash@)
}

/// Every net as a ranking entry; a net without a verdict counts as 0.
pub open spec fn parent_entries(nets: Seq<Net>) -> Seq<Ranked> {
    Seq::new(
        nets.len(),
        |i: int| Ranked { index: i as usize, score: nets[i].score_or_zero() },
    )
}

/// The scores of some entries, in order.
pub open spec fn entry_scores(entries: Seq<Ranked>) -> Seq<Score> {
    entries.map_values(|e: Ranked| e.score)
}

/// The position of the best score, the first of several that tie.
pub open spec fn best_index(direction: Direction, scores: Seq<Score>) -> int
    decreases scores.len(),
{
    if scores.len() <= 1 {
        0
    } else {
        let b = best_index(direction, scores.drop_last());
        if direction.better(scores.last(), scores[b]) {
            scores.len() - 1
        } else {
            b
        }
    }
}

/// The best score of a list; 0 for an empty list.
pub open spec fn best_score(direction: Direction, scores: Seq<Score>) -> Score {
    if scores.len() == 0 {
        Score { bits: 0 }
    } else {
        scores[best_index(direction, scores)]
    }
}

/// The worst score of a list; 0 for an empty list.
pub open spec fn worst_score(direction: Direction, scores: Seq<Score>) -> Score {
    best_score(direction.flipped(), scores)
}

/// The smoothed scores of all nets; a net without a verdict counts as 0.
pub open spec fn all_scores(nets: Seq<Net>) -> Seq<Score> {
    nets.map_values(|n: Net| n.score_or_zero())
}

/// The smoothed scores of the nets that have one, in order.
pub open spec fn verdicts(nets: Seq<Net>) -> Seq<Score>
    decreases nets.len(),
{
    if nets.len() == 0 {
        Seq::empty()
    } else {
        let rest = verdicts(nets.drop_last());
        match nets.last().smoothed {
            Some(s) => rest.push(s),
            None => rest,
        }
    }
}

/// The clock after the last one any net was measured at.
pub open spec fn next_clock(nets: Seq<Net>) -> int
    decreases nets.len(),
{
    if nets.len() == 0 {
        0
    } else {
        let rest = next_clock(nets.drop_last());
        match nets.last().last_metrics {
            Some(m) => if m.step + 1 > rest {
                m.step + 1
            } else {
                rest
            },
            None => rest,
        }
    }
}

/// The positions below `n` outside `chosen`, in order.
pub open spec fn positions_outside(n: nat, chosen: Seq<usize>) -> Seq<usize>
    decreases n,
{
    if n == 0 {
        Seq::empty()
    } else {
        let rest = positions_outside((n - 1) as nat, chosen);
        if chosen.contains((n - 1) as usize) {
            rest
        } else {
            rest.push((n - 1) as usize)
        }
    }
}

/// The seed of the victim draw of a clock; `salt` keeps the rolls of one clock
/// apart.
pub open spec fn victim_seed(run_seed: u64, clock: usize, salt: usize) -> u64 {
    derived_seed(run_seed, clock.wrapping_mul(7919).wrapping_add(salt))
}

impl Race {
    /// What every operation keeps: the nets are in the order of their hashes,
    /// and each net's windows fit the run.
    pub open spec fn well_formed(self) -> bool {
        &&& in_hash_order(self.nets@)
        &&& forall|i: int|
            0 <= i < self.nets@.len() ==> (#[trigger] self.nets@[i]).well_formed(
                self.window as nat,
            )
    }

    /// The protected nets, best first.
    pub open spec fn elite_set(self) -> Seq<usize> {
        elites(
            self.direction,
            self.elite_count as nat,
            score_column(self.nets@),
            demoted_column(self.nets@),
        )
    }

    /// The nets with a verdict, best first.
    pub open spec fn live_ranking(self) -> Seq<Ranked> {
        ranking(
            self.direction,
            candidates(score_column(self.nets@), all_pass(self.nets@.len())),
        )
    }

    /// Everything but the list of nets is as before.
    pub open spec fn same_but_nets(self, before: Race) -> bool {
        &&& self.direction == before.direction
        &&& self.elite_count == before.elite_count
        &&& self.window == before.window
        &&& self.checkpoints == before.checkpoints
        &&& self.culls == before.culls
        &&& self.births == before.births
        &&& self.champions == before.champions
        &&& self.last_crowned == before.last_crowned
    }

    /// An empty race.
    pub fn new(direction: Direction, elite_count: usize, window: usize) -> (r: Race)
        ensures
            r.well_formed(),
            r.direction == direction,
            r.elite_count == elite_count,
            r.window == window,
            r.nets@.len() == 0,
            r.checkpoints@.len() == 0,
            r.culls == 0,
            r.births@ == Map::<usize, usize>::empty(),
            r.champions@.len() == 0,
            r.last_crowned is None,
    {
        Race {
            direction,
            elite_count,
            window,
            nets: Vec::new(),
            checkpoints: Vec::new(),
            culls: 0,
            births: HashMap::new(),
            champions: Vec::new(),
            last_crowned: None,
        }
    }

    /// The number of live nets.
    pub fn live_count(&self) -> (r: usize)
        ensures
            r == self.nets@.len(),
    {
        self.nets.len()
    }

    /// The hashes of the live nets, in order.
    pub fn live_hashes(&self) -> (r: Vec<String>)
        ensures
            crate::text::texts(r@) == hash_column(self.nets@),
    {
        let mut out: Vec<String> = Vec::new();
        let mut i: usize = 0;
        while i < self.nets.len()
            invariant
                i <= self.nets@.len(),
                out@.len() == i,
                forall|j: int| 0 <= j < i ==> (#[trigger] out@[j])@ == self.nets@[j].hash@,
            decreases self.nets@.len() - i,
        {
            out.push(self.nets[i].hash.clone());
            i = i + 1;
        }
        assert(crate::text::texts(out@) =~= hash_column(self.nets@));
        out
    }

    fn find_slot(&self, hash: &str) -> (r: usize)
        ensures
            r == slot(self.nets@, hash@),
            r <= self.nets@.len(),
    {
        let mut i: usize = 0;
        assert(self.nets@.skip(0) =~= self.nets@);
        while i < self.nets.len() && text_less(self.nets[i].hash.as_str(), hash)
            invariant
                i <= self.nets@.len(),
                slot(self.nets@, hash@) == i + slot(self.nets@.skip(i as int), hash@),
            decreases self.nets@.len() - i,
        {
            assert(self.nets@.skip(i as int)[0] == self.nets@[i as int]);
            assert(self.nets@.skip(i as int).skip(1) =~= self.nets@.skip(i + 1));
            i = i + 1;
        }
        i
    }

    /// The position of the net with this hash.
    pub fn position(&self, hash: &str) -> (r: Option<usize>)
        requires
            self.well_formed(),
        ensures
            match r {
                Some(i) => i < self.nets@.len() && self.nets@[i as int].hash@ == hash@ && i == slot(
                    self.nets@,
                    hash@,
                ),
                None => forall|i: int|
                    0 <= i < self.nets@.len() ==> (#[trigger] self.nets@[i]).hash@ != hash@,
            },
            r is Some <==> holds(self.nets@, hash@),
    {
        let i: usize = self.find_slot(hash);
        proof {
            slot_finds(self.nets@, hash@);
        }
        if i < self.nets.len() && same_text(self.nets[i].hash.as_str(), hash) {
            Some(i)
        } else {
            None
        }
    }

    /// Whether a net with this hash is alive.
    pub fn is_live(&self, hash: &str) -> (r: bool)
        requires
            self.well_formed(),
        ensures
            r == holds(self.nets@, hash@),
    {
        self.position(hash).is_some()
    }

    /// Puts a net into the population; it takes the place of a net with the
    /// same hash.
    pub fn insert(&mut self, net: Net)
        requires
            old(self).well_formed(),
            net.well_formed(old(self).window as nat),
        ensures
            final(self).well_formed(),
            final(self).same_but_nets(*old(self)),
            final(self).nets@ == with_net(old(self).nets@, net),
    {
        let i: usize = self.find_slot(net.hash.as_str());
        proof {
            with_net_keeps_order(self.nets@, net);
            slot_finds(self.nets@, net.hash@);
        }
        if i < self.nets.len() && same_text(self.nets[i].hash.as_str(), net.hash.as_str()) {
            self.nets.set(i, net);
        } else {
            self.nets.insert(i, net);
        }
    }

    /// Takes the net at a position out of the population and counts the cull.
    pub fn cull_at(&mut self, i: usize) -> (r: Net)
        requires
            old(self).well_formed(),
            i < old(self).nets@.len(),
            old(self).culls < usize::MAX,
        ensures
            final(self).well_formed(),
            final(self).nets@ == old(self).nets@.remove(i as int),
            r == old(self).nets@[i as int],
            final(self).culls == old(self).culls + 1,
            *final(self) == (Race {
                nets: final(self).nets,
                culls: final(self).culls,
                ..*old(self)
            }),
    {
        let net = self.nets.remove(i);
        self.culls = self.culls + 1;
        net
    }

    // ── Columns ──────────────────────────────────────────────────────────

    fn scores(&self) -> (r: Vec<Option<Score>>)
        ensures
            r@ == score_column(self.nets@),
    {
        let mut out: Vec<Option<Score>> = Vec::new();
        let mut i: usize = 0;
        while i < self.nets.len()
            invariant
                i <= self.nets@.len(),
                out@ =~= score_column(self.nets@).take(i as int),
            decreases self.nets@.len() - i,
        {
            out.push(self.nets[i].smoothed);
            i = i + 1;
        }
        assert(out@ =~= score_column(self.nets@));
        out
    }

    fn demotions(&self) -> (r: Vec<bool>)
        ensures
            r@ == demoted_column(self.nets@),
    {
        let mut out: Vec<bool> = Vec::new();
        let mut i: usize = 0;
        while i < self.nets.len()
            invariant
                i <= self.nets@.len(),
                out@ =~= demoted_column(self.nets@).take(i as int),
            decreases self.nets@.len() - i,
        {
            out.push(self.nets[i].demoted);
            i = i + 1;
        }
        assert(out@ =~= demoted_column(self.nets@));
        out
    }

    /// The hashes at the given positions.
    fn hashes_at(&self, at: &Vec<usize>) -> (r: Vec<String>)
        requires
            forall|k: int| 0 <= k < at@.len() ==> (#[trigger] at@[k]) < self.nets@.len(),
        ensures
            r@.len() == at@.len(),
            forall|k: int|
                0 <= k < at@.len() ==> (#[trigger] r@[k])@ == self.nets@[at@[k] as int].hash@,
    {
        let mut out: Vec<String> = Vec::new();
        let mut k: usize = 0;
        while k < at.len()
            invariant
                k <= at@.len(),
                out@.len() == k,
                forall|j: int| 0 <= j < at@.len() ==> (#[trigger] at@[j]) < self.nets@.len(),
                forall|j: int|
                    0 <= j < k ==> (#[trigger] out@[j])@ == self.nets@[at@[j] as int].hash@,
            decreases at@.len() - k,
        {
            let i: usize = at[k];
            out.push(self.nets[i].hash.clone());
            k = k + 1;
        }
        out
    }

    // ── Ranking ──────────────────────────────────────────────────────────

    /// Ranks the nets with a verdict, best first.
    pub fn rank_live(&self) -> (r: Vec<Ranked>)
        ensures
            r@ == self.live_ranking(),
    {
        let scores = self.scores();
        let none: Vec<usize> = Vec::new();
        let mask = make_outside_mask(self.nets.len(), &none);
        assert(mask@ =~= all_pass(self.nets@.len()));
        let entries = collect_candidates(&scores, &mask);
        rank(self.direction, &entries)
    }

    /// Ranks all nets as parents, best first; a net without a verdict counts
    /// as 0.
    pub fn rank_parents(&self) -> (r: Vec<Ranked>)
        ensures
            r@ == ranking(self.direction, parent_entries(self.nets@)),
    {
        let mut entries: Vec<Ranked> = Vec::new();
        let mut i: usize = 0;
        while i < self.nets.len()
            invariant
                i <= self.nets@.len(),
                entries@ =~= parent_entries(self.nets@).take(i as int),
            decreases self.nets@.len() - i,
        {
            entries.push(Ranked { index: i, score: self.nets[i].smoothed_or_zero() });
            i = i + 1;
        }
        assert(entries@ =~= parent_entries(self.nets@));
        rank(self.direction, &entries)
    }

    /// The positions of the protected nets, best first.
    pub fn elite_positions(&self) -> (r: Vec<usize>)
        ensures
            r@ == self.elite_set(),
    {
        let scores = self.scores();
        let demoted = self.demotions();
        find_elites(self.direction, self.elite_count, &scores, &demoted)
    }

    /// The hashes of the protected nets, best first.
    pub fn elite_hashes(&self) -> (r: Vec<String>)
        ensures
            r@.len() == self.elite_set().len(),
            forall|k: int|
                0 <= k < r@.len() ==> (#[trigger] r@[k])@
                    == self.nets@[self.elite_set()[k] as int].hash@,
    {
        let at = self.elite_positions();
        proof {
            self.elite_positions_fit();
        }
        self.hashes_at(&at)
    }

    proof fn elite_positions_fit(self)
        ensures
            forall|k: int|
                0 <= k < self.elite_set().len() ==> (#[trigger] self.elite_set()[k])
                    < self.nets@.len(),
    {
        vec_len_fits(&self.nets);
        crate::ranking::elites_are_sound(
            self.direction,
            self.elite_count as nat,
            score_column(self.nets@),
            demoted_column(self.nets@),
        );
    }

    /// The worst `count` unprotected nets with a verdict, worst first.
    pub fn worst_positions(&self, count: usize) -> (r: Vec<usize>)
        ensures
            r@ == at_most(
                worst_first(self.direction, score_column(self.nets@), self.elite_set()),
                count as nat,
            ),
    {
        let scores = self.scores();
        let elite = self.elite_positions();
        find_worst(self.direction, &scores, &elite, count)
    }

    /// The hashes of the worst `count` unprotected nets, worst first.
    pub fn worst_nets_by_smoothed_fitness(&self, count: usize) -> (r: Vec<String>)
        ensures
            r@.len() == at_most(
                worst_first(self.direction, score_column(self.nets@), self.elite_set()),
                count as nat,
            ).len(),
            forall|k: int|
                0 <= k < r@.len() ==> (#[trigger] r@[k])@ == self.nets@[worst_first(
                    self.direction,
                    score_column(self.nets@),
                    self.elite_set(),
                )[k] as int].hash@,
    {
        let at = self.worst_positions(count);
        proof {
            vec_len_fits(&self.nets);
            crate::ranking::worst_are_unprotected(
                self.direction,
                score_column(self.nets@),
                self.elite_set(),
            );
        }
        self.hashes_at(&at)
    }

    /// The smoothed scores of all nets, 0 for a net without a verdict.
    fn scores_or_zero(&self) -> (r: Vec<Score>)
        ensures
            r@ == all_scores(self.nets@),
    {
        let mut out: Vec<Score> = Vec::new();
        let mut i: usize = 0;
        while i < self.nets.len()
            invariant
                i <= self.nets@.len(),
                out@ =~= all_scores(self.nets@).take(i as int),
            decreases self.nets@.len() - i,
        {
            out.push(self.nets[i].smoothed_or_zero());
            i = i + 1;
        }
        assert(out@ =~= all_scores(self.nets@));
        out
    }

    /// The smoothed scores of the nets that have one, in order.
    pub fn smoothed_fitness_values(&self) -> (r: Vec<Score>)
        ensures
            r@ == verdicts(self.nets@),
    {
        let mut out: Vec<Score> = Vec::new();
        let mut i: usize = 0;
        assert(self.nets@.take(0) =~= Seq::empty());
        while i < self.nets.len()
            invariant
                i <= self.nets@.len(),
                out@ == verdicts(self.nets@.take(i as int)),
            decreases self.nets@.len() - i,
        {
            assert(self.nets@.take(i + 1).drop_last() =~= self.nets@.take(i as int));
            if let Some(s) = self.nets[i].smoothed {
                out.push(s);
            }
            i = i + 1;
        }
        assert(self.nets@.take(self.nets@.len() as int) =~= self.nets@);
        out
    }

    /// The position of the net with the best smoothed fitness, the first of
    /// several; a net without a verdict counts as 0. None if nobody is alive.
    pub fn fittest_position(&self) -> (r: Option<usize>)
        ensures
            self.nets@.len() == 0 <==> r is None,
            r matches Some(i) ==> i < self.nets@.len() && i == best_index(
                self.direction,
                all_scores(self.nets@),
            ),
    {
        if self.nets.len() == 0 {
            return None;
        }
        let scores = self.scores_or_zero();
        Some(find_best(self.direction, &scores))
    }

    /// The hash of the fittest net.
    pub fn fittest_net_hash(&self) -> (r: Option<String>)
        ensures
            self.nets@.len() == 0 <==> r is None,
            r matches Some(h) ==> h@ == self.nets@[best_index(
                self.direction,
                all_scores(self.nets@),
            )].hash@,
    {
        match self.fittest_position() {
            Some(i) => Some(self.nets[i].hash.clone()),
            None => None,
        }
    }

    /// The best smoothed fitness of the population, 0 if nobody is alive.
    pub fn best_smoothed_fitness(&self) -> (r: Score)
        ensures
            r == best_score(self.direction, all_scores(self.nets@)),
    {
        let scores = self.scores_or_zero();
        best_of(self.direction, &scores)
    }

    // ── Clock, snapshot, stop ────────────────────────────────────────────

    /// The clock of the next step: one past the last clock any live net was
    /// measured at, 0 if there is none.
    pub fn step_clock(&self) -> (r: usize)
        requires
            next_clock(self.nets@) <= usize::MAX,
        ensures
            r == next_clock(self.nets@),
    {
        let mut clock: usize = 0;
        let mut i: usize = 0;
        assert(self.nets@.take(0) =~= Seq::empty());
        while i < self.nets.len()
            invariant
                i <= self.nets@.len(),
                next_clock(self.nets@) <= usize::MAX,
                clock == next_clock(self.nets@.take(i as int)),
            decreases self.nets@.len() - i,
        {
            proof {
                assert(self.nets@.take(i + 1).drop_last() =~= self.nets@.take(i as int));
                next_clock_grows(self.nets@, i + 1);
            }
            if let Some(m) = &self.nets[i].last_metrics {
                if m.step >= clock {
                    clock = m.step + 1;
                }
            }
            i = i + 1;
        }
        assert(self.nets@.take(self.nets@.len() as int) =~= self.nets@);
        clock
    }

    /// The read-only view handed to the caller's stop policy. `mean` is the
    /// mean of `smoothed_fitness_values`.
    pub fn snapshot(&self, step: usize, mean: Score, elapsed_seconds: u64) -> (r: RaceSnapshot)
        ensures
            r.live_count == self.nets@.len(),
            r.step == step,
            r.best_smoothed_fitness == best_score(self.direction, verdicts(self.nets@)),
            r.worst_smoothed_fitness == worst_score(self.direction, verdicts(self.nets@)),
            r.mean_smoothed_fitness == (if verdicts(self.nets@).len() == 0 {
                (Score { bits: 0 })
            } else {
                mean
            }),
            r.culls == self.culls,
            r.elapsed_seconds == elapsed_seconds,
    {
        let smoothed = self.smoothed_fitness_values();
        RaceSnapshot {
            live_count: self.nets.len(),
            step,
            best_smoothed_fitness: best_of(self.direction, &smoothed),
            worst_smoothed_fitness: best_of(self.direction.flip(), &smoothed),
            mean_smoothed_fitness: if smoothed.len() == 0 {
                Score { bits: 0 }
            } else {
                mean
            },
            culls: self.culls,
            elapsed_seconds,
        }
    }

    /// Whether and why the race stops after a step. An interrupt outranks
    /// everything; the step budget and the target come next; the verdict of
    /// the caller's own policy (`custom`) comes last.
    pub fn check_stop(
        &self,
        cfg: &RaceConfig,
        step: usize,
        interrupted: bool,
        custom: bool,
    ) -> (r: Option<StopReason>)
        ensures
            r == stop_reason(
                cfg.max_steps,
                cfg.max_target_fitness,
                self.direction,
                best_score(self.direction, all_scores(self.nets@)),
                step,
                interrupted,
                custom,
            ),
    {
        if interrupted {
            return Some(StopReason::Interrupted);
        }
        if let Some(max) = cfg.max_steps {
            if step >= max {
                return Some(StopReason::MaxSteps);
            }
        }
        if let Some(target) = cfg.max_target_fitness {
            let best = self.best_smoothed_fitness();
            if self.direction.has_reached(best, target) {
                return Some(StopReason::TargetScore);
            }
        }
        if custom {
            Some(StopReason::CustomStop)
        } else {
            None
        }
    }

    /// Enters a checkpoint into the ledger.
    pub fn record_checkpoint(&mut self, c: Checkpoint)
        ensures
            final(self).checkpoints@ == old(self).checkpoints@.push(c),
            *final(self) == (Race { checkpoints: final(self).checkpoints, ..*old(self) }),
    {
        self.checkpoints.push(c);
    }

    // ── Champions and survivors ──────────────────────────────────────────

    /// The champions: the best nets with a verdict, at least one seat.
    pub open spec fn champion_ranking(self) -> Seq<Ranked> {
        at_most(self.live_ranking(), crate::config::at_least_one_spec(self.elite_count) as nat)
    }

    /// The champions with their smoothed fitness, best first.
    pub fn champion_ranked(&self) -> (r: Vec<Ranked>)
        ensures
            r@ == self.champion_ranking(),
    {
        let mut ranked = self.rank_live();
        let k: usize = if self.elite_count == 0 {
            1
        } else {
            self.elite_count
        };
        ranked.truncate(k);
        assert(ranked@ =~= self.champion_ranking());
        ranked
    }

    /// Records the current champions.
    pub fn record_champions(&mut self)
        ensures
            crowned(*old(self), *final(self)),
    {
        let ranked = self.champion_ranked();
        let at = crate::ranking::first_positions(&ranked, ranked.len());
        proof {
            assert(at@ =~= positions(ranked@));
            self.live_ranking_fits();
            assert forall|k: int| 0 <= k < at@.len() implies (#[trigger] at@[k])
                < self.nets@.len() by {
                assert(at@[k] == ranked@[k].index);
                assert(ranked@[k] == self.live_ranking()[k]);
            }
        }
        let hashes = self.hashes_at(&at);
        self.champions = hashes;
    }

    /// The hashes recorded as champions, best first.
    pub fn champion_hashes(&self) -> (r: &Vec<String>)
        ensures
            *r == self.champions,
    {
        &self.champions
    }

    proof fn live_ranking_fits(self)
        ensures
            forall|k: int|
                0 <= k < self.live_ranking().len() ==> (#[trigger] self.live_ranking()[k]).index
                    < self.nets@.len(),
    {
        vec_len_fits(&self.nets);
        let scores = score_column(self.nets@);
        let c = candidates(scores, all_pass(self.nets@.len()));
        crate::ranking::candidates_are_sound(scores, all_pass(self.nets@.len()));
        crate::ranking::ranking_members(self.direction, c);
        assert forall|k: int| 0 <= k < self.live_ranking().len() implies (
        #[trigger] self.live_ranking()[k]).index < self.nets@.len() by {
            assert(c.contains(self.live_ranking()[k]));
            let m = choose|m: int| 0 <= m < c.len() && c[m] == self.live_ranking()[k];
            assert(c[m].index < scores.len());
        }
    }

    /// The worst of the nets with a smoothed fitness, last of the ranking.
    pub fn worst_live(&self) -> (r: Option<Ranked>)
        ensures
            self.live_ranking().len() == 0 <==> r is None,
            r matches Some(w) ==> w == self.live_ranking().last(),
    {
        let ranked = self.rank_live();
        if ranked.len() == 0 {
            None
        } else {
            Some(ranked[ranked.len() - 1])
        }
    }

    /// The positions the pruner keeps: the champions of the population, no
    /// more than are alive.
    pub open spec fn pruner_keeps(self) -> Seq<usize> {
        positions(self.champion_ranking())
    }

    /// The positions of the nets the pruner culls, in order.
    pub fn pruner_victims(&self) -> (r: Vec<usize>)
        ensures
            r@ == positions_outside(self.nets@.len(), self.pruner_keeps()),
    {
        let ranked = self.champion_ranked();
        let keep = crate::ranking::first_positions(&ranked, ranked.len());
        assert(keep@ =~= self.pruner_keeps());
        list_outside(self.nets.len(), &keep)
    }

    // ── Victims ──────────────────────────────────────────────────────────

    /// A live net outside the elite guard.
    pub open spec fn unprotected(self, i: usize) -> bool {
        &&& i < self.nets@.len()
        &&& !self.elite_set().contains(i)
    }

    proof fn guard_is_partial(self)
        ensures
            self.nets@.len() > 0 ==> self.elite_set().len() < self.nets@.len(),
    {
        vec_len_fits(&self.nets);
        if self.nets@.len() > 0 {
            crate::ranking::some_net_stays_cullable(
                self.direction,
                self.elite_count as nat,
                score_column(self.nets@),
                demoted_column(self.nets@),
            );
        }
    }

    proof fn worst_list_is_unprotected(self)
        ensures
            forall|k: int|
                0 <= k < worst_first(
                    self.direction,
                    score_column(self.nets@),
                    self.elite_set(),
                ).len() ==> self.unprotected(
                    #[trigger] worst_first(
                        self.direction,
                        score_column(self.nets@),
                        self.elite_set(),
                    )[k],
                ),
    {
        vec_len_fits(&self.nets);
        crate::ranking::worst_are_unprotected(
            self.direction,
            score_column(self.nets@),
            self.elite_set(),
        );
    }

    proof fn roulette_field_is_unprotected(self)
        ensures
            forall|k: int|
                0 <= k < self.roulette_field().len() ==> self.unprotected(
                    (#[trigger] self.roulette_field()[k]).index,
                ),
            self.roulette_entries().len() > 0 ==> self.roulette_field().len() > 0,
    {
        vec_len_fits(&self.nets);
        crate::ranking::candidates_are_sound(
            score_column(self.nets@),
            outside_mask(self.nets@.len(), self.elite_set()),
        );
        crate::ranking::the_best_is_left_out(self.direction, self.roulette_entries());
        let entries = self.roulette_entries();
        assert forall|k: int| 0 <= k < self.roulette_field().len() implies self.unprotected(
            (#[trigger] self.roulette_field()[k]).index,
        ) by {
            let e = self.roulette_field()[k];
            let j = choose|j: int| 0 <= j < entries.len() && entries[j] == e;
            assert(self.unprotected(entries[j].index));
        }
    }

    /// The unprotected positions, in order.
    pub open spec fn cullable(self) -> Seq<usize> {
        positions_outside(self.nets@.len(), self.elite_set())
    }

    /// The uniformly drawn victim of a clock.
    pub open spec fn random_victim_of(self, run_seed: u64, clock: usize, salt: usize) -> Option<
        usize,
    > {
        if self.cullable().len() == 0 {
            None
        } else {
            Some(
                self.cullable()[index_draw(
                    victim_seed(run_seed, clock, salt),
                    self.cullable().len() as usize,
                ).0 as int],
            )
        }
    }

    /// Picks the entry `draw` of the unprotected nets.
    pub fn cullable_at(&self, draw: usize) -> (r: Option<usize>)
        ensures
            r == (if draw < self.cullable().len() {
                Some(self.cullable()[draw as int])
            } else {
                None
            }),
            r matches Some(i) ==> self.unprotected(i),
            draw == 0 ==> (r is None <==> self.nets@.len() == 0),
    {
        let elite = self.elite_positions();
        proof {
            self.guard_is_partial();
        }
        let open = list_outside(self.nets.len(), &elite);
        if draw < open.len() {
            Some(open[draw])
        } else {
            None
        }
    }

    /// Draws a victim uniformly from the unprotected nets. It depends only on
    /// the population, the run seed, the clock and the salt.
    pub fn select_random_victim_at(&self, run_seed: u64, clock: usize, salt: usize) -> (r: Option<
        usize,
    >)
        ensures
            r == self.random_victim_of(run_seed, clock, salt),
            r is None <==> self.nets@.len() == 0,
            r matches Some(i) ==> self.unprotected(i),
            r matches Some(i) ==> is_drawn(*self, draw_seed(run_seed, clock, salt), i),
    {
        let elite = self.elite_positions();
        proof {
            self.guard_is_partial();
            vec_len_fits(&self.nets);
            outside_positions_are_numbered(self.nets@.len(), self.elite_set(), 0);
        }
        let open = list_outside(self.nets.len(), &elite);
        if open.len() == 0 {
            return None;
        }
        let seed: u64 = derive_seed(run_seed, clock.wrapping_mul(7919).wrapping_add(salt));
        let (k, _) = draw_index(seed, open.len());
        Some(open[k])
    }

    /// The victim of a crossover child.
    pub open spec fn crossover_victim_of(
        self,
        policy: CrossCullPolicy,
        run_seed: u64,
        clock: usize,
    ) -> Option<usize> {
        let worst = worst_first(self.direction, score_column(self.nets@), self.elite_set());
        match policy {
            CrossCullPolicy::Worst => if worst.len() > 0 {
                Some(worst[0])
            } else {
                None
            },
            CrossCullPolicy::Random => self.random_victim_of(run_seed, clock, 0),
        }
    }

    /// Who makes room for a crossover child: the worst unprotected net, or a
    /// drawn one. None if no unprotected net qualifies.
    pub fn select_crossover_victim(
        &self,
        policy: CrossCullPolicy,
        run_seed: u64,
        clock: usize,
    ) -> (r: Option<usize>)
        ensures
            r == self.crossover_victim_of(policy, run_seed, clock),
            r matches Some(i) ==> self.unprotected(i),
            r matches Some(i) ==> (policy == CrossCullPolicy::Random ==> is_drawn(
                *self,
                draw_seed(run_seed, clock, 0),
                i,
            )),
    {
        match policy {
            CrossCullPolicy::Worst => {
                proof {
                    self.worst_list_is_unprotected();
                }
                let worst = self.worst_positions(1);
                if worst.len() > 0 {
                    Some(worst[0])
                } else {
                    None
                }
            },
            CrossCullPolicy::Random => self.select_random_victim_at(run_seed, clock, 0),
        }
    }

    /// The last resort of the mutation channel: the worst unprotected net, or
    /// the first unprotected one if none has a verdict.
    pub open spec fn fallback_victim(self) -> Option<usize> {
        let worst = worst_first(self.direction, score_column(self.nets@), self.elite_set());
        if worst.len() > 0 {
            Some(worst[0])
        } else if self.cullable().len() > 0 {
            Some(self.cullable()[0])
        } else {
            None
        }
    }

    pub fn mutation_victim_fallback(&self) -> (r: Option<usize>)
        ensures
            r == self.fallback_victim(),
            r is None <==> self.nets@.len() == 0,
            r matches Some(i) ==> self.unprotected(i),
    {
        proof {
            self.worst_list_is_unprotected();
        }
        let worst = self.worst_positions(1);
        if worst.len() > 0 {
            Some(worst[0])
        } else {
            self.cullable_at(0)
        }
    }

    /// The nets the inverse-fitness roulette is about: the unprotected ones with
    /// a verdict, in order.
    pub open spec fn roulette_entries(self) -> Seq<Ranked> {
        candidates(
            score_column(self.nets@),
            outside_mask(self.nets@.len(), self.elite_set()),
        )
    }

    /// The nets the roulette can stop at. The best of its entries weighs
    /// nothing: it is left out, and whoever ties with it, unless all tie.
    pub open spec fn roulette_field(self) -> Seq<Ranked> {
        without_best(self.direction, self.roulette_entries())
    }

    /// Whether there is anything to roll for: two nets alive, and two entries.
    pub open spec fn roulette_runs(self) -> bool {
        self.nets@.len() >= 2 && self.roulette_entries().len() >= 2
    }

    fn collect_roulette(&self) -> (r: Vec<Ranked>)
        ensures
            r@ == self.roulette_entries(),
    {
        let scores = self.scores();
        let elite = self.elite_positions();
        let mask = make_outside_mask(self.nets.len(), &elite);
        collect_candidates(&scores, &mask)
    }

    /// The best score among the entries of the roulette, which the weights are
    /// measured from; 0 if there is no entry.
    pub fn roulette_best(&self) -> (r: Score)
        ensures
            r == best_score(self.direction, entry_scores(self.roulette_entries())),
    {
        let entries = self.collect_roulette();
        let mut scores: Vec<Score> = Vec::new();
        let mut i: usize = 0;
        while i < entries.len()
            invariant
                i <= entries@.len(),
                scores@ =~= entry_scores(entries@).take(i as int),
            decreases entries@.len() - i,
        {
            scores.push(entries[i].score);
            i = i + 1;
        }
        assert(scores@ =~= entry_scores(entries@));
        best_of(self.direction, &scores)
    }

    /// The field of the roulette, or none if there is nothing to roll for.
    pub fn roulette_candidates(&self) -> (r: Option<Vec<Ranked>>)
        ensures
            r is Some <==> self.roulette_runs(),
            r matches Some(field) ==> field@ == self.roulette_field(),
    {
        if self.nets.len() < 2 {
            return None;
        }
        let entries = self.collect_roulette();
        if entries.len() < 2 {
            None
        } else {
            Some(drop_best(self.direction, &entries))
        }
    }

    /// The victim of an immigrant, given what the roulette picked from its
    /// field (the last entry for a pick beyond it).
    pub open spec fn mutation_victim_of(
        self,
        policy: MutationCullPolicy,
        run_seed: u64,
        clock: usize,
        roll: usize,
        pick: usize,
    ) -> Option<usize> {
        match policy {
            MutationCullPolicy::InverseFitness => if self.roulette_runs() {
                let field = self.roulette_field();
                Some(
                    if pick < field.len() {
                        field[pick as int].index
                    } else {
                        field.last().index
                    },
                )
            } else {
                self.fallback_victim()
            },
            MutationCullPolicy::Worst => self.fallback_victim(),
            MutationCullPolicy::Random => match self.random_victim_of(
                run_seed,
                clock,
                (roll + 1) as usize,
            ) {
                Some(i) => Some(i),
                None => self.fallback_victim(),
            },
        }
    }

    /// Who makes room for an immigrant. `pick` is the entry of the roulette's
    /// field that the inverse-fitness roulette stopped at.
    pub fn select_mutation_victim(
        &self,
        policy: MutationCullPolicy,
        run_seed: u64,
        clock: usize,
        roll: usize,
        pick: usize,
    ) -> (r: Option<usize>)
        requires
            roll < usize::MAX,
        ensures
            r == self.mutation_victim_of(policy, run_seed, clock, roll, pick),
            r is None <==> self.nets@.len() == 0,
            r matches Some(i) ==> self.unprotected(i),
            r matches Some(i) ==> (policy == MutationCullPolicy::Random ==> is_drawn(
                *self,
                draw_seed(run_seed, clock, (roll + 1) as usize),
                i,
            )),
    {
        proof {
            self.roulette_field_is_unprotected();
        }
        match policy {
            MutationCullPolicy::InverseFitness => match self.roulette_candidates() {
                Some(field) => {
                    if pick < field.len() {
                        Some(field[pick].index)
                    } else {
                        Some(field[field.len() - 1].index)
                    }
                },
                None => self.mutation_victim_fallback(),
            },
            MutationCullPolicy::Worst => self.mutation_victim_fallback(),
            MutationCullPolicy::Random => match self.select_random_victim_at(
                run_seed,
                clock,
                roll + 1,
            ) {
                Some(i) => Some(i),
                None => self.mutation_victim_fallback(),
            },
        }
    }

    // ── Child ordinals ───────────────────────────────────────────────────

    /// How many children were generated at a clock.
    pub open spec fn born_at(self, clock: usize) -> usize {
        if self.births@.contains_key(clock) {
            self.births@[clock]
        } else {
            0
        }
    }

    /// Hands out the next child ordinal of a clock.
    pub fn next_child_ordinal(&mut self, clock: usize) -> (r: usize)
        requires
            old(self).born_at(clock) < usize::MAX,
        ensures
            r == old(self).born_at(clock),
            *final(self) == (Race { births: final(self).births, ..*old(self) }),
            final(self).births@ == old(self).births@.insert(clock, (r + 1) as usize),
            final(self).born_at(clock) == r + 1,
            handed_out(*old(self), *final(self), clock, r),
    {
        let idx: usize = match self.births.get(&clock) {
            Some(n) => *n,
            None => 0,
        };
        self.births.insert(clock, idx + 1);
        idx
    }

    /// Marks all ordinals of a clock below `used` as handed out.
    pub fn consume_ordinals(&mut self, clock: usize, used: usize)
        ensures
            *final(self) == (Race { births: final(self).births, ..*old(self) }),
            final(self).births@ == old(self).births@.insert(clock, used),
            final(self).born_at(clock) == used,
    {
        self.births.insert(clock, used);
    }
}

/// An ordinal of a clock was handed out.
pub open spec fn handed_out(before: Race, after: Race, clock: usize, ordinal: usize) -> bool {
    &&& ordinal == before.born_at(clock)
    &&& after == (Race { births: after.births, ..before })
    &&& after.births@ == before.births@.insert(clock, (ordinal + 1) as usize)
}

/// Ordinals are handed out in turn, from 0 on, at each clock for itself.
pub proof fn ordinals_are_handed_out_in_turn(
    first: Race,
    second: Race,
    third: Race,
    clock: usize,
    a: usize,
    b: usize,
    other: usize,
)
    requires
        handed_out(first, second, clock, a),
        handed_out(second, third, clock, b),
        a < usize::MAX,
    ensures
        !first.births@.contains_key(clock) ==> a == 0,
        first.births@.contains_key(clock) ==> a == first.births@[clock],
        b == a + 1,
        other != clock ==> third.born_at(other) == first.born_at(other),
        third.nets == first.nets && third.checkpoints == first.checkpoints && third.culls
            == first.culls,
{
}

/// The race once its champions are written down: the hashes of the best nets,
/// best first.
pub open spec fn crowned(before: Race, after: Race) -> bool {
    &&& after == (Race { champions: after.champions, ..before })
    &&& after.champions@.len() == before.champion_ranking().len()
    &&& forall|k: int|
        0 <= k < after.champions@.len() ==> (#[trigger] after.champions@[k])@
            == before.nets@[before.champion_ranking()[k].index as int].hash@
}

/// Which stop criterion fires, in order of precedence.
pub open spec fn stop_reason(
    max_steps: Option<usize>,
    target: Option<Score>,
    direction: Direction,
    best: Score,
    step: usize,
    interrupted: bool,
    custom: bool,
) -> Option<StopReason> {
    if interrupted {
        Some(StopReason::Interrupted)
    } else if max_steps is Some && step >= max_steps->0 {
        Some(StopReason::MaxSteps)
    } else if target is Some && direction.reaches(best, target->0) {
        Some(StopReason::TargetScore)
    } else if custom {
        Some(StopReason::CustomStop)
    } else {
        None
    }
}

/// The inverse-fitness roulette never stops at the best of its entries while
/// another is worse, whatever it picks: the victim is an unprotected net with a
/// verdict, and some other entry is better (unless its score is no number).
pub proof fn the_best_is_never_drawn(
    race: Race,
    run_seed: u64,
    clock: usize,
    roll: usize,
    pick: usize,
)
    requires
        race.roulette_runs(),
        crate::ranking::some_beaten(race.direction, race.roulette_entries()),
    ensures
        race.mutation_victim_of(
            MutationCullPolicy::InverseFitness,
            run_seed,
            clock,
            roll,
            pick,
        ) matches Some(i) && exists|k: int|
            {
                &&& 0 <= k < race.roulette_entries().len()
                &&& (#[trigger] race.roulette_entries()[k]).index == i
                &&& crate::ranking::trails(
                    race.direction,
                    race.roulette_entries(),
                    race.roulette_entries()[k],
                )
            },
{
    let entries = race.roulette_entries();
    let field = race.roulette_field();
    crate::ranking::the_best_is_left_out(race.direction, entries);
    let e = if pick < field.len() {
        field[pick as int]
    } else {
        field.last()
    };
    assert(field.contains(e));
    let k = choose|k: int| 0 <= k < entries.len() && entries[k] == e;
    assert(entries[k].index == e.index);
}

/// The position of the best score, the first of several that tie.
pub fn find_best(direction: Direction, scores: &Vec<Score>) -> (r: usize)
    requires
        scores@.len() > 0,
    ensures
        r == best_index(direction, scores@),
        r < scores@.len(),
{
    let mut best: usize = 0;
    let mut i: usize = 1;
    while i < scores.len()
        invariant
            1 <= i <= scores@.len(),
            best < i,
            best == best_index(direction, scores@.take(i as int)),
        decreases scores@.len() - i,
    {
        assert(scores@.take(i + 1).drop_last() =~= scores@.take(i as int));
        if direction.is_better(scores[i], scores[best]) {
            best = i;
        }
        i = i + 1;
    }
    assert(scores@.take(scores@.len() as int) =~= scores@);
    best
}

/// The best score, 0 for none.
pub fn best_of(direction: Direction, scores: &Vec<Score>) -> (r: Score)
    ensures
        r == best_score(direction, scores@),
{
    if scores.len() == 0 {
        Score { bits: 0 }
    } else {
        scores[find_best(direction, scores)]
    }
}

/// The positions below `n` outside `chosen`, in order.
pub fn list_outside(n: usize, chosen: &Vec<usize>) -> (r: Vec<usize>)
    ensures
        r@ == positions_outside(n as nat, chosen@),
        forall|k: int|
            0 <= k < r@.len() ==> (#[trigger] r@[k]) < n && !chosen@.contains(r@[k]),
        n > 0 && chosen@.len() < n ==> r@.len() > 0,
{
    let mut out: Vec<usize> = Vec::new();
    let mut i: usize = 0;
    while i < n
        invariant
            i <= n,
            out@ == positions_outside(i as nat, chosen@),
            forall|k: int|
                0 <= k < out@.len() ==> (#[trigger] out@[k]) < i && !chosen@.contains(out@[k]),
        decreases n - i,
    {
        if !is_among(i, chosen) {
            out.push(i);
        }
        i = i + 1;
    }
    proof {
        if n > 0 && chosen@.len() < n {
            some_position_is_outside(n as nat, chosen@);
        }
    }
    out
}

/// Fewer than `n` chosen positions leave one outside.
pub proof fn some_position_is_outside(n: nat, chosen: Seq<usize>)
    requires
        chosen.len() < n <= usize::MAX,
    ensures
        positions_outside(n, chosen).len() > 0,
{
    crate::ranking::a_position_is_left(chosen, n);
    let i = choose|i: int| 0 <= i < n && !chosen.contains(#[trigger] (i as usize));
    outside_positions_are_listed(n, chosen, i);
}

/// A position outside `chosen` is listed as such.
pub proof fn outside_positions_are_listed(n: nat, chosen: Seq<usize>, i: int)
    requires
        0 <= i < n <= usize::MAX,
        !chosen.contains(i as usize),
    ensures
        positions_outside(n, chosen).contains(i as usize),
        positions_outside(n, chosen).len() > 0,
    decreases n,
{
    let all = positions_outside(n, chosen);
    if i == n - 1 {
        assert(all[all.len() - 1] == i as usize);
    } else {
        outside_positions_are_listed((n - 1) as nat, chosen, i);
        let rest = positions_outside((n - 1) as nat, chosen);
        let k = choose|k: int| 0 <= k < rest.len() && rest[k] == i as usize;
        assert(all[k] == i as usize);
    }
}

/// A vector is never longer than `usize` can count.
proof fn vec_len_fits<T>(v: &Vec<T>)
    ensures
        v@.len() <= usize::MAX,
{
    assert(v@.len() == v.len());
}


// ── What the list keeps ──────────────────────────────────────────────────

proof fn next_clock_grows(nets: Seq<Net>, n: int)
    requires
        0 <= n <= nets.len(),
    ensures
        next_clock(nets.take(n)) <= next_clock(nets),
        0 <= next_clock(nets.take(n)),
    decreases nets.len(),
{
    if n == nets.len() {
        assert(nets.take(n) =~= nets);
        if nets.len() > 0 {
            next_clock_grows(nets.drop_last(), nets.len() - 1);
            assert(nets.drop_last().take(nets.len() - 1) =~= nets.drop_last());
        }
    } else {
        next_clock_grows(nets.drop_last(), n);
        assert(nets.drop_last().take(n) =~= nets.take(n));
    }
}

/// The slot splits a list in hash order: what is before it comes before the
/// hash, what is behind it does not.
pub proof fn slot_splits(nets: Seq<Net>, hash: Seq<char>)
    requires
        in_hash_order(nets),
    ensures
        0 <= slot(nets, hash) <= nets.len(),
        forall|i: int|
            0 <= i < slot(nets, hash) ==> text_below((#[trigger] nets[i]).hash@, hash),
        forall|i: int|
            slot(nets, hash) <= i < nets.len() ==> !text_below((#[trigger] nets[i]).hash@, hash),
    decreases nets.len(),
{
    if nets.len() > 0 {
        let rest = nets.skip(1);
        assert(in_hash_order(rest)) by {
            assert forall|i: int, j: int| 0 <= i < j < rest.len() implies text_below(
                (#[trigger] rest[i]).hash@,
                (#[trigger] rest[j]).hash@,
            ) by {
                assert(rest[i] == nets[i + 1] && rest[j] == nets[j + 1]);
            }
        }
        slot_splits(rest, hash);
        if text_below(nets[0].hash@, hash) {
            assert forall|i: int| 0 <= i < slot(nets, hash) implies text_below(
                (#[trigger] nets[i]).hash@,
                hash,
            ) by {
                if i > 0 {
                    assert(rest[i - 1] == nets[i]);
                }
            }
            assert forall|i: int| slot(nets, hash) <= i < nets.len() implies !text_below(
                (#[trigger] nets[i]).hash@,
                hash,
            ) by {
                assert(rest[i - 1] == nets[i]);
            }
        } else {
            assert forall|i: int| 0 <= i < nets.len() implies !text_below(
                (#[trigger] nets[i]).hash@,
                hash,
            ) by {
                if i > 0 && text_below(nets[i].hash@, hash) {
                    text_order_is_transitive(nets[0].hash@, nets[i].hash@, hash);
                }
            }
        }
    }
}

/// A hash is in the list exactly if some net has it.
pub proof fn slot_finds(nets: Seq<Net>, hash: Seq<char>)
    requires
        in_hash_order(nets),
    ensures
        0 <= slot(nets, hash) <= nets.len(),
        holds(nets, hash) <==> exists|i: int|
            0 <= i < nets.len() && (#[trigger] nets[i]).hash@ == hash,
{
    slot_splits(nets, hash);
    if exists|i: int| 0 <= i < nets.len() && (#[trigger] nets[i]).hash@ == hash {
        let i = choose|i: int| 0 <= i < nets.len() && (#[trigger] nets[i]).hash@ == hash;
        text_order_is_total(hash, hash);
        let s = slot(nets, hash);
        if s < i {
            text_order_is_total(nets[s].hash@, hash);
            assert(text_below(nets[s].hash@, nets[i].hash@));
        }
    }
}

/// Inserting a net keeps the order of hashes.
pub proof fn with_net_keeps_order(nets: Seq<Net>, net: Net)
    requires
        in_hash_order(nets),
    ensures
        in_hash_order(with_net(nets, net)),
        0 <= slot(nets, net.hash@) <= nets.len(),
{
    let h = net.hash@;
    let p = slot(nets, h);
    slot_splits(nets, h);
    let after = with_net(nets, net);
    if holds(nets, h) {
        assert forall|i: int, j: int| 0 <= i < j < after.len() implies text_below(
            (#[trigger] after[i]).hash@,
            (#[trigger] after[j]).hash@,
        ) by {
            assert(after[i].hash@ == nets[i].hash@);
            assert(after[j].hash@ == nets[j].hash@);
        }
    } else {
        assert forall|i: int, j: int| 0 <= i < j < after.len() implies text_below(
            (#[trigger] after[i]).hash@,
            (#[trigger] after[j]).hash@,
        ) by {
            if j == p {
                assert(after[i] == nets[i]);
            } else if i == p {
                assert(after[j] == nets[j - 1]);
                text_order_is_total(nets[j - 1].hash@, h);
                if nets[j - 1].hash@ == h {
                    slot_finds(nets, h);
                }
            } else {
                let ii = if i < p { i } else { i - 1 };
                let jj = if j < p { j } else { j - 1 };
                assert(after[i] == nets[ii] && after[j] == nets[jj]);
            }
        }
    }
}


/// The next clock lies behind every recorded one.
pub proof fn next_clock_is_new(nets: Seq<Net>, i: int)
    requires
        0 <= i < nets.len(),
        nets[i].last_metrics is Some,
    ensures
        next_clock(nets) > nets[i].last_metrics->0.step,
    decreases nets.len(),
{
    if i < nets.len() - 1 {
        next_clock_is_new(nets.drop_last(), i);
    }
}

/// Once somebody was measured at a clock and nobody beyond it, the next clock
/// is the one behind it, however often each net has trained.
pub proof fn clock_advances_by_one(nets: Seq<Net>, clock: usize, i: int)
    requires
        0 <= i < nets.len(),
        nets[i].last_metrics is Some,
        nets[i].last_metrics->0.step == clock,
        forall|j: int|
            0 <= j < nets.len() && (#[trigger] nets[j]).last_metrics is Some
                ==> nets[j].last_metrics->0.step <= clock,
    ensures
        next_clock(nets) == clock + 1,
{
    next_clock_is_new(nets, i);
    next_clock_is_bounded(nets, clock);
}

proof fn next_clock_is_bounded(nets: Seq<Net>, clock: usize)
    requires
        forall|j: int|
            0 <= j < nets.len() && (#[trigger] nets[j]).last_metrics is Some
                ==> nets[j].last_metrics->0.step <= clock,
    ensures
        next_clock(nets) <= clock + 1,
    decreases nets.len(),
{
    if nets.len() > 0 {
        assert(nets.last() == nets[nets.len() - 1]);
        assert forall|j: int|
            0 <= j < nets.drop_last().len() && (#[trigger] nets.drop_last()[j]).last_metrics is Some implies nets.drop_last()[j].last_metrics->0.step
            <= clock by {
            assert(nets.drop_last()[j] == nets[j]);
        }
        next_clock_is_bounded(nets.drop_last(), clock);
    }
}

/// Nothing in a list of numbers beats the one found as best, and everything
/// before it falls short of it.
pub proof fn best_is_best(direction: Direction, scores: Seq<Score>, i: int)
    requires
        0 <= i < scores.len(),
        forall|j: int| 0 <= j < scores.len() ==> !(#[trigger] scores[j]).nan(),
    ensures
        0 <= best_index(direction, scores) < scores.len(),
        !direction.better(scores[i], scores[best_index(direction, scores)]),
        i < best_index(direction, scores) ==> direction.better(
            scores[best_index(direction, scores)],
            scores[i],
        ),
    decreases scores.len(),
{
    if scores.len() > 1 {
        let rest = scores.drop_last();
        assert forall|j: int| 0 <= j < rest.len() implies !(#[trigger] rest[j]).nan() by {
            assert(rest[j] == scores[j]);
        }
        let b = best_index(direction, rest);
        best_is_best(direction, rest, if i < rest.len() { i } else { 0 });
        assert(rest[b] == scores[b]);
        assert(!scores[scores.len() - 1].nan());
        assert(!scores[b].nan());
    }
}

} // verus!
