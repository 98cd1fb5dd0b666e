//! The checkpoint gate a crossover child has to pass.
//!
//! A child is replayed from the start of the run. At each bar on its way its
//! smoothed fitness is held against what the population had at that point; the
//! first bar it fails to beat ends the trial.

use vstd::prelude::*;

use crate::config::CrossoverGate;
use crate::race::Checkpoint;
use crate::score::{Direction, Score};

verus! {

/// How one evolution roll ended.
#[derive(Debug)]
pub struct RollOutcome {
    /// Whether the child joined the population.
    pub survived: bool,
    /// What the log says about it.
    pub detail: String,
}

impl RollOutcome {
    pub fn survived(detail: String) -> (r: RollOutcome)
        ensures
            r.survived,
            r.detail == detail,
    {
        RollOutcome { survived: true, detail }
    }

    pub fn spent(detail: String) -> (r: RollOutcome)
        ensures
            !r.survived,
            r.detail == detail,
    {
        RollOutcome { survived: false, detail }
    }
}

/// One bar: replay to `step`, then beat `bar`.
#[derive(Clone, Copy, Debug, PartialEq, Eq, Structural)]
pub struct Bar {
    /// The number under which the bar is reported, counted from 1.
    pub number: usize,
    pub step: usize,
    pub bar: Score,
}

/// The checkpoints up to a clock, each as a bar numbered by its place in the
/// ledger.
pub open spec fn bars_until(ledger: Seq<Checkpoint>, clock: usize) -> Seq<Bar>
    decreases ledger.len(),
{
    if ledger.len() == 0 {
        Seq::empty()
    } else {
        let rest = bars_until(ledger.drop_last(), clock);
        let c = ledger.last();
        if c.step <= clock {
            rest.push(
                Bar { number: ledger.len() as usize, step: c.step, bar: c.pop_mean_fitness },
            )
        } else {
            rest
        }
    }
}

/// The bars a child faces at a clock. A hard gate asks for every checkpoint; a
/// soft one asks once, at the last checkpoint, against the mean of all of them
/// (`mean_of_means`).
pub open spec fn gate_bars(
    gate: CrossoverGate,
    ledger: Seq<Checkpoint>,
    clock: usize,
    mean_of_means: Score,
) -> Seq<Bar> {
    let all = bars_until(ledger, clock);
    match gate {
        CrossoverGate::Hard => all,
        CrossoverGate::Soft => if all.len() == 0 {
            Seq::empty()
        } else {
            seq![Bar { number: all.len() as usize, step: all.last().step, bar: mean_of_means }]
        },
    }
}

/// Collects the checkpoints up to a clock.
pub fn collect_bars(ledger: &Vec<Checkpoint>, clock: usize) -> (r: Vec<Bar>)
    ensures
        r@ == bars_until(ledger@, clock),
        r@.len() <= ledger@.len(),
{
    let mut out: Vec<Bar> = Vec::new();
    let mut i: usize = 0;
    assert(ledger@.take(0) =~= Seq::empty());
    while i < ledger.len()
        invariant
            i <= ledger@.len(),
            out@ == bars_until(ledger@.take(i as int), clock),
            out@.len() <= i,
        decreases ledger@.len() - i,
    {
        proof {
            assert(ledger@.take(i + 1).drop_last() =~= ledger@.take(i as int));
            assert(ledger@.take(i + 1).last() == ledger@[i as int]);
        }
        let c = ledger[i];
        if c.step <= clock {
            out.push(Bar { number: i + 1, step: c.step, bar: c.pop_mean_fitness });
        }
        i = i + 1;
    }
    assert(ledger@.take(ledger@.len() as int) =~= ledger@);
    out
}

/// The population means behind the bars up to a clock; their mean is the bar of
/// a soft gate.
pub fn collect_means(ledger: &Vec<Checkpoint>, clock: usize) -> (r: Vec<Score>)
    ensures
        r@ == bars_until(ledger@, clock).map_values(|b: Bar| b.bar),
{
    let bars = collect_bars(ledger, clock);
    let ghost all = bars@.map_values(|b: Bar| b.bar);
    let mut out: Vec<Score> = Vec::new();
    let mut i: usize = 0;
    while i < bars.len()
        invariant
            i <= bars@.len(),
            all == bars@.map_values(|b: Bar| b.bar),
            out@ =~= all.take(i as int),
        decreases bars@.len() - i,
    {
        out.push(bars[i].bar);
        i = i + 1;
    }
    assert(out@ =~= all);
    out
}

/// The bars a child faces at a clock.
pub fn make_gate_bars(
    gate: CrossoverGate,
    ledger: &Vec<Checkpoint>,
    clock: usize,
    mean_of_means: Score,
) -> (r: Vec<Bar>)
    ensures
        r@ == gate_bars(gate, ledger@, clock, mean_of_means),
{
    let all = collect_bars(ledger, clock);
    match gate {
        CrossoverGate::Hard => all,
        CrossoverGate::Soft => {
            let mut out: Vec<Bar> = Vec::new();
            if all.len() > 0 {
                out.push(
                    Bar { number: all.len(), step: all[all.len() - 1].step, bar: mean_of_means },
                );
            }
            assert(out@ =~= gate_bars(gate, ledger@, clock, mean_of_means));
            out
        },
    }
}

/// The bar that counts at a clock: the last one a child faces, none before the
/// first checkpoint.
pub fn current_gate_bar(
    gate: CrossoverGate,
    ledger: &Vec<Checkpoint>,
    clock: usize,
    mean_of_means: Score,
) -> (r: Option<Score>)
    ensures
        r == (if gate_bars(gate, ledger@, clock, mean_of_means).len() == 0 {
            None
        } else {
            Some(gate_bars(gate, ledger@, clock, mean_of_means).last().bar)
        }),
{
    let bars = make_gate_bars(gate, ledger, clock, mean_of_means);
    if bars.len() == 0 {
        None
    } else {
        Some(bars[bars.len() - 1].bar)
    }
}

/// The trial of one child.
#[derive(Debug)]
pub struct GateRun {
    pub bars: Vec<Bar>,
    /// How many bars the child has beaten.
    pub beaten: usize,
    /// The clock up to which the child has been replayed.
    pub replayed_to: usize,
    /// The child's fitness at the last bar it was held against.
    pub fitness: Option<Score>,
    /// Whether the child failed its next bar.
    pub failed: bool,
}

/// The number of bars that a child with these scores beats in a row.
pub open spec fn bars_beaten(direction: Direction, bars: Seq<Bar>, scores: Seq<Score>) -> nat
    decreases scores.len(),
{
    if scores.len() == 0 || bars.len() == 0 {
        0
    } else if direction.better(scores[0], bars[0].bar) {
        1 + bars_beaten(direction, bars.skip(1), scores.skip(1))
    } else {
        0
    }
}

/// The clocks to replay before the next bar; none once the trial is over.
pub open spec fn replay_before_bar(run: GateRun) -> Option<(usize, usize)> {
    if run.failed || run.beaten == run.bars@.len() {
        None
    } else {
        Some((run.replayed_to, run.bars@[run.beaten as int].step))
    }
}

/// A child was held against its next bar, and did or did not beat it.
pub open spec fn judged(
    before: GateRun,
    after: GateRun,
    direction: Direction,
    fitness: Score,
    beat: bool,
) -> bool {
    let bar = before.bars@[before.beaten as int];
    &&& beat == direction.better(fitness, bar.bar)
    &&& after.bars == before.bars
    &&& after.failed == !beat
    &&& after.beaten == before.beaten + (if beat {
        1int
    } else {
        0int
    })
    &&& after.replayed_to == bar.step
    &&& after.fitness == Some(fitness)
}

impl GateRun {
    pub open spec fn well_formed(self) -> bool {
        &&& self.beaten <= self.bars@.len()
        &&& self.failed ==> self.beaten < self.bars@.len()
        &&& !self.failed && self.beaten > 0 ==> self.replayed_to == self.bars@[self.beaten
            - 1].step
        &&& self.beaten == 0 && !self.failed ==> self.replayed_to == 0
        &&& self.beaten > 0 ==> self.fitness is Some
    }

    /// Starts the trial: nothing beaten, nothing replayed.
    pub fn new(bars: Vec<Bar>) -> (r: GateRun)
        ensures
            r.well_formed(),
            r.bars == bars,
            r.beaten == 0,
            r.replayed_to == 0,
            r.fitness is None,
            !r.failed,
    {
        GateRun { bars, beaten: 0, replayed_to: 0, fitness: None, failed: false }
    }

    /// The clocks to replay before the next bar: from the first to the second,
    /// without the second. None once the trial is over.
    pub fn next_replay(&self) -> (r: Option<(usize, usize)>)
        requires
            self.well_formed(),
        ensures
            r == (if self.failed || self.beaten == self.bars@.len() {
                None
            } else {
                Some((self.replayed_to, self.bars@[self.beaten as int].step))
            }),
            r == replay_before_bar(*self),
    {
        if self.failed || self.beaten == self.bars.len() {
            None
        } else {
            Some((self.replayed_to, self.bars[self.beaten].step))
        }
    }

    /// Holds the child, replayed to its next bar, against that bar.
    pub fn judge(&mut self, direction: Direction, child_fitness: Score) -> (r: bool)
        requires
            old(self).well_formed(),
            !old(self).failed,
            old(self).beaten < old(self).bars@.len(),
        ensures
            final(self).well_formed(),
            final(self).bars == old(self).bars,
            r == direction.better(child_fitness, old(self).bars@[old(self).beaten as int].bar),
            final(self).failed == !r,
            final(self).beaten == old(self).beaten + (if r {
                1int
            } else {
                0int
            }),
            final(self).replayed_to == old(self).bars@[old(self).beaten as int].step,
            final(self).fitness == Some(child_fitness),
            judged(*old(self), *final(self), direction, child_fitness, r),
    {
        let total: usize = self.bars.len();
        assert(self.beaten < total);
        let bar = self.bars[self.beaten];
        self.replayed_to = bar.step;
        self.fitness = Some(child_fitness);
        if direction.is_better(child_fitness, bar.bar) {
            self.beaten = self.beaten + 1;
            true
        } else {
            self.failed = true;
            false
        }
    }

    /// Whether the child has beaten every bar.
    pub fn passed(&self) -> (r: bool)
        requires
            self.well_formed(),
        ensures
            r == (!self.failed && self.beaten == self.bars@.len()),
    {
        !self.failed && self.beaten == self.bars.len()
    }

    /// The bar the child failed at.
    pub fn failed_bar(&self) -> (r: Option<Bar>)
        requires
            self.well_formed(),
        ensures
            r == (if self.failed {
                Some(self.bars@[self.beaten as int])
            } else {
                None
            }),
    {
        if self.failed {
            Some(self.bars[self.beaten])
        } else {
            None
        }
    }

    /// The clocks left to replay for a child that passed.
    pub fn final_replay(&self, clock: usize) -> (r: (usize, usize))
        ensures
            r == (self.replayed_to, clock),
    {
        (self.replayed_to, clock)
    }
}

/// The state of a trial after the child was held against bars with `scores`.
pub open spec fn trial_state(direction: Direction, run: GateRun, scores: Seq<Score>) -> bool {
    let n = bars_beaten(direction, run.bars@, scores);
    &&& run.beaten == n
    &&& run.failed == (n < scores.len())
}

/// Judging a child keeps the trial in step with the scores it showed: it has
/// beaten as many bars as those scores beat in a row.
pub proof fn judging_counts_bars(
    direction: Direction,
    before: GateRun,
    after: GateRun,
    scores: Seq<Score>,
    score: Score,
)
    requires
        before.well_formed(),
        !before.failed,
        before.beaten < before.bars@.len(),
        trial_state(direction, before, scores),
        scores.len() == before.beaten,
        after.bars == before.bars,
        after.failed == !direction.better(score, before.bars@[before.beaten as int].bar),
        after.beaten == before.beaten + (if after.failed {
            0int
        } else {
            1int
        }),
    ensures
        trial_state(direction, after, scores.push(score)),
{
    bars_beaten_by_one_more(direction, before.bars@, scores, score);
}

proof fn bars_beaten_by_one_more(
    direction: Direction,
    bars: Seq<Bar>,
    scores: Seq<Score>,
    score: Score,
)
    requires
        bars_beaten(direction, bars, scores) == scores.len(),
        scores.len() < bars.len(),
    ensures
        bars_beaten(direction, bars, scores.push(score)) == scores.len() + (if direction.better(
            score,
            bars[scores.len() as int].bar,
        ) {
            1int
        } else {
            0int
        }),
    decreases scores.len(),
{
    let more = scores.push(score);
    if scores.len() == 0 {
        assert(more.skip(1) =~= Seq::empty());
        assert(bars_beaten(direction, bars.skip(1), more.skip(1)) == 0);
    } else {
        assert(more[0] == scores[0]);
        assert(more.skip(1) =~= scores.skip(1).push(score));
        bars_beaten_bounded(direction, bars.skip(1), scores.skip(1));
        bars_beaten_by_one_more(direction, bars.skip(1), scores.skip(1), score);
        assert(bars.skip(1)[scores.len() - 1] == bars[scores.len() as int]);
    }
}

proof fn bars_beaten_bounded(direction: Direction, bars: Seq<Bar>, scores: Seq<Score>)
    ensures
        bars_beaten(direction, bars, scores) <= scores.len(),
        bars_beaten(direction, bars, scores) <= bars.len(),
    decreases scores.len(),
{
    if scores.len() > 0 && bars.len() > 0 {
        bars_beaten_bounded(direction, bars.skip(1), scores.skip(1));
    }
}

/// A child passes exactly if it beats every bar: under a hard gate that is the
/// population mean of every checkpoint.
pub proof fn passing_means_beating_every_bar(
    direction: Direction,
    bars: Seq<Bar>,
    scores: Seq<Score>,
)
    requires
        scores.len() == bars.len(),
    ensures
        bars_beaten(direction, bars, scores) == bars.len() <==> forall|i: int|
            0 <= i < bars.len() ==> direction.better(scores[i], (#[trigger] bars[i]).bar),
    decreases bars.len(),
{
    if bars.len() > 0 {
        bars_beaten_bounded(direction, bars.skip(1), scores.skip(1));
        passing_means_beating_every_bar(direction, bars.skip(1), scores.skip(1));
        if bars_beaten(direction, bars, scores) == bars.len() {
            assert forall|i: int| 0 <= i < bars.len() implies direction.better(
                scores[i],
                (#[trigger] bars[i]).bar,
            ) by {
                if i > 0 {
                    assert(bars.skip(1)[i - 1] == bars[i]);
                    assert(scores.skip(1)[i - 1] == scores[i]);
                }
            }
        }
        if forall|i: int|
            0 <= i < bars.len() ==> direction.better(scores[i], (#[trigger] bars[i]).bar) {
            assert(direction.better(scores[0], bars[0].bar));
            assert forall|i: int| 0 <= i < bars.skip(1).len() implies direction.better(
                scores.skip(1)[i],
                (#[trigger] bars.skip(1)[i]).bar,
            ) by {
                assert(bars.skip(1)[i] == bars[i + 1]);
            }
        }
    }
}

/// The first bar a child fails is the one the trial stops at.
pub proof fn trial_stops_at_first_failure(
    direction: Direction,
    bars: Seq<Bar>,
    scores: Seq<Score>,
)
    requires
        scores.len() <= bars.len(),
        bars_beaten(direction, bars, scores) < scores.len(),
    ensures
        ({
            let n = bars_beaten(direction, bars, scores) as int;
            &&& !direction.better(scores[n], bars[n].bar)
            &&& forall|i: int|
                0 <= i < n ==> direction.better(scores[i], (#[trigger] bars[i]).bar)
        }),
    decreases bars.len(),
{
    if direction.better(scores[0], bars[0].bar) {
        trial_stops_at_first_failure(direction, bars.skip(1), scores.skip(1));
        let n = bars_beaten(direction, bars, scores) as int;
        assert(bars.skip(1)[n - 1] == bars[n]);
        assert forall|i: int| 0 <= i < n implies direction.better(
            scores[i],
            (#[trigger] bars[i]).bar,
        ) by {
            if i > 0 {
                assert(bars.skip(1)[i - 1] == bars[i]);
                assert(scores.skip(1)[i - 1] == scores[i]);
            }
        }
    }
}

/// A child born before the first checkpoint faces no bar, hard or soft.
pub proof fn no_checkpoint_no_bar(
    gate: CrossoverGate,
    ledger: Seq<Checkpoint>,
    clock: usize,
    mean: Score,
)
    requires
        forall|i: int| 0 <= i < ledger.len() ==> (#[trigger] ledger[i]).step > clock,
    ensures
        gate_bars(gate, ledger, clock, mean).len() == 0,
    decreases ledger.len(),
{
    if ledger.len() > 0 {
        assert(ledger.last().step > clock);
        let rest = ledger.drop_last();
        assert forall|i: int| 0 <= i < rest.len() implies (#[trigger] rest[i]).step > clock by {
            assert(rest[i] == ledger[i]);
        }
        no_checkpoint_no_bar(CrossoverGate::Hard, rest, clock, mean);
    }
}

/// The replays of a trial, one for each bar.
pub open spec fn trial_replays(bars: Seq<Bar>) -> Seq<(int, int)> {
    Seq::new(
        bars.len(),
        |i: int|
            (
                if i == 0 {
                    0
                } else {
                    bars[i - 1].step as int
                },
                bars[i].step as int,
            ),
    )
}

/// The replays of a child that passes: those of its trial, and the last one up
/// to the clock.
pub open spec fn full_replays(bars: Seq<Bar>, clock: int) -> Seq<(int, int)> {
    trial_replays(bars).push((last_step(bars), clock))
}

/// The step of the last bar, 0 if there is none.
pub open spec fn last_step(bars: Seq<Bar>) -> int {
    if bars.len() == 0 {
        0
    } else {
        bars.last().step as int
    }
}

/// The bars stand in the order of their steps.
pub open spec fn steps_in_order(bars: Seq<Bar>) -> bool {
    forall|i: int, j: int|
        0 <= i < j < bars.len() ==> (#[trigger] bars[i]).step <= (#[trigger] bars[j]).step
}

/// A child that passes is replayed through every clock before its birth exactly
/// once: each clock below `clock` lies in one replay of the trial, or in the
/// final one, and in no other.
pub proof fn replays_cover_each_clock_once(bars: Seq<Bar>, clock: int, c: int)
    requires
        steps_in_order(bars),
        bars.len() > 0 ==> bars.last().step <= clock,
        0 <= c < clock,
    ensures
        exists|i: int|
            0 <= i < full_replays(bars, clock).len() && (#[trigger] full_replays(bars, clock)[i]).0
                <= c < full_replays(bars, clock)[i].1,
        forall|i: int, j: int|
            0 <= i < j < full_replays(bars, clock).len() ==> !((#[trigger] full_replays(
                bars,
                clock,
            )[i]).0 <= c < full_replays(bars, clock)[i].1 && (#[trigger] full_replays(
                bars,
                clock,
            )[j]).0 <= c < full_replays(bars, clock)[j].1),
{
    let all = full_replays(bars, clock);
    if last_step(bars) <= c {
        assert(all[bars.len() as int].0 <= c < all[bars.len() as int].1);
    } else {
        first_bar_beyond(bars, c);
        let i = choose|i: int|
            0 <= i < bars.len() && c < (#[trigger] bars[i]).step && (i == 0 || bars[i - 1].step
                <= c);
        assert(all[i].0 <= c < all[i].1);
    }
    assert forall|i: int, j: int| 0 <= i < j < all.len() implies !((#[trigger] all[i]).0 <= c
        < all[i].1 && (#[trigger] all[j]).0 <= c < all[j].1) by {
        if all[i].0 <= c < all[i].1 {
            assert(all[i].1 == bars[i].step);
            if j < bars.len() {
                if i < j - 1 {
                    assert(bars[i].step <= bars[j - 1].step);
                }
                assert(all[j].0 == bars[j - 1].step);
            } else if i < bars.len() - 1 {
                assert(bars[i].step <= bars[bars.len() - 1].step);
            }
        }
    }
}

proof fn first_bar_beyond(bars: Seq<Bar>, c: int)
    requires
        bars.len() > 0,
        c < bars.last().step,
    ensures
        exists|i: int|
            0 <= i < bars.len() && c < (#[trigger] bars[i]).step && (i == 0 || bars[i - 1].step
                <= c),
    decreases bars.len(),
{
    let n = bars.len() - 1;
    if n == 0 || bars[n - 1].step <= c {
        assert(c < bars[n].step);
    } else {
        first_bar_beyond(bars.drop_last(), c);
        let i = choose|i: int|
            0 <= i < bars.drop_last().len() && c < (#[trigger] bars.drop_last()[i]).step && (i == 0
                || bars.drop_last()[i - 1].step <= c);
        assert(c < bars[i].step);
    }
}

/// The checkpoint at place `i` of the ledger, as a bar.
pub open spec fn bar_of(ledger: Seq<Checkpoint>, i: int) -> Bar {
    Bar { number: (i + 1) as usize, step: ledger[i].step, bar: ledger[i].pop_mean_fitness }
}

/// A hard gate asks for every checkpoint up to the clock, and for no other: each
/// is a bar of its own, with its place, its step and its population mean, in the
/// order of the ledger.
pub proof fn a_hard_gate_asks_for_every_checkpoint(
    ledger: Seq<Checkpoint>,
    clock: usize,
    mean: Score,
    i: int,
)
    requires
        ledger.len() <= usize::MAX,
    ensures
        ({
            let bars = gate_bars(CrossoverGate::Hard, ledger, clock, mean);
            &&& 0 <= i < ledger.len() && ledger[i].step <= clock ==> bars.contains(bar_of(ledger, i))
            &&& forall|k: int|
                0 <= k < bars.len() ==> {
                    let b = #[trigger] bars[k];
                    &&& 1 <= b.number <= ledger.len()
                    &&& b == bar_of(ledger, b.number - 1)
                    &&& b.step <= clock
                }
            &&& forall|j: int, k: int|
                0 <= j < k < bars.len() ==> (#[trigger] bars[j]).number < (
                #[trigger] bars[k]).number
        }),
    decreases ledger.len(),
{
    if ledger.len() > 0 {
        let rest = ledger.drop_last();
        let last = ledger.len() - 1;
        a_hard_gate_asks_for_every_checkpoint(rest, clock, mean, i);
        let bars = bars_until(ledger, clock);
        let fewer = gate_bars(CrossoverGate::Hard, rest, clock, mean);
        assert(fewer == bars_until(rest, clock));
        if 0 <= i < last && ledger[i].step <= clock {
            assert(rest[i] == ledger[i]);
            let k = choose|k: int| 0 <= k < fewer.len() && fewer[k] == bar_of(rest, i);
            assert(bars[k] == bar_of(ledger, i));
        } else if i == last && ledger[i].step <= clock {
            assert(bars[bars.len() - 1] == bar_of(ledger, i));
        }
        assert forall|k: int| 0 <= k < bars.len() implies {
            let b = #[trigger] bars[k];
            &&& 1 <= b.number <= ledger.len()
            &&& b == bar_of(ledger, b.number - 1)
            &&& b.step <= clock
        } by {
            if k < fewer.len() {
                assert(bars[k] == fewer[k]);
                assert(rest[fewer[k].number - 1] == ledger[fewer[k].number - 1]);
            }
        }
        assert forall|j: int, k: int| 0 <= j < k < bars.len() implies (#[trigger] bars[j]).number
            < (#[trigger] bars[k]).number by {
            assert(bars[j] == fewer[j]);
            if k < fewer.len() {
                assert(bars[k] == fewer[k]);
            }
        }
    }
}

/// A soft gate asks once, against the mean it is given, at the last checkpoint
/// up to the clock; it asks at all exactly if there is one.
pub proof fn a_soft_gate_asks_once(ledger: Seq<Checkpoint>, clock: usize, mean: Score, i: int)
    requires
        ledger.len() <= usize::MAX,
    ensures
        ({
            let bars = gate_bars(CrossoverGate::Soft, ledger, clock, mean);
            &&& bars.len() <= 1
            &&& 0 <= i < ledger.len() && ledger[i].step <= clock ==> bars.len() == 1
            &&& bars.len() == 1 ==> {
                &&& bars[0].bar == mean
                &&& exists|k: int|
                    0 <= k < ledger.len() && (#[trigger] ledger[k]).step == bars[0].step
                        && bars[0].step <= clock && forall|j: int|
                        k < j < ledger.len() ==> (#[trigger] ledger[j]).step > clock
                &&& bars[0].number == gate_bars(CrossoverGate::Hard, ledger, clock, mean).len()
            }
        }),
{
    a_hard_gate_asks_for_every_checkpoint(ledger, clock, mean, i);
    let all = gate_bars(CrossoverGate::Hard, ledger, clock, mean);
    bars_are_fewer(ledger, clock);
    if all.len() > 0 {
        let b = all[all.len() - 1];
        let k = b.number - 1;
        assert(b == bar_of(ledger, k));
        assert(ledger[k].step == b.step);
        assert forall|j: int| k < j < ledger.len() implies (#[trigger] ledger[j]).step > clock by {
            if ledger[j].step <= clock {
                a_hard_gate_asks_for_every_checkpoint(ledger, clock, mean, j);
                let q = choose|q: int| 0 <= q < all.len() && all[q] == bar_of(ledger, j);
                assert(all[q].number == j + 1);
                if q < all.len() - 1 {
                    assert(all[q].number < all[all.len() - 1].number);
                }
            }
        }
    }
}

proof fn bars_are_fewer(ledger: Seq<Checkpoint>, clock: usize)
    ensures
        bars_until(ledger, clock).len() <= ledger.len(),
    decreases ledger.len(),
{
    if ledger.len() > 0 {
        bars_are_fewer(ledger.drop_last(), clock);
    }
}

/// A later clock never asks for less: every checkpoint that a hard gate asks for
/// at a clock it asks for at every later one.
pub proof fn bars_only_grow(
    ledger: Seq<Checkpoint>,
    clock: usize,
    later: usize,
    mean: Score,
    k: int,
)
    requires
        ledger.len() <= usize::MAX,
        clock <= later,
        0 <= k < gate_bars(CrossoverGate::Hard, ledger, clock, mean).len(),
    ensures
        gate_bars(CrossoverGate::Hard, ledger, later, mean).contains(
            gate_bars(CrossoverGate::Hard, ledger, clock, mean)[k],
        ),
{
    a_hard_gate_asks_for_every_checkpoint(ledger, clock, mean, 0);
    let b = gate_bars(CrossoverGate::Hard, ledger, clock, mean)[k];
    a_hard_gate_asks_for_every_checkpoint(ledger, later, mean, b.number - 1);
}

/// What a verdict on a child means. It beats its bar with a number on the better
/// side of it, and with nothing else; then the next bar is its next, and the
/// replay to it goes on where the last one ended. Otherwise it has failed at this
/// bar, and nothing more is replayed.
pub proof fn a_bar_is_beaten_or_not(
    before: GateRun,
    after: GateRun,
    direction: Direction,
    fitness: Score,
    beat: bool,
)
    requires
        before.well_formed(),
        !before.failed,
        before.beaten < before.bars@.len(),
        judged(before, after, direction, fitness, beat),
    ensures
        ({
            let bar = before.bars@[before.beaten as int];
            &&& beat <==> !fitness.nan() && !bar.bar.nan() && match direction {
                Direction::Minimize => fitness.key() < bar.bar.key(),
                Direction::Maximize => fitness.key() > bar.bar.key(),
            }
            &&& replay_before_bar(before) matches Some(now) && now.1 == bar.step
            &&& beat ==> !after.failed && after.beaten == before.beaten + 1
            &&& !beat ==> after.failed && after.beaten == before.beaten
            &&& replay_before_bar(after) is Some <==> beat && before.beaten + 1
                < before.bars@.len()
            &&& replay_before_bar(after) matches Some(next) ==> next.0 == bar.step && next.1
                == before.bars@[before.beaten + 1].step
            &&& after.fitness == Some(fitness)
        }),
{
}

} // verus!
