//! One roll of the evolution, from the child to the line in the history.
//!
//! Crossing, replaying and training happen outside. Here it is decided what
//! becomes of a child, who makes room for it, what is recorded and what is
//! said.

use vstd::prelude::*;

use crate::child::MAX_PARENT_PAIRINGS;
use crate::config::{CrossCullPolicy, CrossoverGate};
use crate::evolve::{admitted, crossover_reason, Tombstone};
use crate::gate::{bars_until, collect_bars, gate_bars, make_gate_bars, GateRun, RollOutcome};
use crate::history::{
    attempt_cells, csv_line, is_duplicate_event, is_insertion_event, is_pruning_event,
    is_shortfall_event, optional_text, Attempt, History,
};
use crate::net::Net;
use crate::race::{holds, with_net, Race};
use crate::report::{
    childless_detail, crossover_detail, duplicate_detail, gate_name, gate_note, immigrant_detail,
    immigrant_text, known_lineage, shortfall_detail,
};
use crate::score::Score;
use crate::text::{decimal_text, short_text};

verus! {

/// The history has taken in one event.
pub open spec fn event_recorded(after: History, before: History, a: Attempt, live: usize) -> bool {
    &&& after.export == before.export
    &&& after.labels == before.labels
    &&& after.buffer@ == (if before.export {
        before.buffer@ + csv_line(attempt_cells(a, before.labels@.len(), live))
    } else {
        before.buffer@
    })
}

/// The history has room for the columns of an event.
pub open spec fn recordable(h: History) -> bool {
    h.labels@.len() <= usize::MAX - 4
}

// ── A crossover roll ─────────────────────────────────────────────────────

/// The clocks that a child has still to replay once its trial is over.
pub open spec fn rest_of_the_past(run: GateRun, catches_up: bool, clock: usize) -> Option<
    (usize, usize),
> {
    if catches_up && !run.failed && run.beaten == run.bars@.len() {
        Some((run.replayed_to, clock))
    } else {
        None
    }
}

/// A child of a crossover is worth a trial: there is one, and nobody alive is
/// like it.
pub open spec fn is_worth_a_trial(race: Race, child: Option<Net>) -> bool {
    child is Some && !holds(race.nets@, child->0.hash@)
}

/// A child on trial.
#[derive(Debug)]
pub struct Trial {
    pub child: Net,
    /// How many checkpoints there are up to now.
    pub checkpoints: usize,
    pub run: GateRun,
}

impl Trial {
    /// The trial as it is held: a child that does not catch up with the past
    /// faces no checkpoint, any other faces all of them.
    pub fn held_if(self, catches_up: bool) -> (r: Trial)
        ensures
            catches_up ==> r == self,
            !catches_up ==> {
                &&& r.child == self.child
                &&& r.checkpoints == 0
                &&& r.run.bars@.len() == 0
                &&& r.run.beaten == 0
                &&& r.run.replayed_to == 0
                &&& r.run.fitness is None
                &&& !r.run.failed
                &&& r.run.well_formed()
            },
    {
        if catches_up {
            self
        } else {
            Trial { child: self.child, checkpoints: 0, run: GateRun::new(Vec::new()) }
        }
    }

    /// The clocks that are left to replay once a child has passed; none for one
    /// that fell short or does not catch up.
    pub fn last_replay(&self, catches_up: bool, clock: usize) -> (r: Option<(usize, usize)>)
        requires
            self.run.well_formed(),
        ensures
            r == (if catches_up && !self.run.failed && self.run.beaten == self.run.bars@.len() {
                Some((self.run.replayed_to, clock))
            } else {
                None
            }),
            r == rest_of_the_past(self.run, catches_up, clock),
    {
        if catches_up && self.run.passed() {
            Some(self.run.final_replay(clock))
        } else {
            None
        }
    }
}

/// What becomes of a roll once its crossover was tried.
#[derive(Debug)]
pub enum Opening {
    /// There is no child to try, and nothing changed.
    Spent(RollOutcome),
    /// The child goes on trial.
    Trial(Trial),
}

/// The numbers of a trial as text: as recorded, and as shown.
#[derive(Debug)]
pub struct TrialTexts {
    pub fitness: String,
    pub bar: String,
    pub shown_fitness: String,
    pub shown_bar: String,
}

/// What a roll came to.
#[derive(Debug)]
pub struct Closing {
    pub outcome: RollOutcome,
    /// The net that made room.
    pub gone: Option<Tombstone>,
}

/// What is said of a child that fell short.
pub open spec fn shortfall_text(
    race: Race,
    trial: Trial,
    gate: CrossoverGate,
    t: TrialTexts,
) -> Seq<char> {
    let bar = trial.run.bars@[trial.run.beaten as int];
    "child "@ + short_text(trial.child.hash@) + " rejected by "@ + gate_name(gate) + " gate "@
        + decimal_text(bar.number as nat) + "/"@ + decimal_text(trial.checkpoints as nat) + " ("@
        + race.direction.arrow_text() + t.shown_fitness@ + " vs bar "@ + t.shown_bar@
        + ") → discarded at step "@ + decimal_text(bar.step as nat)
}

/// What is said of the checkpoints behind a child that passed.
pub open spec fn passed_note(trial: Trial, gate: CrossoverGate, t: TrialTexts) -> Seq<char> {
    if trial.checkpoints > 0 {
        gate_note(gate, Some((t.shown_fitness, t.shown_bar)))
    } else {
        Seq::empty()
    }
}

/// The hash of a victim.
pub open spec fn victim_hash(race: Race, victim: Option<usize>) -> Seq<char> {
    match victim {
        Some(i) => race.nets@[i as int].hash@,
        None => Seq::empty(),
    }
}

/// What is said of a child that joined.
pub open spec fn admission_text(
    race: Race,
    trial: Trial,
    gate: CrossoverGate,
    t: TrialTexts,
    victim: Option<usize>,
) -> Seq<char> {
    "child "@ + short_text(trial.child.hash@) + " ("@ + known_lineage(trial.child.created_from)
        + ") inserted"@ + passed_note(trial, gate, t) + ", victim "@ + (match victim {
        Some(i) => short_text(race.nets@[i as int].hash@),
        None => "none"@,
    }) + " culled"@
}

impl Race {
    /// Opens a crossover roll with what its crossover produced. No child, or one
    /// that repeats a live topology, spends the roll; any other goes on trial
    /// against the checkpoints up to now.
    pub fn open_crossover(
        &self,
        child: Option<Net>,
        attempt: usize,
        clock: usize,
        gate: CrossoverGate,
        mean_of_means: Score,
        history: &mut History,
    ) -> (r: Opening)
        requires
            self.well_formed(),
            recordable(*old(history)),
        ensures
            r is Trial <==> is_worth_a_trial(*self, child),
            match child {
                None => {
                    &&& r matches Opening::Spent(o)
                    &&& !o.survived
                    &&& o.detail@ == "no child: "@ + decimal_text(MAX_PARENT_PAIRINGS as nat)
                        + " parent-pairing draw(s) × "@ + decimal_text(attempt as nat)
                        + " gate attempt(s) all incompatible (no compatible pivot/dims)"@
                    &&& *final(history) == *old(history)
                },
                Some(c) => if holds(self.nets@, c.hash@) {
                    &&& r matches Opening::Spent(o)
                    &&& !o.survived
                    &&& o.detail@ == "child "@ + short_text(c.hash@)
                        + " duplicates a live topology → discarded"@
                    &&& exists|a: Attempt|
                        is_duplicate_event(a, clock, attempt) && #[trigger] event_recorded(
                            *final(history),
                            *old(history),
                            a,
                            self.nets@.len() as usize,
                        )
                } else {
                    &&& r matches Opening::Trial(t)
                    &&& t.child == c
                    &&& t.checkpoints == bars_until(self.checkpoints@, clock).len()
                    &&& t.run.well_formed()
                    &&& t.run.bars@ == gate_bars(gate, self.checkpoints@, clock, mean_of_means)
                    &&& t.run.beaten == 0
                    &&& t.run.replayed_to == 0
                    &&& t.run.fitness is None
                    &&& !t.run.failed
                    &&& *final(history) == *old(history)
                },
            },
    {
        match child {
            None => Opening::Spent(
                RollOutcome::spent(childless_detail(MAX_PARENT_PAIRINGS, attempt)),
            ),
            Some(c) => {
                if self.is_live(c.hash.as_str()) {
                    let a = Attempt::duplicate(clock, attempt);
                    history.record_attempt(&a, self.nets.len());
                    assert(event_recorded(
                        *history,
                        *old(history),
                        a,
                        self.nets@.len() as usize,
                    ));
                    Opening::Spent(RollOutcome::spent(duplicate_detail(c.hash.as_str())))
                } else {
                    let all = collect_bars(&self.checkpoints, clock);
                    let bars = make_gate_bars(gate, &self.checkpoints, clock, mean_of_means);
                    Opening::Trial(
                        Trial { child: c, checkpoints: all.len(), run: GateRun::new(bars) },
                    )
                }
            },
        }
    }

    /// Closes a crossover roll whose trial is over. A child that fell short is
    /// dropped and nothing else changes. One that passed joins, and an
    /// unprotected net makes room for it.
    pub fn close_crossover(
        &mut self,
        trial: Trial,
        gate: CrossoverGate,
        policy: CrossCullPolicy,
        run_seed: u64,
        clock: usize,
        attempt: usize,
        t: &TrialTexts,
        history: &mut History,
    ) -> (r: Closing)
        requires
            old(self).well_formed(),
            trial.child.well_formed(old(self).window as nat),
            trial.run.well_formed(),
            trial.run.failed || trial.run.beaten == trial.run.bars@.len(),
            old(self).culls < usize::MAX,
            recordable(*old(history)),
        ensures
            final(self).well_formed(),
            trial.run.failed ==> {
                &&& *final(self) == *old(self)
                &&& r.gone is None
                &&& !r.outcome.survived
                &&& r.outcome.detail@ == shortfall_text(*old(self), trial, gate, *t)
                &&& exists|a: Attempt|
                    is_shortfall_event(
                        a,
                        clock,
                        attempt,
                        trial.child,
                        trial.run.bars@[trial.run.beaten as int].number,
                        t.fitness@,
                        t.bar@,
                    ) && #[trigger] event_recorded(
                        *final(history),
                        *old(history),
                        a,
                        old(self).nets@.len() as usize,
                    )
            },
            !trial.run.failed ==> ({
                let victim = old(self).crossover_victim_of(policy, run_seed, clock);
                &&& admitted(*old(self), *final(self), trial.child, policy, run_seed, clock)
                &&& r.outcome.survived
                &&& r.outcome.detail@ == admission_text(*old(self), trial, gate, *t, victim)
                &&& match victim {
                    Some(i) => {
                        &&& old(self).unprotected(i)
                        &&& r.gone matches Some(g)
                        &&& g.net == old(self).nets@[i as int]
                        &&& g.culled_at_step == clock
                        &&& g.reason == crossover_reason(policy)
                        &&& g.final_smoothed_fitness == old(
                            self,
                        ).nets@[i as int].score_or_zero()
                    },
                    None => r.gone is None,
                }
                &&& exists|a: Attempt|
                    is_insertion_event(
                        a,
                        clock,
                        false,
                        attempt,
                        trial.child,
                        t.fitness@,
                        victim_hash(*old(self), victim),
                        match victim {
                            Some(i) => Some(old(self).nets@[i as int].net_seed),
                            None => None,
                        },
                    ) && #[trigger] event_recorded(
                        *final(history),
                        *old(history),
                        a,
                        old(self).nets@.len() as usize,
                    )
            }),
    {
        let live: usize = self.nets.len();
        assert(old(self).nets@.len() as usize == live);
        if let Some(bar) = trial.run.failed_bar() {
            let a = Attempt::fell_short(
                clock,
                attempt,
                &trial.child,
                bar.number,
                t.fitness.as_str(),
                t.bar.as_str(),
            );
            history.record_attempt(&a, live);
            assert(event_recorded(*history, *old(history), a, live));
            let detail = shortfall_detail(
                trial.child.hash.as_str(),
                gate,
                bar.number,
                trial.checkpoints,
                self.direction,
                t.shown_fitness.as_str(),
                t.shown_bar.as_str(),
                bar.step,
            );
            return Closing { outcome: RollOutcome::spent(detail), gone: None };
        }
        let victim = self.select_crossover_victim(policy, run_seed, clock);
        let (name, seed): (Option<String>, Option<usize>) = match victim {
            Some(i) => (Some(self.nets[i].hash.clone()), Some(self.nets[i].net_seed)),
            None => (None, None),
        };
        let fitness: Option<String> = Some(t.fitness.clone());
        let a = Attempt::inserted(clock, false, attempt, &trial.child, &fitness, &name, seed);
        history.record_attempt(&a, live);
        assert(event_recorded(*history, *old(history), a, live));
        let shown: Option<(String, String)> = if trial.checkpoints > 0 {
            Some((t.shown_fitness.clone(), t.shown_bar.clone()))
        } else {
            None
        };
        let detail = crossover_detail(
            trial.child.hash.as_str(),
            &trial.child.created_from,
            gate,
            &shown,
            &name,
        );
        assert(gate_note(gate, shown) =~= passed_note(trial, gate, *t));
        let gone = self.admit_crossover(trial.child, policy, run_seed, clock);
        Closing { outcome: RollOutcome::survived(detail), gone }
    }

    /// Closes a mutation roll: the immigrant joins in the place of the net that
    /// made room for it. `fresh` if it did not replay the past. The event names
    /// the net that left by its hash and its seed: a hash may come back, the two
    /// together are the key of an individual.
    pub fn close_immigration(
        &mut self,
        child: Net,
        gone: &Tombstone,
        clock: usize,
        fresh: bool,
        child_fitness: &Option<String>,
        history: &mut History,
    ) -> (r: String)
        requires
            old(self).well_formed(),
            child.well_formed(old(self).window as nat),
            recordable(*old(history)),
        ensures
            final(self).well_formed(),
            final(self).nets@ == with_net(old(self).nets@, child),
            *final(self) == (Race { nets: final(self).nets, ..*old(self) }),
            r@ == immigrant_text(
                gone.net.hash@,
                gone.reason.label_text(),
                child.hash@,
                if fresh {
                    Some(clock)
                } else {
                    None
                },
            ),
            exists|a: Attempt|
                is_insertion_event(
                    a,
                    clock,
                    true,
                    1,
                    child,
                    optional_text(*child_fitness),
                    gone.net.hash@,
                    Some(gone.net.net_seed),
                ) && #[trigger] event_recorded(
                    *final(history),
                    *old(history),
                    a,
                    old(self).nets@.len() as usize,
                ),
    {
        let detail = immigrant_detail(
            gone.net.hash.as_str(),
            gone.reason.label(),
            child.hash.as_str(),
            if fresh {
                Some(clock)
            } else {
                None
            },
        );
        let victim: Option<String> = Some(gone.net.hash.clone());
        let seed: Option<usize> = Some(gone.net.net_seed);
        let a = Attempt::inserted(clock, true, 1, &child, child_fitness, &victim, seed);
        history.record_attempt(&a, self.nets.len());
        assert(event_recorded(*history, *old(history), a, self.nets@.len() as usize));
        self.insert(child);
        detail
    }
}

// ── The pruner ───────────────────────────────────────────────────────────

/// The text that a list of events adds to the history; `live` nets were alive
/// before the first.
pub open spec fn pruning_lines(
    events: Seq<Attempt>,
    metrics: nat,
    live: int,
) -> Seq<char>
    decreases events.len(),
{
    if events.len() == 0 {
        Seq::empty()
    } else {
        pruning_lines(events.drop_last(), metrics, live) + csv_line(
            attempt_cells(events.last(), metrics, (live - (events.len() - 1)) as usize),
        )
    }
}

/// The events name the nets that were pruned, in order.
pub open spec fn pruning_events(events: Seq<Attempt>, gone: Seq<Tombstone>, clock: usize) -> bool {
    &&& events.len() == gone.len()
    &&& forall|k: int|
        0 <= k < events.len() ==> is_pruning_event(
            #[trigger] events[k],
            clock,
            gone[k].net.hash@,
            Some(gone[k].net.net_seed),
        )
}

/// Records the nets that the pruner took out of a population of `live`.
pub fn record_pruning(gone: &Vec<Tombstone>, clock: usize, live: usize, history: &mut History)
    requires
        gone@.len() <= live,
        recordable(*old(history)),
    ensures
        final(history).export == old(history).export,
        final(history).labels == old(history).labels,
        exists|events: Seq<Attempt>|
            #[trigger] pruning_events(events, gone@, clock) && final(history).buffer@ == (if old(
                history,
            ).export {
                old(history).buffer@ + pruning_lines(
                    events,
                    old(history).labels@.len(),
                    live as int,
                )
            } else {
                old(history).buffer@
            }),
{
    let ghost mut events: Seq<Attempt> = Seq::empty();
    let ghost metrics = history.labels@.len();
    let ghost front = history.buffer@;
    let mut k: usize = 0;
    assert(front =~= front + pruning_lines(events, metrics, live as int));
    while k < gone.len()
        invariant
            k <= gone@.len(),
            gone@.len() <= live,
            recordable(*history),
            history.export == old(history).export,
            history.labels == old(history).labels,
            metrics == history.labels@.len(),
            front == old(history).buffer@,
            events.len() == k,
            forall|j: int|
                0 <= j < k ==> is_pruning_event(
                    #[trigger] events[j],
                    clock,
                    gone@[j].net.hash@,
                    Some(gone@[j].net.net_seed),
                ),
            history.buffer@ == (if history.export {
                front + pruning_lines(events, metrics, live as int)
            } else {
                front
            }),
        decreases gone@.len() - k,
    {
        let a = Attempt::pruned(clock, gone[k].net.hash.as_str(), Some(gone[k].net.net_seed));
        history.record_attempt(&a, live - k);
        proof {
            let more = events.push(a);
            assert(more.drop_last() =~= events);
            assert(front + pruning_lines(more, metrics, live as int) =~= front + pruning_lines(
                events,
                metrics,
                live as int,
            ) + csv_line(attempt_cells(a, metrics, (live - k) as usize)));
            events = more;
        }
        k = k + 1;
    }
    assert(pruning_events(events, gone@, clock));
}

/// Every pruned net has its line, under the number of nets that were alive when
/// its turn came: one fewer with each.
pub proof fn every_pruned_net_has_a_line(events: Seq<Attempt>, metrics: nat, live: int, k: int)
    requires
        0 <= k < events.len(),
    ensures
        pruning_lines(events, metrics, live) == pruning_lines(events.take(k), metrics, live)
            + csv_line(attempt_cells(events[k], metrics, (live - k) as usize)) + pruning_lines(
            events.skip(k + 1),
            metrics,
            live - (k + 1),
        ),
    decreases events.len(),
{
    let front = events.drop_last();
    let rest = events.skip(k + 1);
    if k == events.len() - 1 {
        assert(events.take(k) =~= front);
        assert(rest =~= Seq::empty());
        assert(pruning_lines(events, metrics, live) =~= pruning_lines(front, metrics, live)
            + csv_line(attempt_cells(events[k], metrics, (live - k) as usize)) + pruning_lines(
            rest,
            metrics,
            live - (k + 1),
        ));
    } else {
        every_pruned_net_has_a_line(front, metrics, live, k);
        assert(front.take(k) =~= events.take(k));
        assert(front.skip(k + 1) =~= rest.drop_last());
        assert(rest.last() == events.last());
        assert(live - (events.len() - 1) == (live - (k + 1)) - (rest.len() - 1));
        assert(pruning_lines(events, metrics, live) =~= pruning_lines(events.take(k), metrics, live)
            + csv_line(attempt_cells(events[k], metrics, (live - k) as usize)) + pruning_lines(
            rest,
            metrics,
            live - (k + 1),
        ));
    }
}

/// An exported history grows by one line with every event, behind everything it
/// holds; a history that is not exported stays as it is.
pub proof fn an_event_is_one_more_line(after: History, before: History, a: Attempt, live: usize)
    requires
        event_recorded(after, before, a, live),
    ensures
        before.export ==> {
            let n = before.buffer@.len() as int;
            &&& after.buffer@.len() == n + csv_line(
                attempt_cells(a, before.labels@.len(), live),
            ).len()
            &&& after.buffer@.take(n) == before.buffer@
            &&& after.buffer@.skip(n) == csv_line(attempt_cells(a, before.labels@.len(), live))
        },
        !before.export ==> after.buffer@ == before.buffer@,
        after.export == before.export && after.labels == before.labels,
{
    if before.export {
        let n = before.buffer@.len() as int;
        assert(after.buffer@.take(n) =~= before.buffer@);
        assert(after.buffer@.skip(n) =~= csv_line(attempt_cells(a, before.labels@.len(), live)));
    }
}

/// A child goes on trial exactly if its hash differs from that of everybody
/// alive.
pub proof fn only_new_topologies_go_on_trial(race: Race, child: Net)
    requires
        race.well_formed(),
    ensures
        !is_worth_a_trial(race, None),
        is_worth_a_trial(race, Some(child)) <==> forall|i: int|
            0 <= i < race.nets@.len() ==> (#[trigger] race.nets@[i]).hash@ != child.hash@,
{
    crate::race::slot_finds(race.nets@, child.hash@);
}

/// A child that passed catches up with the rest of the past: from the last bar it
/// beat, or from the start if it faced none, up to the clock. One that failed, or
/// that does not catch up, replays nothing more.
pub proof fn who_passed_catches_up(run: GateRun, catches_up: bool, clock: usize)
    requires
        run.well_formed(),
        run.failed || run.beaten == run.bars@.len(),
    ensures
        rest_of_the_past(run, catches_up, clock) is Some <==> catches_up && !run.failed,
        rest_of_the_past(run, catches_up, clock) matches Some(rest) ==> rest.1 == clock && rest.0 == (
        if run.bars@.len() == 0 {
            0
        } else {
            run.bars@.last().step
        }),
{
}

} // verus!
