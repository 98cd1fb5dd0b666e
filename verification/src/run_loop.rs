//! The step loop of a race: what happens next, given what just happened.
//!
//! One pass over the loop is one clock for the whole population: every net
//! steps, a checkpoint is taken when one is due, the crossover rolls and the
//! mutation rolls run, the step is summed up, and the stop criteria are
//! consulted. Training, drawing and writing happen outside; the loop only
//! decides.

use vstd::prelude::*;

use crate::config::{RaceConfig, RunMode, StopReason};
use crate::score::{fires, roll_fires, Score};

verus! {

/// The knobs the loop reads.
#[derive(Clone, Copy, Debug, PartialEq, Eq, Structural)]
pub struct LoopKnobs {
    pub crossover_rolls: usize,
    pub mutate_rolls: usize,
    /// How often a crossover roll may try.
    pub attempts: usize,
    pub checkpoint_every: usize,
    pub crossover_prob: Score,
    pub mutate_prob: Score,
    /// Whether the trainer sees the whole population before each step.
    pub pop_wide: bool,
    /// Whether the event log is flushed after every step.
    pub flush_each: bool,
}

impl LoopKnobs {
    pub open spec fn well_formed(self) -> bool {
        &&& self.attempts >= 1
        &&& self.checkpoint_every >= 1
    }

    /// The knobs of a run.
    pub fn of(cfg: &RaceConfig) -> (r: LoopKnobs)
        requires
            cfg.runnable(),
        ensures
            r.well_formed(),
            r.crossover_rolls == cfg.crossover_rolls,
            r.mutate_rolls == cfg.mutate_rolls,
            r.attempts == cfg.crossover_attempts_spec(),
            r.checkpoint_every == cfg.checkpoint_every,
            r.crossover_prob == cfg.crossover_prob,
            r.mutate_prob == cfg.mutate_prob,
            r.pop_wide == (cfg.mode == RunMode::Rl),
            r.flush_each == (cfg.csv_export && cfg.history_flush_each),
    {
        LoopKnobs {
            crossover_rolls: cfg.crossover_rolls,
            mutate_rolls: cfg.mutate_rolls,
            attempts: cfg.crossover_attempts(),
            checkpoint_every: cfg.checkpoint_every,
            crossover_prob: cfg.crossover_prob,
            mutate_prob: cfg.mutate_prob,
            pop_wide: cfg.mode == RunMode::Rl,
            flush_each: cfg.csv_export && cfg.history_flush_each,
        }
    }
}

/// What the evolution of one step did.
#[derive(Clone, Copy, Debug, PartialEq, Eq, Structural)]
pub struct StepEvolve {
    pub culls: usize,
    pub inserts: usize,
    pub cross_fired: usize,
    pub cross_survived: usize,
    pub cross_discarded: usize,
    pub mutate_fired: usize,
}

impl StepEvolve {
    pub open spec fn zero() -> StepEvolve {
        StepEvolve {
            culls: 0,
            inserts: 0,
            cross_fired: 0,
            cross_survived: 0,
            cross_discarded: 0,
            mutate_fired: 0,
        }
    }
}

impl Default for StepEvolve {
    fn default() -> (r: StepEvolve)
        ensures
            r == StepEvolve::zero(),
    {
        StepEvolve {
            culls: 0,
            inserts: 0,
            cross_fired: 0,
            cross_survived: 0,
            cross_discarded: 0,
            mutate_fired: 0,
        }
    }
}

/// Where in a step the loop stands: what it waits for.
#[derive(Clone, Copy, Debug, PartialEq, Eq, Structural)]
pub enum Phase {
    /// Between two steps.
    Top,
    /// The trainer sees the whole population.
    PopWide,
    /// Net number `net` of the group steps.
    Stepping { net: usize },
    /// The measurements of the group are appended to the event log.
    Measured,
    /// A checkpoint is taken.
    Checkpointing,
    /// The number of crossover roll `roll` is drawn.
    CrossRoll { roll: usize },
    /// Attempt `attempt` of crossover roll `roll` runs.
    CrossTry { roll: usize, attempt: usize },
    /// The number of mutation roll `roll` is drawn.
    MutateRoll { roll: usize },
    /// The immigrant of mutation roll `roll` comes in.
    Immigrating { roll: usize },
    /// The step is summed up.
    Rollup,
    /// The stop criteria are consulted.
    StopCheck,
    /// The race is over.
    Over,
}

/// The state of the loop.
#[derive(Clone, Copy, Debug, PartialEq, Eq, Structural)]
pub struct LoopState {
    pub phase: Phase,
    pub clock: usize,
    /// How many nets were alive when the step began.
    pub group: usize,
    pub evolve: StepEvolve,
    /// The culls of the run when the step began.
    pub culls_before: usize,
}

/// What just happened.
#[derive(Clone, Copy, Debug, PartialEq, Eq, Structural)]
pub enum Event {
    /// A step begins at this clock, with so many culls behind it.
    Begin { clock: usize, culls: usize },
    /// What was asked for is done.
    Done,
    /// The net could not be stepped.
    Failed,
    /// A number was drawn for a roll.
    Drawn(Score),
    /// A crossover attempt ended; the child joined or did not.
    Tried { survived: bool },
    /// The culls of the run so far.
    Culls(usize),
    /// What the stop criteria say.
    Stop(Option<StopReason>),
}

/// What to do next.
#[derive(Clone, Copy, Debug, PartialEq, Eq, Structural)]
pub enum Action {
    /// Show the whole population to the trainer.
    ShowPopulation,
    /// Step net number `net` of the group.
    StepNet { net: usize },
    /// Append the measurements of the group to the event log.
    AppendMetrics,
    /// Take the checkpoint of this era.
    TakeCheckpoint { era: usize },
    /// Draw a number for crossover roll `roll`.
    DrawCrossover { roll: usize },
    /// Run one attempt of a crossover roll.
    TryCrossover { roll: usize, attempt: usize },
    /// Draw a number for mutation roll `roll`.
    DrawMutation { roll: usize },
    /// Bring in the immigrant of a mutation roll.
    Immigrate { roll: usize },
    /// Count the culls of the step, for its summary.
    CountCulls,
    /// Sum the step up, and flush the event log if asked to.
    SumUp { flush: bool },
    /// Begin the next step.
    NextStep,
    /// Run the end of the race, as of this clock.
    Finish { reason: StopReason, clock: usize },
    /// Nobody is alive: stop at once.
    Halt { reason: StopReason },
    /// A net failed and nobody interrupted: pass the failure on.
    Abort,
    /// The event does not fit the phase; nothing changed.
    Unexpected,
}

/// The clock before this one; 0 stays 0.
pub open spec fn clock_before(clock: usize) -> usize {
    if clock == 0 {
        0
    } else {
        (clock - 1) as usize
    }
}

pub open spec fn to_phase(s: LoopState, phase: Phase) -> LoopState {
    LoopState { phase, ..s }
}

/// The loop gives the step up and ends the race as of the clock before.
pub open spec fn interrupted_end(s: LoopState) -> (LoopState, Action) {
    (
        to_phase(s, Phase::Over),
        Action::Finish { reason: StopReason::Interrupted, clock: clock_before(s.clock) },
    )
}

/// Steps net number `net`, unless the user interrupted; once everyone stepped,
/// the measurements are appended.
pub open spec fn step_or_measure(s: LoopState, net: usize, interrupted: bool) -> (
    LoopState,
    Action,
) {
    if net >= s.group {
        (to_phase(s, Phase::Measured), Action::AppendMetrics)
    } else if interrupted {
        interrupted_end(s)
    } else {
        (to_phase(s, Phase::Stepping { net }), Action::StepNet { net })
    }
}

/// Goes to mutation roll `roll`, or on to the summary after the last one, or if
/// nobody is alive.
pub open spec fn to_mutation(k: LoopKnobs, s: LoopState, roll: usize, live: usize) -> (
    LoopState,
    Action,
) {
    if roll < k.mutate_rolls && live > 0 {
        (to_phase(s, Phase::MutateRoll { roll }), Action::DrawMutation { roll })
    } else {
        (to_phase(s, Phase::Rollup), Action::CountCulls)
    }
}

/// Goes to crossover roll `roll`, or on to the mutation rolls after the last
/// one, or if fewer than two nets are alive.
pub open spec fn to_crossover(k: LoopKnobs, s: LoopState, roll: usize, live: usize) -> (
    LoopState,
    Action,
) {
    if roll < k.crossover_rolls && live >= 2 {
        (to_phase(s, Phase::CrossRoll { roll }), Action::DrawCrossover { roll })
    } else {
        to_mutation(k, s, 0, live)
    }
}

/// Whether a checkpoint is due at a clock.
pub open spec fn checkpoint_due(k: LoopKnobs, clock: usize) -> bool {
    clock > 0 && clock as int % k.checkpoint_every as int == 0
}

/// The next state and what to do, given what happened. `live` is the number of
/// nets alive and `interrupted` says whether the user asked to stop.
pub open spec fn next(
    k: LoopKnobs,
    s: LoopState,
    live: usize,
    interrupted: bool,
    event: Event,
) -> (LoopState, Action) {
    match (s.phase, event) {
        (Phase::Top, Event::Begin { clock, culls }) => {
            let fresh = LoopState {
                phase: Phase::Top,
                clock,
                group: live,
                evolve: StepEvolve::zero(),
                culls_before: culls,
            };
            if live == 0 {
                (to_phase(fresh, Phase::Over), Action::Halt { reason: StopReason::MaxSteps })
            } else if k.pop_wide {
                (to_phase(fresh, Phase::PopWide), Action::ShowPopulation)
            } else {
                step_or_measure(fresh, 0, interrupted)
            }
        },
        (Phase::PopWide, Event::Done) => step_or_measure(s, 0, interrupted),
        (Phase::Stepping { net }, Event::Done) => step_or_measure(
            s,
            (net + 1) as usize,
            interrupted,
        ),
        (Phase::Stepping { net }, Event::Failed) => if interrupted {
            interrupted_end(s)
        } else {
            (to_phase(s, Phase::Over), Action::Abort)
        },
        (Phase::Measured, Event::Done) => if checkpoint_due(k, s.clock) {
            (
                to_phase(s, Phase::Checkpointing),
                Action::TakeCheckpoint {
                    era: (s.clock as int / k.checkpoint_every as int) as usize,
                },
            )
        } else {
            to_crossover(k, s, 0, live)
        },
        (Phase::Checkpointing, Event::Done) => to_crossover(k, s, 0, live),
        (Phase::CrossRoll { roll }, Event::Drawn(x)) => if fires(x, k.crossover_prob) {
            let fired = LoopState {
                evolve: StepEvolve {
                    cross_fired: (s.evolve.cross_fired + 1) as usize,
                    ..s.evolve
                },
                ..s
            };
            (
                to_phase(fired, Phase::CrossTry { roll, attempt: 1 }),
                Action::TryCrossover { roll, attempt: 1 },
            )
        } else {
            to_crossover(k, s, (roll + 1) as usize, live)
        },
        (Phase::CrossTry { roll, attempt }, Event::Tried { survived }) => if survived {
            let won = LoopState {
                evolve: StepEvolve {
                    cross_survived: (s.evolve.cross_survived + 1) as usize,
                    ..s.evolve
                },
                ..s
            };
            to_crossover(k, won, (roll + 1) as usize, live)
        } else if attempt >= k.attempts {
            let lost = LoopState {
                evolve: StepEvolve {
                    cross_discarded: (s.evolve.cross_discarded + 1) as usize,
                    ..s.evolve
                },
                ..s
            };
            to_crossover(k, lost, (roll + 1) as usize, live)
        } else {
            (
                to_phase(s, Phase::CrossTry { roll, attempt: (attempt + 1) as usize }),
                Action::TryCrossover { roll, attempt: (attempt + 1) as usize },
            )
        },
        (Phase::MutateRoll { roll }, Event::Drawn(x)) => if fires(x, k.mutate_prob) {
            let fired = LoopState {
                evolve: StepEvolve {
                    mutate_fired: (s.evolve.mutate_fired + 1) as usize,
                    ..s.evolve
                },
                ..s
            };
            (to_phase(fired, Phase::Immigrating { roll }), Action::Immigrate { roll })
        } else {
            to_mutation(k, s, (roll + 1) as usize, live)
        },
        (Phase::Immigrating { roll }, Event::Done) => to_mutation(k, s, (roll + 1) as usize, live),
        (Phase::Rollup, Event::Culls(culls)) => {
            let summed = LoopState {
                evolve: StepEvolve {
                    culls: if culls >= s.culls_before {
                        (culls - s.culls_before) as usize
                    } else {
                        0
                    },
                    inserts: inserts_of(s.evolve),
                    ..s.evolve
                },
                ..s
            };
            (to_phase(summed, Phase::StopCheck), Action::SumUp { flush: k.flush_each })
        },
        (Phase::StopCheck, Event::Stop(Some(reason))) => (
            to_phase(s, Phase::Over),
            Action::Finish { reason, clock: s.clock },
        ),
        (Phase::StopCheck, Event::Stop(None)) => (to_phase(s, Phase::Top), Action::NextStep),
        _ => (s, Action::Unexpected),
    }
}

/// The nets that came in: crossover survivors and immigrants.
pub open spec fn inserts_of(e: StepEvolve) -> usize {
    if e.cross_survived + e.mutate_fired > usize::MAX {
        usize::MAX
    } else {
        (e.cross_survived + e.mutate_fired) as usize
    }
}

impl LoopState {
    /// What holds in every reachable state. The crossover counters always add
    /// up, no roll is counted twice, and no roll tries more often than it may.
    pub open spec fn well_formed(self, k: LoopKnobs) -> bool {
        let e = self.evolve;
        match self.phase {
            Phase::Top => true,
            Phase::PopWide => e == StepEvolve::zero() && self.group > 0,
            Phase::Stepping { net } => e == StepEvolve::zero() && net < self.group,
            Phase::Measured => e == StepEvolve::zero(),
            Phase::Checkpointing => e == StepEvolve::zero() && checkpoint_due(k, self.clock),
            Phase::CrossRoll { roll } => {
                &&& roll < k.crossover_rolls
                &&& e.cross_fired <= roll
                &&& e.cross_survived + e.cross_discarded == e.cross_fired
                &&& e.mutate_fired == 0
            },
            Phase::CrossTry { roll, attempt } => {
                &&& roll < k.crossover_rolls
                &&& e.cross_fired <= roll + 1
                &&& e.cross_survived + e.cross_discarded + 1 == e.cross_fired
                &&& 1 <= attempt <= k.attempts
                &&& e.mutate_fired == 0
            },
            Phase::MutateRoll { roll } => {
                &&& settled(k, e)
                &&& roll < k.mutate_rolls
                &&& e.mutate_fired <= roll
            },
            Phase::Immigrating { roll } => {
                &&& settled(k, e)
                &&& roll < k.mutate_rolls
                &&& e.mutate_fired <= roll + 1
            },
            Phase::Rollup => settled(k, e) && e.mutate_fired <= k.mutate_rolls,
            Phase::StopCheck => settled(k, e) && e.mutate_fired <= k.mutate_rolls,
            Phase::Over => true,
        }
    }

    /// The state before the first step.
    pub fn start() -> (r: LoopState)
        ensures
            r.phase == Phase::Top,
            r.clock == 0,
            r.group == 0,
            r.evolve == StepEvolve::zero(),
            r.culls_before == 0,
            forall|k: LoopKnobs| r.well_formed(k),
    {
        LoopState {
            phase: Phase::Top,
            clock: 0,
            group: 0,
            evolve: StepEvolve {
                culls: 0,
                inserts: 0,
                cross_fired: 0,
                cross_survived: 0,
                cross_discarded: 0,
                mutate_fired: 0,
            },
            culls_before: 0,
        }
    }
}

/// Every crossover roll that fired has ended, one way or the other.
pub open spec fn settled(k: LoopKnobs, e: StepEvolve) -> bool {
    &&& e.cross_survived + e.cross_discarded == e.cross_fired
    &&& e.cross_fired <= k.crossover_rolls
}

// ── The decision ─────────────────────────────────────────────────────────

fn end_interrupted(s: LoopState) -> (r: (LoopState, Action))
    ensures
        r == interrupted_end(s),
{
    let clock: usize = if s.clock == 0 {
        0
    } else {
        s.clock - 1
    };
    (
        LoopState { phase: Phase::Over, ..s },
        Action::Finish { reason: StopReason::Interrupted, clock },
    )
}

fn go_step(s: LoopState, net: usize, interrupted: bool) -> (r: (LoopState, Action))
    ensures
        r == step_or_measure(s, net, interrupted),
{
    if net >= s.group {
        (LoopState { phase: Phase::Measured, ..s }, Action::AppendMetrics)
    } else if interrupted {
        end_interrupted(s)
    } else {
        (LoopState { phase: Phase::Stepping { net }, ..s }, Action::StepNet { net })
    }
}

fn go_mutation(k: &LoopKnobs, s: LoopState, roll: usize, live: usize) -> (r: (LoopState, Action))
    ensures
        r == to_mutation(*k, s, roll, live),
{
    if roll < k.mutate_rolls && live > 0 {
        (LoopState { phase: Phase::MutateRoll { roll }, ..s }, Action::DrawMutation { roll })
    } else {
        (LoopState { phase: Phase::Rollup, ..s }, Action::CountCulls)
    }
}

fn go_crossover(k: &LoopKnobs, s: LoopState, roll: usize, live: usize) -> (r: (LoopState, Action))
    ensures
        r == to_crossover(*k, s, roll, live),
{
    if roll < k.crossover_rolls && live >= 2 {
        (LoopState { phase: Phase::CrossRoll { roll }, ..s }, Action::DrawCrossover { roll })
    } else {
        go_mutation(k, s, 0, live)
    }
}

/// Decides what happens next.
pub fn advance(
    k: &LoopKnobs,
    s: LoopState,
    live: usize,
    interrupted: bool,
    event: Event,
) -> (r: (LoopState, Action))
    requires
        k.well_formed(),
        s.well_formed(*k),
    ensures
        r == next(*k, s, live, interrupted, event),
        r.0.well_formed(*k),
{
    let mut t = s;
    match (s.phase, event) {
        (Phase::Top, Event::Begin { clock, culls }) => {
            t.clock = clock;
            t.group = live;
            t.culls_before = culls;
            t.evolve = StepEvolve {
                culls: 0,
                inserts: 0,
                cross_fired: 0,
                cross_survived: 0,
                cross_discarded: 0,
                mutate_fired: 0,
            };
            if live == 0 {
                t.phase = Phase::Over;
                (t, Action::Halt { reason: StopReason::MaxSteps })
            } else if k.pop_wide {
                t.phase = Phase::PopWide;
                (t, Action::ShowPopulation)
            } else {
                go_step(t, 0, interrupted)
            }
        },
        (Phase::PopWide, Event::Done) => go_step(s, 0, interrupted),
        (Phase::Stepping { net }, Event::Done) => go_step(s, net + 1, interrupted),
        (Phase::Stepping { net }, Event::Failed) => {
            if interrupted {
                end_interrupted(s)
            } else {
                t.phase = Phase::Over;
                (t, Action::Abort)
            }
        },
        (Phase::Measured, Event::Done) => {
            if s.clock > 0 && s.clock % k.checkpoint_every == 0 {
                t.phase = Phase::Checkpointing;
                (t, Action::TakeCheckpoint { era: s.clock / k.checkpoint_every })
            } else {
                go_crossover(k, s, 0, live)
            }
        },
        (Phase::Checkpointing, Event::Done) => go_crossover(k, s, 0, live),
        (Phase::CrossRoll { roll }, Event::Drawn(x)) => {
            if roll_fires(x, k.crossover_prob) {
                t.evolve.cross_fired = s.evolve.cross_fired + 1;
                t.phase = Phase::CrossTry { roll, attempt: 1 };
                (t, Action::TryCrossover { roll, attempt: 1 })
            } else {
                go_crossover(k, s, roll + 1, live)
            }
        },
        (Phase::CrossTry { roll, attempt }, Event::Tried { survived }) => {
            if survived {
                t.evolve.cross_survived = s.evolve.cross_survived + 1;
                go_crossover(k, t, roll + 1, live)
            } else if attempt >= k.attempts {
                t.evolve.cross_discarded = s.evolve.cross_discarded + 1;
                go_crossover(k, t, roll + 1, live)
            } else {
                t.phase = Phase::CrossTry { roll, attempt: attempt + 1 };
                (t, Action::TryCrossover { roll, attempt: attempt + 1 })
            }
        },
        (Phase::MutateRoll { roll }, Event::Drawn(x)) => {
            if roll_fires(x, k.mutate_prob) {
                t.evolve.mutate_fired = s.evolve.mutate_fired + 1;
                t.phase = Phase::Immigrating { roll };
                (t, Action::Immigrate { roll })
            } else {
                go_mutation(k, s, roll + 1, live)
            }
        },
        (Phase::Immigrating { roll }, Event::Done) => go_mutation(k, s, roll + 1, live),
        (Phase::Rollup, Event::Culls(culls)) => {
            t.evolve.culls = if culls >= s.culls_before {
                culls - s.culls_before
            } else {
                0
            };
            t.evolve.inserts = if s.evolve.cross_survived > usize::MAX - s.evolve.mutate_fired {
                usize::MAX
            } else {
                s.evolve.cross_survived + s.evolve.mutate_fired
            };
            t.phase = Phase::StopCheck;
            (t, Action::SumUp { flush: k.flush_each })
        },
        (Phase::StopCheck, Event::Stop(stop)) => match stop {
            Some(reason) => {
                t.phase = Phase::Over;
                (t, Action::Finish { reason, clock: s.clock })
            },
            None => {
                t.phase = Phase::Top;
                (t, Action::NextStep)
            },
        },
        _ => (s, Action::Unexpected),
    }
}

// ── Laws of the loop ─────────────────────────────────────────────────────

/// How far along a step is, as three numbers of falling weight; every decision
/// lowers them, so a step ends.
pub open spec fn to_go(k: LoopKnobs, s: LoopState) -> (int, int, int) {
    match s.phase {
        Phase::Top => (9, 0, 0),
        Phase::PopWide => (8, 0, 0),
        Phase::Stepping { net } => (7, s.group - net, 0),
        Phase::Measured => (6, 0, 0),
        Phase::Checkpointing => (5, 0, 0),
        Phase::CrossRoll { roll } => (4, k.crossover_rolls - roll, k.attempts + 1),
        Phase::CrossTry { roll, attempt } => (4, k.crossover_rolls - roll, k.attempts - attempt),
        Phase::MutateRoll { roll } => (3, k.mutate_rolls - roll, 1),
        Phase::Immigrating { roll } => (3, k.mutate_rolls - roll, 0),
        Phase::Rollup => (2, 0, 0),
        Phase::StopCheck => (1, 0, 0),
        Phase::Over => (0, 0, 0),
    }
}

pub open spec fn lower(a: (int, int, int), b: (int, int, int)) -> bool {
    a.0 < b.0 || (a.0 == b.0 && (a.1 < b.1 || (a.1 == b.1 && a.2 < b.2)))
}

/// Every step ends: each decision that does not begin the next step brings the
/// current one closer to its end.
pub proof fn every_step_ends(
    k: LoopKnobs,
    s: LoopState,
    live: usize,
    interrupted: bool,
    event: Event,
)
    requires
        k.well_formed(),
        s.well_formed(k),
        next(k, s, live, interrupted, event).1 != Action::Unexpected,
        next(k, s, live, interrupted, event).1 != Action::NextStep,
    ensures
        lower(to_go(k, next(k, s, live, interrupted, event).0), to_go(k, s)),
        0 <= to_go(k, next(k, s, live, interrupted, event).0).0,
        0 <= to_go(k, next(k, s, live, interrupted, event).0).1,
        0 <= to_go(k, next(k, s, live, interrupted, event).0).2,
{
}

/// Every decision keeps the counters of the step in order.
pub proof fn counters_stay_in_order(
    k: LoopKnobs,
    s: LoopState,
    live: usize,
    interrupted: bool,
    event: Event,
)
    requires
        k.well_formed(),
        s.well_formed(k),
    ensures
        next(k, s, live, interrupted, event).0.well_formed(k),
{
}

/// When a step is summed up, every crossover roll that fired has either brought
/// a child in or spent all its attempts, and no more rolls fired than there are.
pub proof fn summary_adds_up(k: LoopKnobs, s: LoopState, live: usize, interrupted: bool, culls: usize)
    requires
        k.well_formed(),
        s.well_formed(k),
        s.phase == Phase::Rollup,
        k.crossover_rolls + k.mutate_rolls <= usize::MAX,
    ensures
        ({
            let e = next(k, s, live, interrupted, Event::Culls(culls)).0.evolve;
            &&& e.cross_fired == e.cross_survived + e.cross_discarded
            &&& e.cross_fired <= k.crossover_rolls
            &&& e.mutate_fired <= k.mutate_rolls
            &&& e.inserts == e.cross_survived + e.mutate_fired
        }),
{
}

/// An interrupt while the group steps gives the step up: nothing of it is
/// recorded, and the race ends as of the clock before.
pub proof fn interrupt_abandons_the_step(k: LoopKnobs, s: LoopState, live: usize, event: Event)
    requires
        k.well_formed(),
        s.well_formed(k),
        s.phase is Stepping,
        event == Event::Failed || (event == Event::Done && s.phase->Stepping_net + 1 < s.group),
    ensures
        next(k, s, live, true, event).1 == (Action::Finish {
            reason: StopReason::Interrupted,
            clock: clock_before(s.clock),
        }),
        next(k, s, live, true, event).0.phase == Phase::Over,
{
}

/// A checkpoint is taken exactly at the clocks above 0 that the cadence
/// divides, once everyone has stepped.
pub proof fn checkpoints_keep_the_cadence(
    k: LoopKnobs,
    s: LoopState,
    live: usize,
    interrupted: bool,
    event: Event,
)
    requires
        k.well_formed(),
        s.well_formed(k),
    ensures
        next(k, s, live, interrupted, event).1 is TakeCheckpoint <==> s.phase == Phase::Measured
            && event == Event::Done && checkpoint_due(k, s.clock),
{
}

/// A crossover roll that does not fire, or whose attempts are all spent, brings
/// in nobody and asks for no immigrant: random nets enter through mutation
/// rolls alone.
pub proof fn immigrants_need_a_mutation_roll(
    k: LoopKnobs,
    s: LoopState,
    live: usize,
    interrupted: bool,
    event: Event,
)
    requires
        k.well_formed(),
        s.well_formed(k),
        next(k, s, live, interrupted, event).1 is Immigrate,
    ensures
        s.phase is MutateRoll,
        event matches Event::Drawn(x) && fires(x, k.mutate_prob),
{
}

/// A probability of 0 never fires for a drawn number that is not below 0, and a
/// probability of 1 always fires for a drawn number below 1.
pub proof fn certain_rolls(x: Score)
    requires
        !x.nan(),
    ensures
        x.key() >= 0 ==> !fires(x, Score { bits: 0 }),
        x.key() < 0x3f80_0000 ==> fires(x, Score { bits: 0x3f80_0000 }),
{
}

/// Every net of the group steps once, in order: a step begins with the first
/// net, goes on to the next one as long as there is one, and the measurements
/// are appended only when the last one has stepped.
pub proof fn every_net_takes_its_step(
    k: LoopKnobs,
    s: LoopState,
    live: usize,
    interrupted: bool,
    event: Event,
)
    requires
        k.well_formed(),
        s.well_formed(k),
    ensures
        ({
            let (t, a) = next(k, s, live, interrupted, event);
            &&& s.phase == Phase::Top ==> (event matches Event::Begin { clock, culls } ==> {
                &&& t.clock == clock && t.group == live && t.culls_before == culls
                &&& live == 0 <==> a is Halt
                &&& live > 0 && k.pop_wide ==> a == Action::ShowPopulation
                &&& live > 0 && !k.pop_wide && !interrupted ==> a == (Action::StepNet { net: 0 })
            })
            &&& s.phase == Phase::PopWide && event == Event::Done && !interrupted ==> a == (
            Action::StepNet { net: 0 })
            &&& event == Event::Done ==> (s.phase matches Phase::Stepping { net } ==> {
                &&& net + 1 < s.group && !interrupted ==> a == (Action::StepNet {
                    net: (net + 1) as usize,
                })
                &&& net + 1 == s.group ==> a == Action::AppendMetrics
            })
            &&& a is StepNet ==> !interrupted && t.phase == (Phase::Stepping {
                net: a->StepNet_net,
            })
            &&& a == Action::AppendMetrics ==> event == Event::Done && s.phase == (
            Phase::Stepping { net: (s.group - 1) as usize })
            &&& a == Action::ShowPopulation ==> s.phase == Phase::Top
            &&& event == Event::Failed && !interrupted && s.phase is Stepping ==> a
                == Action::Abort
            &&& a == Action::Abort ==> event == Event::Failed && !interrupted
        }),
{
}

/// A roll of the crossover group is settled by this event: its number did not
/// fire, its child joined, or its last attempt failed.
pub open spec fn settles_crossover(k: LoopKnobs, s: LoopState, event: Event) -> Option<usize> {
    match (s.phase, event) {
        (Phase::CrossRoll { roll }, Event::Drawn(x)) => if !x.nan() && !k.crossover_prob.nan()
            && x.key() >= k.crossover_prob.key() {
            Some(roll)
        } else {
            None
        },
        (Phase::CrossTry { roll, attempt }, Event::Tried { survived }) => if survived || attempt
            == k.attempts {
            Some(roll)
        } else {
            None
        },
        _ => None,
    }
}

/// A roll of the mutation group is settled by this event: its number did not
/// fire, or its immigrant came in.
pub open spec fn settles_mutation(k: LoopKnobs, s: LoopState, event: Event) -> Option<usize> {
    match (s.phase, event) {
        (Phase::MutateRoll { roll }, Event::Drawn(x)) => if !x.nan() && !k.mutate_prob.nan()
            && x.key() >= k.mutate_prob.key() {
            Some(roll)
        } else {
            None
        },
        (Phase::Immigrating { roll }, Event::Done) => Some(roll),
        _ => None,
    }
}

/// The evolution of a step begins: the group has been measured, and the
/// checkpoint taken if one was due.
pub open spec fn evolution_begins(k: LoopKnobs, s: LoopState, event: Event) -> bool {
    &&& event == Event::Done
    &&& s.phase == Phase::Checkpointing || (s.phase == Phase::Measured && (s.clock == 0
        || s.clock as int % k.checkpoint_every as int != 0))
}

/// Every crossover roll has its turn. While two nets are alive, a number is
/// drawn for roll 0 when the evolution begins, and for the next roll whenever
/// one is settled, whether its child joined or not. The mutation rolls wait for
/// the last one; with fewer than two nets alive they begin at once.
pub proof fn every_crossover_roll_has_its_turn(
    k: LoopKnobs,
    s: LoopState,
    live: usize,
    interrupted: bool,
    event: Event,
)
    requires
        k.well_formed(),
        s.well_formed(k),
    ensures
        ({
            let a = next(k, s, live, interrupted, event).1;
            &&& evolution_begins(k, s, event) && live >= 2 && k.crossover_rolls > 0 ==> a == (
            Action::DrawCrossover { roll: 0 })
            &&& settles_crossover(k, s, event) matches Some(roll) ==> {
                &&& live >= 2 && roll + 1 < k.crossover_rolls ==> a == (Action::DrawCrossover {
                    roll: (roll + 1) as usize,
                })
                &&& (live < 2 || roll + 1 == k.crossover_rolls) ==> a == (if live > 0
                    && k.mutate_rolls > 0 {
                    Action::DrawMutation { roll: 0 }
                } else {
                    Action::CountCulls
                })
            }
            &&& evolution_begins(k, s, event) && (live < 2 || k.crossover_rolls == 0) ==> a == (
            if live > 0 && k.mutate_rolls > 0 {
                Action::DrawMutation { roll: 0 }
            } else {
                Action::CountCulls
            })
            &&& a matches Action::DrawCrossover { roll } ==> live >= 2 && roll < k.crossover_rolls
                && (if roll == 0 {
                evolution_begins(k, s, event)
            } else {
                settles_crossover(k, s, event) == Some((roll - 1) as usize)
            })
        }),
{
}

/// Every mutation roll has its turn: while anybody is alive, a number is drawn
/// for the next roll whenever one is settled. The step is summed up after the
/// last one, or when nobody is left.
pub proof fn every_mutation_roll_has_its_turn(
    k: LoopKnobs,
    s: LoopState,
    live: usize,
    interrupted: bool,
    event: Event,
)
    requires
        k.well_formed(),
        s.well_formed(k),
    ensures
        ({
            let a = next(k, s, live, interrupted, event).1;
            &&& settles_mutation(k, s, event) matches Some(roll) ==> {
                &&& live > 0 && roll + 1 < k.mutate_rolls ==> a == (Action::DrawMutation {
                    roll: (roll + 1) as usize,
                })
                &&& (live == 0 || roll + 1 == k.mutate_rolls) ==> a == Action::CountCulls
            }
            &&& a matches Action::DrawMutation { roll } ==> live > 0 && roll < k.mutate_rolls && (
            if roll == 0 {
                ||| evolution_begins(k, s, event) && (live < 2 || k.crossover_rolls == 0)
                ||| settles_crossover(k, s, event) matches Some(last) && (live < 2 || last + 1
                    == k.crossover_rolls)
            } else {
                settles_mutation(k, s, event) == Some((roll - 1) as usize)
            })
            &&& a == Action::CountCulls ==> {
                ||| settles_mutation(k, s, event) matches Some(last) && (live == 0 || last + 1
                    == k.mutate_rolls)
                ||| (live == 0 || k.mutate_rolls == 0) && (evolution_begins(k, s, event)
                    || settles_crossover(k, s, event) is Some)
            }
        }),
{
}

/// A roll that fires is followed up: a crossover roll is tried, and tried again
/// as long as its child fails and attempts are left; a mutation roll brings in
/// one immigrant. Nothing is tried and nobody comes in otherwise.
pub proof fn a_roll_that_fires_is_followed_up(
    k: LoopKnobs,
    s: LoopState,
    live: usize,
    interrupted: bool,
    event: Event,
)
    requires
        k.well_formed(),
        s.well_formed(k),
    ensures
        ({
            let a = next(k, s, live, interrupted, event).1;
            &&& event matches Event::Drawn(x) ==> {
                &&& s.phase matches Phase::CrossRoll { roll } ==> (a == (Action::TryCrossover {
                    roll,
                    attempt: 1,
                }) <==> x.nan() || k.crossover_prob.nan() || x.key() < k.crossover_prob.key())
                &&& s.phase matches Phase::MutateRoll { roll } ==> (a == (Action::Immigrate {
                    roll,
                }) <==> x.nan() || k.mutate_prob.nan() || x.key() < k.mutate_prob.key())
            }
            &&& event == (Event::Tried { survived: false }) ==> (s.phase matches Phase::CrossTry {
                roll,
                attempt,
            } ==> (attempt < k.attempts ==> a == (Action::TryCrossover {
                roll,
                attempt: (attempt + 1) as usize,
            })))
            &&& a matches Action::TryCrossover { roll, attempt } ==> {
                &&& 1 <= attempt <= k.attempts
                &&& if attempt == 1 {
                    s.phase == (Phase::CrossRoll { roll }) && event is Drawn
                } else {
                    s.phase == (Phase::CrossTry { roll, attempt: (attempt - 1) as usize })
                        && event == (Event::Tried { survived: false })
                }
            }
            &&& a matches Action::Immigrate { roll } ==> s.phase == (Phase::MutateRoll { roll })
                && event is Drawn
        }),
{
}

/// A checkpoint is taken at the clocks above 0 that are multiples of the
/// cadence, and at no other; its era is how many cadences have passed.
pub proof fn a_checkpoint_comes_every_cadence(
    k: LoopKnobs,
    s: LoopState,
    live: usize,
    interrupted: bool,
)
    requires
        k.well_formed(),
        s.phase == Phase::Measured,
    ensures
        next(k, s, live, interrupted, Event::Done).1 is TakeCheckpoint <==> exists|n: int|
            n > 0 && s.clock == #[trigger] (n * k.checkpoint_every),
        next(k, s, live, interrupted, Event::Done).1 matches Action::TakeCheckpoint { era }
            ==> s.clock == era * k.checkpoint_every && era > 0,
{
    let c = s.clock as int;
    let d = k.checkpoint_every as int;
    vstd::arithmetic::div_mod::lemma_fundamental_div_mod(c, d);
    assert(d * (c / d) == (c / d) * d) by (nonlinear_arith);
    if c > 0 && c % d == 0 {
        assert(c / d > 0) by (nonlinear_arith)
            requires
                c == d * (c / d),
                c > 0,
                d > 0,
        ;
        assert(c / d <= c) by (nonlinear_arith)
            requires
                d >= 1,
                c > 0,
        ;
        assert(s.clock == (c / d) * k.checkpoint_every);
    }
    if exists|n: int| n > 0 && s.clock == #[trigger] (n * k.checkpoint_every) {
        let n = choose|n: int| n > 0 && s.clock == #[trigger] (n * k.checkpoint_every);
        vstd::arithmetic::div_mod::lemma_mod_multiples_basic(n, d);
        assert(n * d > 0) by (nonlinear_arith)
            requires
                n > 0,
                d > 0,
        ;
    }
}

/// The stop criteria decide, once per step and nothing else but an interrupt
/// does: the race finishes at the clock of the step for the reason given, and
/// goes on if there is none.
pub proof fn the_stop_criteria_decide(
    k: LoopKnobs,
    s: LoopState,
    live: usize,
    interrupted: bool,
    event: Event,
)
    requires
        k.well_formed(),
        s.well_formed(k),
    ensures
        ({
            let (t, a) = next(k, s, live, interrupted, event);
            &&& s.phase == Phase::StopCheck ==> (event matches Event::Stop(stop) ==> match stop {
                Some(reason) => a == (Action::Finish { reason, clock: s.clock }) && t.phase
                    == Phase::Over,
                None => a == Action::NextStep && t.phase == Phase::Top,
            })
            &&& a == Action::NextStep ==> s.phase == Phase::StopCheck && event == Event::Stop(None)
            &&& a matches Action::Finish { reason, clock } ==> {
                ||| s.phase == Phase::StopCheck && event == Event::Stop(Some(reason)) && clock
                    == s.clock
                ||| interrupted && reason == StopReason::Interrupted && (t.clock > 0 ==> clock
                    == t.clock - 1) && (t.clock == 0 ==> clock == 0) && (s.phase is Stepping
                    || s.phase == Phase::PopWide || s.phase == Phase::Top)
            }
            &&& a is Halt ==> s.phase == Phase::Top && live == 0
            &&& a is SumUp <==> s.phase == Phase::Rollup && event is Culls
            &&& a matches Action::SumUp { flush } ==> flush == k.flush_each && t.phase
                == Phase::StopCheck
        }),
{
}

/// The counters of a step count what they are named after, and nothing else
/// moves them.
pub proof fn the_counters_count(
    k: LoopKnobs,
    s: LoopState,
    live: usize,
    interrupted: bool,
    event: Event,
)
    requires
        k.well_formed(),
        s.well_formed(k),
        s.phase != Phase::Top,
    ensures
        ({
            let (t, a) = next(k, s, live, interrupted, event);
            let one = |b: bool| if b { 1int } else { 0int };
            &&& t.clock == s.clock && t.group == s.group && t.culls_before == s.culls_before
            &&& t.evolve.cross_fired == s.evolve.cross_fired + one(
                a matches Action::TryCrossover { roll, attempt } && attempt == 1,
            )
            &&& t.evolve.cross_survived == s.evolve.cross_survived + one(
                s.phase is CrossTry && event == (Event::Tried { survived: true }),
            )
            &&& t.evolve.cross_discarded == s.evolve.cross_discarded + one(
                s.phase is CrossTry && event == (Event::Tried { survived: false })
                    && s.phase->CrossTry_attempt == k.attempts,
            )
            &&& t.evolve.mutate_fired == s.evolve.mutate_fired + one(a is Immigrate)
            &&& event matches Event::Culls(culls) ==> (s.phase == Phase::Rollup ==> {
                &&& culls >= s.culls_before ==> t.evolve.culls == culls - s.culls_before
                &&& s.evolve.cross_survived + s.evolve.mutate_fired <= usize::MAX
                    ==> t.evolve.inserts == s.evolve.cross_survived + s.evolve.mutate_fired
            })
            &&& s.phase != Phase::Rollup ==> t.evolve.culls == s.evolve.culls && t.evolve.inserts
                == s.evolve.inserts
        }),
{
}

/// An event that does not fit is refused and changes nothing; in every phase
/// some event fits, so that no step gets stuck.
pub proof fn what_does_not_fit_is_refused(
    k: LoopKnobs,
    s: LoopState,
    live: usize,
    interrupted: bool,
    event: Event,
)
    requires
        k.well_formed(),
        s.well_formed(k),
    ensures
        next(k, s, live, interrupted, event).1 == Action::Unexpected ==> next(
            k,
            s,
            live,
            interrupted,
            event,
        ).0 == s,
        next(k, s, live, interrupted, event).1 != Action::Unexpected <==> match event {
            Event::Begin { clock, culls } => s.phase == Phase::Top,
            Event::Done => s.phase == Phase::PopWide || s.phase is Stepping || s.phase
                == Phase::Measured || s.phase == Phase::Checkpointing || s.phase is Immigrating,
            Event::Failed => s.phase is Stepping,
            Event::Drawn(x) => s.phase is CrossRoll || s.phase is MutateRoll,
            Event::Tried { survived } => s.phase is CrossTry,
            Event::Culls(culls) => s.phase == Phase::Rollup,
            Event::Stop(stop) => s.phase == Phase::StopCheck,
        },
{
}

// ── A whole step ─────────────────────────────────────────────────────────

/// What the loop is told at one decision.
pub struct Tick {
    pub live: usize,
    pub interrupted: bool,
    pub event: Event,
}

/// The loop is told one thing after the other, and decides each time.
pub open spec fn played(
    k: LoopKnobs,
    states: Seq<LoopState>,
    ticks: Seq<Tick>,
    actions: Seq<Action>,
) -> bool {
    &&& states.len() == ticks.len() + 1
    &&& actions.len() == ticks.len()
    &&& forall|i: int|
        0 <= i < ticks.len() ==> (states[i + 1], actions[i]) == next(
            k,
            states[i],
            (#[trigger] ticks[i]).live,
            ticks[i].interrupted,
            ticks[i].event,
        )
}

/// The numbers 0 to `n - 1`.
pub open spec fn counted(n: int) -> Seq<usize> {
    Seq::new(
        if n > 0 {
            n as nat
        } else {
            0
        },
        |i: int| i as usize,
    )
}

/// The nets that were asked to step, in order.
pub open spec fn nets_stepped(actions: Seq<Action>) -> Seq<usize>
    decreases actions.len(),
{
    if actions.len() == 0 {
        Seq::empty()
    } else {
        match actions.last() {
            Action::StepNet { net } => nets_stepped(actions.drop_last()).push(net),
            _ => nets_stepped(actions.drop_last()),
        }
    }
}

/// The crossover rolls that were drawn for, in order.
pub open spec fn crossovers_drawn(actions: Seq<Action>) -> Seq<usize>
    decreases actions.len(),
{
    if actions.len() == 0 {
        Seq::empty()
    } else {
        match actions.last() {
            Action::DrawCrossover { roll } => crossovers_drawn(actions.drop_last()).push(roll),
            _ => crossovers_drawn(actions.drop_last()),
        }
    }
}

/// The mutation rolls that were drawn for, in order.
pub open spec fn mutations_drawn(actions: Seq<Action>) -> Seq<usize>
    decreases actions.len(),
{
    if actions.len() == 0 {
        Seq::empty()
    } else {
        match actions.last() {
            Action::DrawMutation { roll } => mutations_drawn(actions.drop_last()).push(roll),
            _ => mutations_drawn(actions.drop_last()),
        }
    }
}

/// The eras of the checkpoints that were taken, in order.
pub open spec fn eras_taken(actions: Seq<Action>) -> Seq<usize>
    decreases actions.len(),
{
    if actions.len() == 0 {
        Seq::empty()
    } else {
        match actions.last() {
            Action::TakeCheckpoint { era } => eras_taken(actions.drop_last()).push(era),
            _ => eras_taken(actions.drop_last()),
        }
    }
}

/// How often the group was measured, and how often the step was summed up.
pub open spec fn summaries(actions: Seq<Action>) -> (int, int)
    decreases actions.len(),
{
    if actions.len() == 0 {
        (0, 0)
    } else {
        let (m, u) = summaries(actions.drop_last());
        match actions.last() {
            Action::AppendMetrics => (m + 1, u),
            Action::SumUp { flush } => (m, u + 1),
            _ => (m, u),
        }
    }
}

/// The checkpoints that are due at a clock.
pub open spec fn eras_due(k: LoopKnobs, clock: usize) -> Seq<usize> {
    if clock > 0 && clock as int % k.checkpoint_every as int == 0 {
        seq![(clock as int / k.checkpoint_every as int) as usize]
    } else {
        Seq::empty()
    }
}

/// How far a step has come, by what was asked for so far.
pub open spec fn come_to(
    actions: Seq<Action>,
    nets: int,
    eras: Seq<usize>,
    crossovers: int,
    mutations: int,
    done: (int, int),
) -> bool {
    &&& nets_stepped(actions) == counted(nets)
    &&& eras_taken(actions) == eras
    &&& crossovers_drawn(actions) == counted(crossovers)
    &&& mutations_drawn(actions) == counted(mutations)
    &&& summaries(actions) == done
}

/// What was asked for when the loop is in this state.
pub open spec fn asked_for(k: LoopKnobs, s: LoopState, actions: Seq<Action>) -> bool {
    let eras = eras_due(k, s.clock);
    let none = Seq::<usize>::empty();
    let c = k.crossover_rolls as int;
    let m = k.mutate_rolls as int;
    match s.phase {
        Phase::PopWide => come_to(actions, 0, none, 0, 0, (0, 0)),
        Phase::Stepping { net } => come_to(actions, net + 1, none, 0, 0, (0, 0)),
        Phase::Measured => come_to(actions, s.group as int, none, 0, 0, (1, 0)),
        Phase::Checkpointing => come_to(actions, s.group as int, eras, 0, 0, (1, 0)),
        Phase::CrossRoll { roll } => come_to(actions, s.group as int, eras, roll + 1, 0, (1, 0)),
        Phase::CrossTry { roll, attempt } => come_to(
            actions,
            s.group as int,
            eras,
            roll + 1,
            0,
            (1, 0),
        ),
        Phase::MutateRoll { roll } => come_to(actions, s.group as int, eras, c, roll + 1, (1, 0)),
        Phase::Immigrating { roll } => come_to(actions, s.group as int, eras, c, roll + 1, (1, 0)),
        Phase::Rollup => come_to(actions, s.group as int, eras, c, m, (1, 0)),
        Phase::StopCheck => come_to(actions, s.group as int, eras, c, m, (1, 1)),
        Phase::Top => come_to(actions, s.group as int, eras, c, m, (1, 1)),
        Phase::Over => come_to(actions, s.group as int, eras, c, m, (1, 1)),
    }
}

/// An undisturbed step: it begins with at least two nets, nobody interrupts, no
/// net fails, at least two nets stay alive, and it is not over before the end.
pub open spec fn undisturbed(ticks: Seq<Tick>, actions: Seq<Action>) -> bool {
    &&& ticks.len() > 0
    &&& ticks[0].event is Begin
    &&& forall|i: int|
        0 <= i < ticks.len() ==> (#[trigger] ticks[i]).live >= 2 && !ticks[i].interrupted
            && ticks[i].event != Event::Failed
    &&& forall|i: int| 0 <= i < actions.len() ==> #[trigger] actions[i] != Action::Unexpected
    &&& forall|i: int|
        0 <= i < actions.len() - 1 ==> #[trigger] actions[i] != Action::NextStep && !(
        actions[i] is Finish)
}

#[verifier::spinoff_prover]
#[verifier::rlimit(40)]
proof fn decisions_add_up(
    k: LoopKnobs,
    states: Seq<LoopState>,
    ticks: Seq<Tick>,
    actions: Seq<Action>,
    n: int,
)
    requires
        k.well_formed(),
        played(k, states, ticks, actions),
        states[0].phase == Phase::Top,
        states[0].well_formed(k),
        undisturbed(ticks, actions),
        0 < n <= ticks.len(),
    ensures
        states[n].well_formed(k),
        asked_for(k, states[n], actions.take(n)),
        states[n].group == ticks[0].live,
        states[n].clock == ticks[0].event->Begin_clock,
        states[n].phase == Phase::Top || states[n].phase == Phase::Over ==> n == ticks.len(),
    decreases n,
{
    let acts = actions.take(n);
    let before = actions.take(n - 1);
    let i = n - 1;
    let tick = ticks[i];
    assert(acts.drop_last() =~= before);
    assert(acts.last() == actions[i]);
    if i > 0 {
        decisions_add_up(k, states, ticks, actions, i);
    } else {
        assert(before =~= Seq::empty());
    }
    counters_stay_in_order(k, states[i], tick.live, tick.interrupted, tick.event);
    assert(actions[i] != Action::Unexpected);
    let s = states[i];
    assert(counted(0) =~= Seq::empty());
    match s.phase {
        Phase::Stepping { net } => {
            assert(counted(net + 2) =~= counted(net + 1).push((net + 1) as usize));
        },
        Phase::CrossRoll { roll } => {
            assert(counted(roll + 2) =~= counted(roll + 1).push((roll + 1) as usize));
        },
        Phase::CrossTry { roll, attempt } => {
            assert(counted(roll + 2) =~= counted(roll + 1).push((roll + 1) as usize));
        },
        Phase::MutateRoll { roll } => {
            assert(counted(roll + 2) =~= counted(roll + 1).push((roll + 1) as usize));
        },
        Phase::Immigrating { roll } => {
            assert(counted(roll + 2) =~= counted(roll + 1).push((roll + 1) as usize));
        },
        _ => {},
    }
    assert(counted(1) =~= counted(0).push(0));
    assert(Seq::<usize>::empty().push((s.clock as int / k.checkpoint_every as int) as usize)
        =~= seq![(s.clock as int / k.checkpoint_every as int) as usize]);
    if s.phase == Phase::Top {
        assert(nets_stepped(before) =~= Seq::empty());
        assert(eras_taken(before) =~= Seq::empty());
        assert(crossovers_drawn(before) =~= Seq::empty());
        assert(mutations_drawn(before) =~= Seq::empty());
        assert(summaries(before) == (0int, 0int));
        assert(tick.live >= 2);
    }
}

/// A whole step of an undisturbed race, from its beginning to the verdict of the
/// stop criteria: every live net steps exactly once, in order; the group is
/// measured once; a checkpoint is taken if one is due, and only then; every
/// crossover roll and every mutation roll is drawn for exactly once, in order;
/// and the step is summed up once.
pub proof fn a_step_does_everything(
    k: LoopKnobs,
    states: Seq<LoopState>,
    ticks: Seq<Tick>,
    actions: Seq<Action>,
)
    requires
        k.well_formed(),
        played(k, states, ticks, actions),
        states[0].phase == Phase::Top,
        states[0].well_formed(k),
        undisturbed(ticks, actions),
        actions.last() == Action::NextStep || actions.last() is Finish,
    ensures
        nets_stepped(actions) == counted(ticks[0].live as int),
        eras_taken(actions) == eras_due(k, ticks[0].event->Begin_clock),
        crossovers_drawn(actions) == counted(k.crossover_rolls as int),
        mutations_drawn(actions) == counted(k.mutate_rolls as int),
        summaries(actions) == (1int, 1int),
{
    let n = ticks.len() as int;
    decisions_add_up(k, states, ticks, actions, n);
    assert(actions.take(n) =~= actions);
    let tick = ticks[n - 1];
    assert(actions.last() == actions[n - 1]);
    if n > 1 {
        decisions_add_up(k, states, ticks, actions, n - 1);
        the_stop_criteria_decide(k, states[n - 1], tick.live, tick.interrupted, tick.event);
    }
}

} // verus!
