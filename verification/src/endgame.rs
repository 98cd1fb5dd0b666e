//! The end of a race: artifacts, the cull to the champions, solo training.

use vstd::prelude::*;

use crate::config::{PopPruner, RaceConfig, StopReason};

verus! {

/// Which artifacts a run leaves behind.
#[derive(Clone, Copy, Debug, PartialEq, Eq, Structural)]
pub struct Artifacts {
    pub elite_topology: bool,
    pub elite_weights: bool,
    pub worst_topology: bool,
    pub worst_weights: bool,
}

impl Artifacts {
    pub fn of(cfg: &RaceConfig) -> (r: Artifacts)
        ensures
            r.elite_topology == cfg.elite_save_topology,
            r.elite_weights == cfg.elite_save_safetensors,
            r.worst_topology == cfg.worst_save_topology,
            r.worst_weights == cfg.worst_save_safetensors,
    {
        Artifacts {
            elite_topology: cfg.elite_save_topology,
            elite_weights: cfg.elite_save_safetensors,
            worst_topology: cfg.worst_save_topology,
            worst_weights: cfg.worst_save_safetensors,
        }
    }
}

/// Where the end of the race stands: what it waits for.
#[derive(Clone, Copy, Debug, PartialEq, Eq, Structural)]
pub enum EndPhase {
    /// Nothing has been done yet.
    Begin,
    /// The worst net is saved, before anyone is culled.
    SavingWorst,
    /// Everyone but the champions is culled.
    Pruning,
    /// The culls are written out.
    WritingCulls,
    /// Net number `net` takes solo step number `offset`.
    Solo { offset: usize, net: usize },
    /// The measurements of a solo step are appended.
    SoloMeasured { offset: usize },
    /// The champions are saved.
    SavingChampions,
    /// The live nets and the event log are written out.
    WritingFrontier,
    /// The counters of the run are recorded.
    WritingCounters,
    /// All done.
    Over,
}

/// The state of the end of a race.
#[derive(Clone, Copy, Debug, PartialEq, Eq, Structural)]
pub struct EndState {
    pub phase: EndPhase,
    pub reason: StopReason,
    /// The clock at which the race stopped.
    pub clock: usize,
    pub pruner: Option<PopPruner>,
    /// How many nets take the current solo step.
    pub group: usize,
}

/// What to do next.
#[derive(Clone, Copy, Debug, PartialEq, Eq, Structural)]
pub enum EndAction {
    SaveWorst,
    /// Cull everyone but the champions.
    Prune,
    WriteCulls,
    /// Step net number `net` at this clock.
    StepNet { net: usize, clock: usize },
    /// Append the measurements of this clock and sum the step up.
    AppendMetrics { clock: usize },
    SaveChampions,
    WriteFrontier,
    WriteCounters,
    /// The race is over for this reason.
    Stop { reason: StopReason },
    /// Nothing is left to do.
    Nothing,
}

/// The number of solo steps.
pub open spec fn solo_steps(s: EndState) -> nat {
    match s.pruner {
        Some(p) => p.steps as nat,
        None => 0,
    }
}

/// The clock of solo step number `offset`.
pub open spec fn solo_clock(s: EndState, offset: usize) -> usize {
    (s.clock + 1 + offset) as usize
}

pub open spec fn end_phase(s: EndState, phase: EndPhase) -> EndState {
    EndState { phase, ..s }
}

/// Begins solo step number `offset`, or saves the champions after the last one,
/// or if nobody is alive.
pub open spec fn to_solo(s: EndState, offset: usize, live: usize) -> (EndState, EndAction) {
    if offset < solo_steps(s) && live > 0 {
        (
            EndState { phase: EndPhase::Solo { offset, net: 0 }, group: live, ..s },
            EndAction::StepNet { net: 0, clock: solo_clock(s, offset) },
        )
    } else {
        (end_phase(s, EndPhase::SavingChampions), EndAction::SaveChampions)
    }
}

/// The next state and what to do, once what was asked for is done. `live` is the
/// number of nets alive, `culled` the number the pruner culled.
pub open spec fn end_next(s: EndState, live: usize, culled: usize) -> (EndState, EndAction) {
    match s.phase {
        EndPhase::Begin => if s.pruner is Some {
            (end_phase(s, EndPhase::SavingWorst), EndAction::SaveWorst)
        } else {
            (end_phase(s, EndPhase::SavingChampions), EndAction::SaveChampions)
        },
        EndPhase::SavingWorst => if s.pruner is Some {
            (end_phase(s, EndPhase::Pruning), EndAction::Prune)
        } else {
            (end_phase(s, EndPhase::WritingFrontier), EndAction::WriteFrontier)
        },
        EndPhase::Pruning => if culled > 0 {
            (end_phase(s, EndPhase::WritingCulls), EndAction::WriteCulls)
        } else {
            to_solo(s, 0, live)
        },
        EndPhase::WritingCulls => to_solo(s, 0, live),
        EndPhase::Solo { offset, net } => if net + 1 < s.group {
            (
                end_phase(s, EndPhase::Solo { offset, net: (net + 1) as usize }),
                EndAction::StepNet { net: (net + 1) as usize, clock: solo_clock(s, offset) },
            )
        } else {
            (
                end_phase(s, EndPhase::SoloMeasured { offset }),
                EndAction::AppendMetrics { clock: solo_clock(s, offset) },
            )
        },
        EndPhase::SoloMeasured { offset } => to_solo(s, (offset + 1) as usize, live),
        EndPhase::SavingChampions => if s.pruner is None {
            (end_phase(s, EndPhase::SavingWorst), EndAction::SaveWorst)
        } else {
            (end_phase(s, EndPhase::WritingFrontier), EndAction::WriteFrontier)
        },
        EndPhase::WritingFrontier => (
            end_phase(s, EndPhase::WritingCounters),
            EndAction::WriteCounters,
        ),
        EndPhase::WritingCounters => (
            end_phase(s, EndPhase::Over),
            EndAction::Stop { reason: s.reason },
        ),
        EndPhase::Over => (s, EndAction::Nothing),
    }
}

impl EndState {
    pub open spec fn well_formed(self) -> bool {
        &&& self.clock + solo_steps(self) <= usize::MAX
        &&& match self.phase {
            EndPhase::Solo { offset, net } => offset < solo_steps(self) && net < self.group,
            EndPhase::SoloMeasured { offset } => offset < solo_steps(self),
            _ => true,
        }
    }

    /// The race stopped for `reason` at `clock`.
    pub fn begin(reason: StopReason, clock: usize, pruner: Option<PopPruner>) -> (r: EndState)
        requires
            match pruner {
                Some(p) => clock + p.steps <= usize::MAX,
                None => true,
            },
        ensures
            r.well_formed(),
            r.phase == EndPhase::Begin,
            r.reason == reason,
            r.clock == clock,
            r.pruner == pruner,
            r.group == 0,
    {
        EndState { phase: EndPhase::Begin, reason, clock, pruner, group: 0 }
    }

    fn go_solo(self, offset: usize, live: usize) -> (r: (EndState, EndAction))
        requires
            self.clock + solo_steps(self) <= usize::MAX,
        ensures
            r == to_solo(self, offset, live),
            r.0.well_formed(),
    {
        let steps: usize = match self.pruner {
            Some(p) => p.steps,
            None => 0,
        };
        if offset < steps && live > 0 {
            (
                EndState { phase: EndPhase::Solo { offset, net: 0 }, group: live, ..self },
                EndAction::StepNet { net: 0, clock: self.clock + 1 + offset },
            )
        } else {
            (EndState { phase: EndPhase::SavingChampions, ..self }, EndAction::SaveChampions)
        }
    }

    /// Decides what happens next.
    pub fn advance(self, live: usize, culled: usize) -> (r: (EndState, EndAction))
        requires
            self.well_formed(),
        ensures
            r == end_next(self, live, culled),
            r.0.well_formed(),
    {
        match self.phase {
            EndPhase::Begin => {
                if self.pruner.is_some() {
                    (EndState { phase: EndPhase::SavingWorst, ..self }, EndAction::SaveWorst)
                } else {
                    (
                        EndState { phase: EndPhase::SavingChampions, ..self },
                        EndAction::SaveChampions,
                    )
                }
            },
            EndPhase::SavingWorst => {
                if self.pruner.is_some() {
                    (EndState { phase: EndPhase::Pruning, ..self }, EndAction::Prune)
                } else {
                    (
                        EndState { phase: EndPhase::WritingFrontier, ..self },
                        EndAction::WriteFrontier,
                    )
                }
            },
            EndPhase::Pruning => {
                if culled > 0 {
                    (EndState { phase: EndPhase::WritingCulls, ..self }, EndAction::WriteCulls)
                } else {
                    self.go_solo(0, live)
                }
            },
            EndPhase::WritingCulls => self.go_solo(0, live),
            EndPhase::Solo { offset, net } => {
                let clock: usize = self.clock + 1 + offset;
                if net < self.group - 1 {
                    (
                        EndState { phase: EndPhase::Solo { offset, net: net + 1 }, ..self },
                        EndAction::StepNet { net: net + 1, clock },
                    )
                } else {
                    (
                        EndState { phase: EndPhase::SoloMeasured { offset }, ..self },
                        EndAction::AppendMetrics { clock },
                    )
                }
            },
            EndPhase::SoloMeasured { offset } => self.go_solo(offset + 1, live),
            EndPhase::SavingChampions => {
                if self.pruner.is_some() {
                    (
                        EndState { phase: EndPhase::WritingFrontier, ..self },
                        EndAction::WriteFrontier,
                    )
                } else {
                    (EndState { phase: EndPhase::SavingWorst, ..self }, EndAction::SaveWorst)
                }
            },
            EndPhase::WritingFrontier => (
                EndState { phase: EndPhase::WritingCounters, ..self },
                EndAction::WriteCounters,
            ),
            EndPhase::WritingCounters => (
                EndState { phase: EndPhase::Over, ..self },
                EndAction::Stop { reason: self.reason },
            ),
            EndPhase::Over => (self, EndAction::Nothing),
        }
    }
}

/// How far along the end of a race is, as three numbers of falling weight.
pub open spec fn end_to_go(s: EndState) -> (int, int, int) {
    match s.phase {
        EndPhase::Begin => (9, 0, 0),
        EndPhase::SavingWorst => if s.pruner is Some {
            (8, 0, 0)
        } else {
            (3, 0, 0)
        },
        EndPhase::Pruning => (7, 0, 0),
        EndPhase::WritingCulls => (6, 0, 0),
        EndPhase::Solo { offset, net } => (5, solo_steps(s) - offset, s.group - net),
        EndPhase::SoloMeasured { offset } => (5, solo_steps(s) - offset, 0),
        EndPhase::SavingChampions => (4, 0, 0),
        EndPhase::WritingFrontier => (2, 0, 0),
        EndPhase::WritingCounters => (1, 0, 0),
        EndPhase::Over => (0, 0, 0),
    }
}

/// The end of a race comes to an end.
pub proof fn the_end_ends(s: EndState, live: usize, culled: usize)
    requires
        s.well_formed(),
        s.phase != EndPhase::Over,
    ensures
        crate::run_loop::lower(end_to_go(end_next(s, live, culled).0), end_to_go(s)),
        0 <= end_to_go(end_next(s, live, culled).0).0,
        0 <= end_to_go(end_next(s, live, culled).0).1,
        0 <= end_to_go(end_next(s, live, culled).0).2,
{
}

/// The reason of the stop is what the race ends with, pruner or not.
pub proof fn the_reason_stands(s: EndState, live: usize, culled: usize)
    ensures
        end_next(s, live, culled).0.reason == s.reason,
        end_next(s, live, culled).1 matches EndAction::Stop { reason } ==> reason == s.reason,
{
}

/// Without a pruner nobody is culled and nobody steps after the stop.
pub proof fn no_pruner_no_solo(s: EndState, live: usize, culled: usize)
    requires
        s.pruner is None,
        s.phase != EndPhase::Pruning,
        s.phase != EndPhase::WritingCulls,
        !(s.phase is Solo),
        !(s.phase is SoloMeasured),
    ensures
        end_next(s, live, culled).1 != EndAction::Prune,
        !(end_next(s, live, culled).1 is StepNet),
        end_next(s, live, culled).0.phase != EndPhase::Pruning,
        end_next(s, live, culled).0.phase != EndPhase::WritingCulls,
        !(end_next(s, live, culled).0.phase is Solo),
        !(end_next(s, live, culled).0.phase is SoloMeasured),
{
}

/// Every race that ends has its counters recorded, and its live nets and event
/// log written out before that, pruner or not.
pub proof fn counters_are_recorded_at_the_end(s: EndState, live: usize, culled: usize)
    ensures
        end_next(s, live, culled).1 is Stop ==> s.phase == EndPhase::WritingCounters,
        end_next(s, live, culled).0.phase == EndPhase::WritingCounters <==> end_next(
            s,
            live,
            culled,
        ).1 == EndAction::WriteCounters,
        end_next(s, live, culled).1 == EndAction::WriteCounters ==> s.phase
            == EndPhase::WritingFrontier,
{
}

/// The worst net is saved while the whole field is alive: the pruner culls only
/// after it.
pub proof fn worst_is_saved_before_the_cull(s: EndState, live: usize, culled: usize)
    requires
        end_next(s, live, culled).1 == EndAction::Prune,
    ensures
        s.phase == EndPhase::SavingWorst,
{
}

/// Solo steps run at the clocks right behind the stop, one after the other.
pub proof fn solo_clocks_follow_the_stop(s: EndState, live: usize, culled: usize)
    requires
        s.well_formed(),
    ensures
        end_next(s, live, culled).1 matches EndAction::StepNet { net, clock } ==> s.clock < clock
            <= s.clock + solo_steps(s),
        s.phase matches EndPhase::SoloMeasured { offset } ==> (end_next(
            s,
            live,
            culled,
        ).1 matches EndAction::StepNet { net, clock } ==> clock == solo_clock(s, offset) + 1),
{
}

/// In a solo step every net of the group steps exactly once, in order, at the
/// clock of that step; the measurements are appended only behind the last one.
pub proof fn everyone_takes_the_solo_step(s: EndState, live: usize, culled: usize)
    requires
        s.well_formed(),
    ensures
        ({
            let (t, a) = end_next(s, live, culled);
            &&& s.phase matches EndPhase::Solo { offset, net } ==> {
                &&& net + 1 < s.group ==> a == (EndAction::StepNet {
                    net: (net + 1) as usize,
                    clock: (s.clock + 1 + offset) as usize,
                }) && t.phase == (EndPhase::Solo { offset, net: (net + 1) as usize })
                &&& net + 1 == s.group ==> a == (EndAction::AppendMetrics {
                    clock: (s.clock + 1 + offset) as usize,
                }) && t.phase == (EndPhase::SoloMeasured { offset })
                &&& t.group == s.group
            }
            &&& a matches EndAction::AppendMetrics { clock } ==> s.phase is Solo
                && s.phase->Solo_net + 1 == s.group
            &&& a matches EndAction::StepNet { net, clock } ==> {
                &&& t.phase is Solo && t.phase->Solo_net == net && net < t.group
                &&& net == 0 ==> t.group == live
                &&& net > 0 ==> s.phase is Solo && s.phase->Solo_net + 1 == net
            }
        }),
{
}

/// The survivors take as many solo steps as the pruner asks for, one after the
/// other: the first follows the cull, the next follows the measurements of the
/// one before, and the champions are saved behind the last one. With nobody
/// alive there is none.
pub proof fn all_solo_steps_are_taken(s: EndState, live: usize, culled: usize)
    requires
        s.well_formed(),
        s.pruner is Some,
    ensures
        ({
            let (t, a) = end_next(s, live, culled);
            let steps = s.pruner->0.steps;
            &&& (s.phase == EndPhase::WritingCulls || (s.phase == EndPhase::Pruning && culled
                == 0)) ==> a == (if steps > 0 && live > 0 {
                EndAction::StepNet { net: 0, clock: (s.clock + 1) as usize }
            } else {
                EndAction::SaveChampions
            })
            &&& s.phase matches EndPhase::SoloMeasured { offset } ==> a == (if offset + 1 < steps
                && live > 0 {
                EndAction::StepNet { net: 0, clock: (s.clock + 2 + offset) as usize }
            } else {
                EndAction::SaveChampions
            })
            &&& a == EndAction::SaveChampions ==> s.phase != EndPhase::Begin && (live == 0 || steps
                == 0 || (s.phase is SoloMeasured && s.phase->SoloMeasured_offset + 1 == steps))
        }),
{
}

/// The order of the artifacts. With a pruner: the worst net, the cull, the
/// culled nets if there are any, the solo steps, the champions, the live nets,
/// the counters, and the stop. Without one: the champions, the worst net, the
/// live nets, the counters, and the stop.
pub proof fn artifacts_come_in_order(s: EndState, live: usize, culled: usize)
    requires
        s.well_formed(),
    ensures
        ({
            let (t, a) = end_next(s, live, culled);
            let pruned = s.pruner is Some;
            &&& s.phase == EndPhase::Begin ==> a == (if pruned {
                EndAction::SaveWorst
            } else {
                EndAction::SaveChampions
            })
            &&& s.phase == EndPhase::SavingWorst ==> a == (if pruned {
                EndAction::Prune
            } else {
                EndAction::WriteFrontier
            })
            &&& s.phase == EndPhase::SavingChampions ==> a == (if pruned {
                EndAction::WriteFrontier
            } else {
                EndAction::SaveWorst
            })
            &&& s.phase == EndPhase::Pruning ==> (culled > 0 <==> a == EndAction::WriteCulls)
            &&& s.phase == EndPhase::WritingFrontier ==> a == EndAction::WriteCounters
            &&& s.phase == EndPhase::WritingCounters ==> a == (EndAction::Stop { reason: s.reason })
            &&& s.phase == EndPhase::Over ==> a == EndAction::Nothing && t == s
            &&& a == EndAction::SaveWorst ==> t.phase == EndPhase::SavingWorst
            &&& a == EndAction::Prune ==> t.phase == EndPhase::Pruning
            &&& a == EndAction::WriteCulls <==> t.phase == EndPhase::WritingCulls
            &&& a == EndAction::SaveChampions <==> t.phase == EndPhase::SavingChampions
            &&& a == EndAction::WriteFrontier <==> t.phase == EndPhase::WritingFrontier
            &&& a is Stop ==> t.phase == EndPhase::Over
            &&& t.clock == s.clock && t.pruner == s.pruner && t.reason == s.reason
        }),
{
}

// ── A whole end ──────────────────────────────────────────────────────────

/// The end is run: each time what was asked for is done, it decides again.
/// `lives` and `culls` say how many nets were alive and culled by then.
pub open spec fn ended(
    states: Seq<EndState>,
    lives: Seq<usize>,
    culls: Seq<usize>,
    actions: Seq<EndAction>,
) -> bool {
    &&& states.len() == actions.len() + 1
    &&& lives.len() == actions.len()
    &&& culls.len() == actions.len()
    &&& forall|i: int|
        0 <= i < actions.len() ==> (states[i + 1], #[trigger] actions[i]) == end_next(
            states[i],
            lives[i],
            culls[i],
        )
}

/// The solo steps that were asked for: which net, at which clock.
pub open spec fn solos(actions: Seq<EndAction>) -> Seq<(usize, usize)>
    decreases actions.len(),
{
    if actions.len() == 0 {
        Seq::empty()
    } else {
        match actions.last() {
            EndAction::StepNet { net, clock } => solos(actions.drop_last()).push((net, clock)),
            _ => solos(actions.drop_last()),
        }
    }
}

/// The clocks whose measurements were appended.
pub open spec fn clocks_measured(actions: Seq<EndAction>) -> Seq<usize>
    decreases actions.len(),
{
    if actions.len() == 0 {
        Seq::empty()
    } else {
        match actions.last() {
            EndAction::AppendMetrics { clock } => clocks_measured(actions.drop_last()).push(clock),
            _ => clocks_measured(actions.drop_last()),
        }
    }
}

/// How often something was asked for.
pub open spec fn asked(actions: Seq<EndAction>, what: EndAction) -> int
    decreases actions.len(),
{
    if actions.len() == 0 {
        0
    } else {
        asked(actions.drop_last(), what) + (if actions.last() == what {
            1int
        } else {
            0int
        })
    }
}

/// The first `m` nets, each at the same clock.
pub open spec fn nets_at(clock: int, m: int) -> Seq<(usize, usize)> {
    Seq::new(
        if m > 0 {
            m as nat
        } else {
            0
        },
        |i: int| (i as usize, clock as usize),
    )
}

/// A group of `m` nets at each of `n` clocks behind `clock`, clock by clock.
pub open spec fn groups_at(clock: int, m: int, n: int) -> Seq<(usize, usize)>
    decreases n,
{
    if n <= 0 {
        Seq::empty()
    } else {
        groups_at(clock, m, n - 1) + nets_at(clock + n, m)
    }
}

/// The `n` clocks behind `clock`.
pub open spec fn clocks_behind(clock: int, n: int) -> Seq<usize> {
    Seq::new(
        if n > 0 {
            n as nat
        } else {
            0
        },
        |i: int| (clock + 1 + i) as usize,
    )
}

/// What was asked for when the end is in this phase, with `m` nets alive.
pub open spec fn end_asked(s: EndState, m: int, actions: Seq<EndAction>) -> bool {
    let c = s.clock as int;
    let n = solo_steps(s) as int;
    let pruned = s.pruner is Some;
    let count = |b: bool| if b { 1int } else { 0int };
    let (done, nets, measured) = match s.phase {
        EndPhase::Solo { offset, net } => (offset as int, net + 1, offset as int),
        EndPhase::SoloMeasured { offset } => (offset + 1, 0, offset + 1),
        EndPhase::Begin => (0, 0, 0),
        EndPhase::Pruning => (0, 0, 0),
        EndPhase::WritingCulls => (0, 0, 0),
        EndPhase::SavingWorst => (
            if pruned {
                0
            } else {
                n
            },
            0,
            if pruned {
                0
            } else {
                n
            },
        ),
        _ => (n, 0, n),
    };
    &&& solos(actions) == groups_at(c, m, done) + nets_at(c + 1 + done, nets)
    &&& clocks_measured(actions) == clocks_behind(c, measured)
    &&& asked(actions, EndAction::SaveWorst) == count(match s.phase {
        EndPhase::Begin => false,
        EndPhase::SavingChampions => pruned,
        _ => true,
    })
    &&& asked(actions, EndAction::SaveChampions) == count(match s.phase {
        EndPhase::SavingChampions => true,
        EndPhase::SavingWorst => !pruned,
        EndPhase::WritingFrontier => true,
        EndPhase::WritingCounters => true,
        EndPhase::Over => true,
        _ => false,
    })
    &&& asked(actions, EndAction::Prune) == count(pruned && s.phase != EndPhase::Begin && s.phase
        != EndPhase::SavingWorst)
    &&& asked(actions, EndAction::WriteFrontier) == count(
        s.phase == EndPhase::WritingFrontier || s.phase == EndPhase::WritingCounters || s.phase
            == EndPhase::Over,
    )
    &&& asked(actions, EndAction::WriteCounters) == count(
        s.phase == EndPhase::WritingCounters || s.phase == EndPhase::Over,
    )
    &&& !pruned ==> match s.phase {
        EndPhase::Pruning => false,
        EndPhase::WritingCulls => false,
        EndPhase::Solo { offset, net } => false,
        EndPhase::SoloMeasured { offset } => false,
        _ => true,
    }
}

#[verifier::spinoff_prover]
#[verifier::rlimit(40)]
proof fn end_adds_one(s: EndState, m: usize, culled: usize, before: Seq<EndAction>)
    requires
        s.well_formed(),
        m > 0,
        end_asked(s, m as int, before),
        s.phase != EndPhase::Over,
        s.phase is Solo ==> s.group == m,
    ensures
        ({
            let (t, action) = end_next(s, m, culled);
            &&& t.well_formed()
            &&& end_asked(t, m as int, before.push(action))
            &&& t.clock == s.clock
            &&& t.pruner == s.pruner
            &&& t.phase == EndPhase::Over ==> action is Stop
            &&& t.phase is Solo ==> t.group == m
        }),
{
    let (t, action) = end_next(s, m, culled);
    let acts = before.push(action);
    let c = s.clock as int;
    assert(acts.drop_last() =~= before);
    assert(acts.last() == action);
    match s.phase {
        EndPhase::Solo { offset, net } => {
            let at = c + 1 + offset;
            let base = groups_at(c, m as int, offset as int);
            assert(nets_at(at, net + 2) =~= nets_at(at, net + 1).push(
                ((net + 1) as usize, at as usize),
            ));
            assert(base + nets_at(at, net + 2) =~= (base + nets_at(at, net + 1)).push(
                ((net + 1) as usize, at as usize),
            ));
            assert(groups_at(c, m as int, offset + 1) == base + nets_at(at, m as int));
            assert(nets_at(at + 1, 0) =~= Seq::empty());
            assert(groups_at(c, m as int, offset + 1) + nets_at(at + 1, 0) =~= groups_at(
                c,
                m as int,
                offset + 1,
            ));
            assert(clocks_behind(c, offset + 1) =~= clocks_behind(c, offset as int).push(
                at as usize,
            ));
        },
        EndPhase::SoloMeasured { offset } => {
            let at = c + 2 + offset;
            let base = groups_at(c, m as int, offset + 1);
            assert(nets_at(at, 1) =~= seq![(0usize, at as usize)]);
            assert(base + nets_at(at, 0) =~= base);
            assert(base + nets_at(at, 1) =~= base.push((0usize, at as usize)));
            assert(base + nets_at(c + 1 + solo_steps(s), 0) =~= base);
        },
        _ => {
            assert(nets_at(c + 1, 0) =~= Seq::empty());
            assert(nets_at(c + 1, 1) =~= seq![(0usize, (c + 1) as usize)]);
            assert(groups_at(c, m as int, 0) =~= Seq::empty());
            assert(Seq::<(usize, usize)>::empty() + nets_at(c + 1, 1) =~= seq![
                (0usize, (c + 1) as usize),
            ]);
            assert(Seq::<(usize, usize)>::empty().push((0usize, (c + 1) as usize)) =~= seq![
                (0usize, (c + 1) as usize),
            ]);
        },
    }
}

proof fn end_adds_up(
    states: Seq<EndState>,
    lives: Seq<usize>,
    culls: Seq<usize>,
    actions: Seq<EndAction>,
    m: usize,
    n: int,
)
    requires
        ended(states, lives, culls, actions),
        states[0].well_formed(),
        states[0].phase == EndPhase::Begin,
        m > 0,
        forall|i: int| 0 <= i < lives.len() ==> #[trigger] lives[i] == m,
        0 <= n <= actions.len(),
        forall|i: int| 0 <= i < n - 1 ==> !((#[trigger] actions[i]) is Stop),
    ensures
        states[n].well_formed(),
        end_asked(states[n], m as int, actions.take(n)),
        states[n].clock == states[0].clock,
        states[n].pruner == states[0].pruner,
        states[n].phase == EndPhase::Over ==> n > 0 && actions[n - 1] is Stop,
        states[n].phase is Solo ==> states[n].group == m,
    decreases n,
{
    let c = states[0].clock as int;
    if n == 0 {
        assert(actions.take(n) =~= Seq::empty());
        assert(nets_at(c + 1, 0) =~= Seq::empty());
        assert(clocks_behind(c, 0) =~= Seq::empty());
        assert(groups_at(c, m as int, 0) + nets_at(c + 1, 0) =~= Seq::empty());
    } else {
        let i = n - 1;
        end_adds_up(states, lives, culls, actions, m, i);
        if i > 0 {
            assert(!(actions[i - 1] is Stop));
        }
        assert(lives[i] == m);
        assert((states[i + 1], actions[i]) == end_next(states[i], lives[i], culls[i]));
        end_adds_one(states[i], m, culls[i], actions.take(i));
        assert(actions.take(n) =~= actions.take(i).push(actions[i]));
    }
}

/// The whole end of a race with `m` nets left: each of them takes every solo
/// step the pruner asks for, clock by clock behind the stop, and each of these
/// clocks is measured once. The worst net, the champions, the live nets and the
/// counters are written exactly once, and the field is pruned exactly once if
/// there is a pruner, and never otherwise.
pub proof fn the_end_does_everything(
    states: Seq<EndState>,
    lives: Seq<usize>,
    culls: Seq<usize>,
    actions: Seq<EndAction>,
    m: usize,
)
    requires
        ended(states, lives, culls, actions),
        states[0].well_formed(),
        states[0].phase == EndPhase::Begin,
        m > 0,
        forall|i: int| 0 <= i < lives.len() ==> #[trigger] lives[i] == m,
        actions.len() > 0,
        actions.last() is Stop,
        forall|i: int| 0 <= i < actions.len() - 1 ==> !((#[trigger] actions[i]) is Stop),
    ensures
        ({
            let c = states[0].clock as int;
            let steps = match states[0].pruner {
                Some(p) => p.steps as int,
                None => 0,
            };
            &&& solos(actions) == groups_at(c, m as int, steps)
            &&& clocks_measured(actions) == clocks_behind(c, steps)
            &&& asked(actions, EndAction::Prune) == (if states[0].pruner is Some {
                1int
            } else {
                0int
            })
            &&& asked(actions, EndAction::SaveWorst) == 1
            &&& asked(actions, EndAction::SaveChampions) == 1
            &&& asked(actions, EndAction::WriteFrontier) == 1
            &&& asked(actions, EndAction::WriteCounters) == 1
        }),
{
    let n = actions.len() as int;
    end_adds_up(states, lives, culls, actions, m, n);
    assert(actions.take(n) =~= actions);
    assert(actions.last() == actions[n - 1]);
    counters_are_recorded_at_the_end(states[n - 1], lives[n - 1], culls[n - 1]);
    let c = states[0].clock as int;
    let steps = solo_steps(states[0]) as int;
    assert(groups_at(c, m as int, steps) + nets_at(c + 1 + steps, 0) =~= groups_at(
        c,
        m as int,
        steps,
    ));
}

} // verus!
