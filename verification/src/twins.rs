//! Two laws about runs that are made twice: equal starts in equal worlds give
//! equal runs, and a net that was taken up again goes on as if it had never
//! stopped.

use vstd::prelude::*;

use crate::child::replay_ranges;
use crate::config::{CrossCullPolicy, MutationCullPolicy, PopPruner, StopReason};
use crate::endgame::{end_next, EndAction, EndPhase, EndState};
use crate::evolve::{admitted, evicted, kept, pruned, replaced};
use crate::net::{Net, NetMetrics};
use crate::race::{
    all_scores, best_score, crowned, demoted_column, holds, next_clock, score_column, slot,
    stop_reason, with_net, Checkpoint, Race,
};
use crate::resume::{optional_view, warmed};
use crate::run_loop::{next, Action, Event, LoopKnobs, LoopState};
use crate::score::{Direction, Score};
use crate::smoothing::last_window;
use crate::step::{guarded, only_changed, seated};
use crate::text::texts;

verus! {

// ── What a race looks like ───────────────────────────────────────────────

/// What a measurement says.
#[verifier::ext_equal]
pub struct MetricsView {
    pub step: usize,
    pub train_loss: Score,
    pub eval_loss: Option<Score>,
    pub fitness: Score,
    pub informative: Seq<Score>,
}

/// What there is to say of a net.
#[verifier::ext_equal]
pub struct NetView {
    pub hash: Seq<char>,
    pub net_seed: usize,
    pub entered_at_step: usize,
    pub created_from: Option<Seq<char>>,
    pub trainings: usize,
    pub last_metrics: Option<MetricsView>,
    pub fitness: Seq<Score>,
    pub train: Seq<Score>,
    pub eval: Seq<Score>,
    pub smoothed: Option<Score>,
    pub floor: Option<Score>,
    pub demoted: bool,
    pub crowned: bool,
}

/// What there is to say of a race: the live nets, the ledger and the counters.
#[verifier::ext_equal]
pub struct RaceView {
    pub direction: Direction,
    pub elite_count: usize,
    pub window: usize,
    pub nets: Seq<NetView>,
    pub checkpoints: Seq<Checkpoint>,
    pub culls: usize,
    pub births: Map<usize, usize>,
    pub champions: Seq<Seq<char>>,
    pub last_crowned: Option<Seq<char>>,
}

pub open spec fn metrics_view(m: NetMetrics) -> MetricsView {
    MetricsView {
        step: m.step,
        train_loss: m.train_loss,
        eval_loss: m.eval_loss,
        fitness: m.fitness,
        informative: m.informative@,
    }
}

pub open spec fn last_view(m: Option<NetMetrics>) -> Option<MetricsView> {
    match m {
        Some(m) => Some(metrics_view(m)),
        None => None,
    }
}

pub open spec fn net_view(n: Net) -> NetView {
    NetView {
        hash: n.hash@,
        net_seed: n.net_seed,
        entered_at_step: n.entered_at_step,
        created_from: optional_view(n.created_from),
        trainings: n.trainings,
        last_metrics: last_view(n.last_metrics),
        fitness: n.fitness_window@,
        train: n.train_window@,
        eval: n.eval_window@,
        smoothed: n.smoothed,
        floor: n.floor,
        demoted: n.demoted,
        crowned: n.crowned,
    }
}

pub open spec fn nets_view(nets: Seq<Net>) -> Seq<NetView> {
    nets.map_values(|n: Net| net_view(n))
}

pub open spec fn race_view(r: Race) -> RaceView {
    RaceView {
        direction: r.direction,
        elite_count: r.elite_count,
        window: r.window,
        nets: nets_view(r.nets@),
        checkpoints: r.checkpoints@,
        culls: r.culls,
        births: r.births@,
        champions: texts(r.champions@),
        last_crowned: optional_view(r.last_crowned),
    }
}

// ── What can be done to a race ───────────────────────────────────────────

/// One operation on a race, with what it is given from outside: measurements,
/// means, children, picks.
pub enum Operation {
    /// Nothing is done to the race.
    Nothing,
    /// `Race::begin_step`.
    Begin { i: usize, freeze: bool },
    /// `Race::record_step`.
    Record { i: usize, metrics: NetMetrics, mean: Score },
    /// `Race::carry_step`.
    Carry { i: usize, fitness: Score, eval_loss: Option<Score>, mean: Score },
    /// `Race::update_regression_guard`.
    Guard { i: usize, collapsed: bool },
    /// `Race::record_checkpoint`.
    Enter { c: Checkpoint },
    /// `Race::next_child_ordinal`.
    Ordinal { clock: usize },
    /// `Race::consume_ordinals`.
    Consume { clock: usize, used: usize },
    /// `Race::close_crossover` for a child that passed, `Race::admit_crossover`.
    Admit { child: Net, policy: CrossCullPolicy, run_seed: u64, clock: usize },
    /// `Race::evict_for_immigrant`.
    Evict {
        policy: MutationCullPolicy,
        run_seed: u64,
        clock: usize,
        roll: usize,
        pick: usize,
    },
    /// `Race::close_immigration`, `Race::insert`.
    Insert { child: Net },
    /// `Race::prune`.
    Prune,
    /// `Race::record_champions`.
    Crown,
}

/// An operation by what is said of its nets and measurements.
pub enum OperationView {
    Nothing,
    Begin { i: usize, freeze: bool },
    Record { i: usize, metrics: MetricsView, mean: Score },
    Carry { i: usize, fitness: Score, eval_loss: Option<Score>, mean: Score },
    Guard { i: usize, collapsed: bool },
    Enter { c: Checkpoint },
    Ordinal { clock: usize },
    Consume { clock: usize, used: usize },
    Admit { child: NetView, policy: CrossCullPolicy, run_seed: u64, clock: usize },
    Evict {
        policy: MutationCullPolicy,
        run_seed: u64,
        clock: usize,
        roll: usize,
        pick: usize,
    },
    Insert { child: NetView },
    Prune,
    Crown,
}

pub open spec fn operation_view(op: Operation) -> OperationView {
    match op {
        Operation::Nothing => OperationView::Nothing,
        Operation::Begin { i, freeze } => OperationView::Begin { i, freeze },
        Operation::Record { i, metrics, mean } => OperationView::Record {
            i,
            metrics: metrics_view(metrics),
            mean,
        },
        Operation::Carry { i, fitness, eval_loss, mean } => OperationView::Carry {
            i,
            fitness,
            eval_loss,
            mean,
        },
        Operation::Guard { i, collapsed } => OperationView::Guard { i, collapsed },
        Operation::Enter { c } => OperationView::Enter { c },
        Operation::Ordinal { clock } => OperationView::Ordinal { clock },
        Operation::Consume { clock, used } => OperationView::Consume { clock, used },
        Operation::Admit { child, policy, run_seed, clock } => OperationView::Admit {
            child: net_view(child),
            policy,
            run_seed,
            clock,
        },
        Operation::Evict { policy, run_seed, clock, roll, pick } => OperationView::Evict {
            policy,
            run_seed,
            clock,
            roll,
            pick,
        },
        Operation::Insert { child } => OperationView::Insert { child: net_view(child) },
        Operation::Prune => OperationView::Prune,
        Operation::Crown => OperationView::Crown,
    }
}

/// An operation has been done: what the contract of its function says.
pub open spec fn done(before: Race, op: Operation, after: Race) -> bool {
    &&& before.well_formed()
    &&& match op {
        Operation::Nothing => after == before,
        Operation::Begin { i, freeze } => i < before.nets@.len() && seated(
            before,
            after,
            freeze,
            i as int,
        ),
        Operation::Record { i, metrics, mean } => {
            &&& i < before.nets@.len()
            &&& after.same_but_nets(before)
            &&& only_changed(after.nets@, before.nets@, i as int)
            &&& after.nets@[i as int].trained(before.nets@[i as int], metrics, mean, before.window)
        },
        Operation::Carry { i, fitness, eval_loss, mean } => {
            &&& i < before.nets@.len()
            &&& after.same_but_nets(before)
            &&& only_changed(after.nets@, before.nets@, i as int)
            &&& after.nets@[i as int].carried(before.nets@[i as int], fitness, eval_loss, mean)
        },
        Operation::Guard { i, collapsed } => {
            &&& i < before.nets@.len()
            &&& after.same_but_nets(before)
            &&& only_changed(after.nets@, before.nets@, i as int)
            &&& after.nets@[i as int] == guarded(before.nets@[i as int], collapsed)
        },
        Operation::Enter { c } => {
            &&& after.checkpoints@ == before.checkpoints@.push(c)
            &&& after == (Race { checkpoints: after.checkpoints, ..before })
        },
        Operation::Ordinal { clock } => {
            &&& before.born_at(clock) < usize::MAX
            &&& after == (Race { births: after.births, ..before })
            &&& after.births@ == before.births@.insert(
                clock,
                (before.born_at(clock) + 1) as usize,
            )
        },
        Operation::Consume { clock, used } => {
            &&& after == (Race { births: after.births, ..before })
            &&& after.births@ == before.births@.insert(clock, used)
        },
        Operation::Admit { child, policy, run_seed, clock } => {
            &&& admitted(before, after, child, policy, run_seed, clock)
            &&& before.crossover_victim_of(policy, run_seed, clock) matches Some(i) ==> i
                < before.nets@.len()
        },
        Operation::Evict { policy, run_seed, clock, roll, pick } => {
            &&& evicted(before, after, policy, run_seed, clock, roll, pick)
            &&& before.mutation_victim_of(policy, run_seed, clock, roll, pick) matches Some(i)
                ==> i < before.nets@.len()
        },
        Operation::Insert { child } => {
            &&& after.nets@ == with_net(before.nets@, child)
            &&& after == (Race { nets: after.nets, ..before })
        },
        Operation::Prune => pruned(before, after),
        Operation::Crown => {
            &&& crowned(before, after)
            &&& forall|k: int|
                0 <= k < before.champion_ranking().len() ==> (
                #[trigger] before.champion_ranking()[k]).index < before.nets@.len()
        },
    }
}

// ── What looks alike behaves alike ───────────────────────────────────────

proof fn views_are_parts(a: Seq<Net>, b: Seq<Net>)
    requires
        nets_view(a) == nets_view(b),
    ensures
        a.len() == b.len(),
        forall|i: int|
            #![trigger a[i]]
            #![trigger b[i]]
            0 <= i < a.len() ==> net_view(a[i]) == net_view(b[i]),
        score_column(a) == score_column(b),
        demoted_column(a) == demoted_column(b),
        all_scores(a) == all_scores(b),
{
    assert(nets_view(a).len() == a.len());
    assert forall|i: int| 0 <= i < a.len() implies net_view(a[i]) == net_view(b[i]) by {
        assert(nets_view(a)[i] == net_view(a[i]));
        assert(nets_view(b)[i] == net_view(b[i]));
    }
    assert forall|i: int| 0 <= i < a.len() implies a[i].smoothed == b[i].smoothed && a[i].demoted
        == b[i].demoted by {
        assert(net_view(a[i]) == net_view(b[i]));
    }
    assert(score_column(a) =~= score_column(b));
    assert(demoted_column(a) =~= demoted_column(b));
    assert(all_scores(a) =~= all_scores(b));
}

proof fn parts_are_views(a: Seq<Net>, b: Seq<Net>)
    requires
        a.len() == b.len(),
        forall|i: int| #![trigger a[i]] 0 <= i < a.len() ==> net_view(a[i]) == net_view(b[i]),
    ensures
        nets_view(a) == nets_view(b),
{
    assert forall|i: int| 0 <= i < a.len() implies nets_view(a)[i] == nets_view(b)[i] by {
        assert(net_view(a[i]) == net_view(b[i]));
    }
    assert(nets_view(a) =~= nets_view(b));
}

proof fn clocks_agree(a: Seq<Net>, b: Seq<Net>)
    requires
        nets_view(a) == nets_view(b),
    ensures
        next_clock(a) == next_clock(b),
    decreases a.len(),
{
    views_are_parts(a, b);
    if a.len() > 0 {
        parts_are_views(a.drop_last(), b.drop_last());
        clocks_agree(a.drop_last(), b.drop_last());
        assert(net_view(a.last()) == net_view(b.last()));
    }
}

proof fn slots_agree(a: Seq<Net>, b: Seq<Net>, hash: Seq<char>)
    requires
        nets_view(a) == nets_view(b),
    ensures
        slot(a, hash) == slot(b, hash),
        0 <= slot(a, hash) <= a.len(),
        holds(a, hash) == holds(b, hash),
    decreases a.len(),
{
    views_are_parts(a, b);
    if a.len() > 0 {
        assert(net_view(a[0]) == net_view(b[0]));
        parts_are_views(a.skip(1), b.skip(1));
        slots_agree(a.skip(1), b.skip(1), hash);
    }
    let s = slot(a, hash);
    if s < a.len() {
        assert(net_view(a[s]) == net_view(b[s]));
    }
}

proof fn joining_agrees(a: Seq<Net>, b: Seq<Net>, x: Net, y: Net)
    requires
        nets_view(a) == nets_view(b),
        net_view(x) == net_view(y),
    ensures
        nets_view(with_net(a, x)) == nets_view(with_net(b, y)),
{
    assert(x.hash@ == net_view(x).hash && y.hash@ == net_view(y).hash);
    slots_agree(a, b, x.hash@);
    views_are_parts(a, b);
    let p = with_net(a, x);
    let q = with_net(b, y);
    assert forall|i: int| 0 <= i < p.len() implies net_view(#[trigger] p[i]) == net_view(q[i]) by {
        let s = slot(a, x.hash@);
        if holds(a, x.hash@) {
            if i != s {
                assert(net_view(a[i]) == net_view(b[i]));
            }
        } else if i < s {
            assert(net_view(a[i]) == net_view(b[i]));
        } else if i > s {
            assert(net_view(a[i - 1]) == net_view(b[i - 1]));
        }
    }
    parts_are_views(p, q);
}

proof fn leaving_agrees(a: Seq<Net>, b: Seq<Net>, at: int)
    requires
        nets_view(a) == nets_view(b),
        0 <= at < a.len(),
    ensures
        nets_view(a.remove(at)) == nets_view(b.remove(at)),
{
    views_are_parts(a, b);
    let p = a.remove(at);
    let q = b.remove(at);
    assert forall|i: int| 0 <= i < p.len() implies net_view(#[trigger] p[i]) == net_view(q[i]) by {
        if i < at {
            assert(net_view(a[i]) == net_view(b[i]));
        } else {
            assert(net_view(a[i + 1]) == net_view(b[i + 1]));
        }
    }
    parts_are_views(p, q);
}

proof fn keeping_agrees(a: Seq<Net>, b: Seq<Net>, keeps: Seq<usize>)
    requires
        nets_view(a) == nets_view(b),
    ensures
        nets_view(kept(a, keeps)) == nets_view(kept(b, keeps)),
    decreases a.len(),
{
    views_are_parts(a, b);
    if a.len() > 0 {
        parts_are_views(a.drop_last(), b.drop_last());
        keeping_agrees(a.drop_last(), b.drop_last(), keeps);
        let p = kept(a.drop_last(), keeps);
        let q = kept(b.drop_last(), keeps);
        views_are_parts(p, q);
        assert(net_view(a.last()) == net_view(b.last()));
        let pp = p.push(a.last());
        let qq = q.push(b.last());
        assert forall|i: int| 0 <= i < pp.len() implies net_view(#[trigger] pp[i]) == net_view(
            qq[i],
        ) by {
            if i < p.len() {
                assert(net_view(p[i]) == net_view(q[i]));
            }
        }
        parts_are_views(pp, qq);
    } else {
        assert(kept(a, keeps) =~= kept(b, keeps));
    }
}

/// Races that look alike agree on whom they protect, rank and cull.
proof fn choices_agree(a: Race, b: Race)
    requires
        race_view(a) == race_view(b),
    ensures
        a.nets@.len() == b.nets@.len(),
        a.elite_set() == b.elite_set(),
        a.champion_ranking() == b.champion_ranking(),
        a.pruner_keeps() == b.pruner_keeps(),
        forall|policy: CrossCullPolicy, run_seed: u64, clock: usize|
            #[trigger] a.crossover_victim_of(policy, run_seed, clock) == b.crossover_victim_of(
                policy,
                run_seed,
                clock,
            ),
        forall|
            policy: MutationCullPolicy,
            run_seed: u64,
            clock: usize,
            roll: usize,
            pick: usize,
        | #[trigger]
            a.mutation_victim_of(policy, run_seed, clock, roll, pick) == b.mutation_victim_of(
                policy,
                run_seed,
                clock,
                roll,
                pick,
            ),
        best_score(a.direction, all_scores(a.nets@)) == best_score(
            b.direction,
            all_scores(b.nets@),
        ),
        next_clock(a.nets@) == next_clock(b.nets@),
{
    assert(race_view(a).nets == race_view(b).nets);
    views_are_parts(a.nets@, b.nets@);
    clocks_agree(a.nets@, b.nets@);
    assert(a.direction == race_view(a).direction && b.direction == race_view(b).direction);
    assert(a.elite_count == race_view(a).elite_count && b.elite_count == race_view(
        b,
    ).elite_count);
}

/// A measured net looks as its past and the measurement say.
proof fn one_change_agrees(
    a: Race,
    a2: Race,
    b: Race,
    b2: Race,
    i: int,
)
    requires
        race_view(a) == race_view(b),
        0 <= i < a.nets@.len(),
        a2.same_but_nets(a),
        b2.same_but_nets(b),
        only_changed(a2.nets@, a.nets@, i),
        only_changed(b2.nets@, b.nets@, i),
        net_view(a2.nets@[i]) == net_view(b2.nets@[i]),
    ensures
        race_view(a2) == race_view(b2),
{
    assert(race_view(a).nets == race_view(b).nets);
    views_are_parts(a.nets@, b.nets@);
    assert forall|j: int| 0 <= j < a2.nets@.len() implies net_view(#[trigger] a2.nets@[j])
        == net_view(b2.nets@[j]) by {
        if j != i {
            assert(a2.nets@[j] == a.nets@[j]);
            assert(b2.nets@[j] == b.nets@[j]);
            assert(net_view(a.nets@[j]) == net_view(b.nets@[j]));
        }
    }
    parts_are_views(a2.nets@, b2.nets@);
    race_views_agree(a, a2, b, b2);
}

/// Only the nets changed, and they still look alike.
proof fn race_views_agree(a: Race, a2: Race, b: Race, b2: Race)
    requires
        race_view(a) == race_view(b),
        a2.same_but_nets(a),
        b2.same_but_nets(b),
        nets_view(a2.nets@) == nets_view(b2.nets@),
    ensures
        race_view(a2) == race_view(b2),
{
    let v = race_view(a);
    let w = race_view(b);
    assert(v.direction == w.direction && v.elite_count == w.elite_count && v.window == w.window);
    assert(v.checkpoints == w.checkpoints && v.culls == w.culls && v.births == w.births);
    assert(v.champions == w.champions && v.last_crowned == w.last_crowned);
}

proof fn seats_agree(a: Race, a2: Race, b: Race, b2: Race, freeze: bool, i: int)
    requires
        race_view(a) == race_view(b),
        0 <= i < a.nets@.len(),
        seated(a, a2, freeze, i),
        seated(b, b2, freeze, i),
    ensures
        race_view(a2) == race_view(b2),
{
    choices_agree(a, b);
    assert(race_view(a).nets == race_view(b).nets);
    views_are_parts(a.nets@, b.nets@);
    assert(net_view(a.nets@[i]) == net_view(b.nets@[i]));
    if crate::step::takes_seat(a, freeze, i) {
        assert forall|j: int| 0 <= j < a2.nets@.len() implies net_view(#[trigger] a2.nets@[j])
            == net_view(b2.nets@[j]) by {
            assert(net_view(a.nets@[j]) == net_view(b.nets@[j]));
            assert(b2.nets@[j].crowned == crate::step::seat_after(b, i, j));
        }
        parts_are_views(a2.nets@, b2.nets@);
        race_views_agree(
            a,
            Race { last_crowned: a.last_crowned, ..a2 },
            b,
            Race { last_crowned: b.last_crowned, ..b2 },
        );
        let v = race_view(Race { last_crowned: a.last_crowned, ..a2 });
        let w = race_view(Race { last_crowned: b.last_crowned, ..b2 });
        assert(race_view(a2) =~= (RaceView {
            last_crowned: optional_view(a2.last_crowned),
            ..v
        }));
        assert(race_view(b2) =~= (RaceView {
            last_crowned: optional_view(b2.last_crowned),
            ..w
        }));
    } else if crate::step::leaves_seat(a, freeze, i) {
        one_change_agrees(a, a2, b, b2, i);
    }
}

/// The same operation on races that look alike leaves races that look alike.
proof fn operations_agree(a: Race, p: Operation, a2: Race, b: Race, q: Operation, b2: Race)
    requires
        race_view(a) == race_view(b),
        operation_view(p) == operation_view(q),
        done(a, p, a2),
        done(b, q, b2),
    ensures
        race_view(a2) == race_view(b2),
{
    choices_agree(a, b);
    let v = race_view(a);
    let w = race_view(b);
    assert(v.nets == w.nets);
    assert(v.direction == w.direction && v.elite_count == w.elite_count && v.window == w.window);
    assert(v.checkpoints == w.checkpoints && v.culls == w.culls && v.births == w.births);
    assert(v.champions == w.champions && v.last_crowned == w.last_crowned);
    views_are_parts(a.nets@, b.nets@);
    match (p, q) {
        (Operation::Begin { i, freeze }, Operation::Begin { .. }) => {
            seats_agree(a, a2, b, b2, freeze, i as int);
        },
        (
            Operation::Record { i, metrics, mean },
            Operation::Record { metrics: other, .. },
        ) => {
            assert(metrics_view(metrics) == metrics_view(other));
            assert(net_view(a.nets@[i as int]) == net_view(b.nets@[i as int]));
            assert(a.nets@[i as int].well_formed(a.window as nat));
            assert(b.nets@[i as int].well_formed(b.window as nat));
            assert(net_view(a2.nets@[i as int]) =~= net_view(b2.nets@[i as int]));
            one_change_agrees(a, a2, b, b2, i as int);
        },
        (Operation::Carry { i, .. }, Operation::Carry { .. }) => {
            assert(net_view(a.nets@[i as int]) == net_view(b.nets@[i as int]));
            assert(a.nets@[i as int].well_formed(a.window as nat));
            assert(b.nets@[i as int].well_formed(b.window as nat));
            assert(net_view(a2.nets@[i as int]) =~= net_view(b2.nets@[i as int]));
            one_change_agrees(a, a2, b, b2, i as int);
        },
        (Operation::Guard { i, .. }, Operation::Guard { .. }) => {
            assert(net_view(a.nets@[i as int]) == net_view(b.nets@[i as int]));
            one_change_agrees(a, a2, b, b2, i as int);
        },
        (Operation::Ordinal { clock }, Operation::Ordinal { .. }) => {
            assert(a.births@ == b.births@);
        },
        (
            Operation::Admit { child, policy, run_seed, clock },
            Operation::Admit { child: other, .. },
        ) => {
            let victim = a.crossover_victim_of(policy, run_seed, clock);
            assert(net_view(child) == net_view(other));
            match victim {
                Some(i) => {
                    leaving_agrees(a.nets@, b.nets@, i as int);
                    joining_agrees(
                        a.nets@.remove(i as int),
                        b.nets@.remove(i as int),
                        child,
                        other,
                    );
                },
                None => {
                    joining_agrees(a.nets@, b.nets@, child, other);
                },
            }
            assert(replaced(a.nets@, victim, child) == a2.nets@);
        },
        (Operation::Evict { policy, run_seed, clock, roll, pick }, Operation::Evict { .. }) => {
            if let Some(i) = a.mutation_victim_of(policy, run_seed, clock, roll, pick) {
                leaving_agrees(a.nets@, b.nets@, i as int);
            }
        },
        (Operation::Insert { child }, Operation::Insert { child: other }) => {
            assert(net_view(child) == net_view(other));
            joining_agrees(a.nets@, b.nets@, child, other);
        },
        (Operation::Prune, Operation::Prune) => {
            keeping_agrees(a.nets@, b.nets@, a.pruner_keeps());
        },
        (Operation::Crown, Operation::Crown) => {
            assert forall|k: int| 0 <= k < a2.champions@.len() implies (
            #[trigger] a2.champions@[k])@ == b2.champions@[k]@ by {
                let at = a.champion_ranking()[k].index as int;
                assert(net_view(a.nets@[at]) == net_view(b.nets@[at]));
            }
            assert(texts(a2.champions@) =~= texts(b2.champions@));
        },
        _ => {},
    }
}

// ── Runs ─────────────────────────────────────────────────────────────────

/// What is fixed for a whole run.
pub struct Rules {
    pub knobs: LoopKnobs,
    pub max_steps: Option<usize>,
    pub target: Option<Score>,
    pub pruner: Option<PopPruner>,
}

/// How far a run is, and what it asks for.
pub enum Stage {
    /// The loop runs.
    Racing { state: LoopState, action: Action },
    /// The race is over and its end is run; `culls` were counted when it began.
    Ending { state: EndState, action: EndAction, culls: usize },
}

/// What a run hears back. The clock, the culls and the stop criteria are read
/// off the race itself.
pub enum Heard {
    /// Nothing yet: more is done to the race first.
    Silence,
    Begin,
    Done,
    Failed,
    Drawn { number: Score },
    Tried { survived: bool },
    Culls,
    /// The verdict of the caller's own stop policy.
    Stop { custom: bool },
}

/// The event behind what was heard.
pub open spec fn event_of(
    rules: Rules,
    state: LoopState,
    race: Race,
    interrupted: bool,
    heard: Heard,
) -> Option<Event> {
    match heard {
        Heard::Silence => None,
        Heard::Begin => Some(
            Event::Begin { clock: next_clock(race.nets@) as usize, culls: race.culls },
        ),
        Heard::Done => Some(Event::Done),
        Heard::Failed => Some(Event::Failed),
        Heard::Drawn { number } => Some(Event::Drawn(number)),
        Heard::Tried { survived } => Some(Event::Tried { survived }),
        Heard::Culls => Some(Event::Culls(race.culls)),
        Heard::Stop { custom } => Some(
            Event::Stop(
                stop_reason(
                    rules.max_steps,
                    rules.target,
                    race.direction,
                    best_score(race.direction, all_scores(race.nets@)),
                    state.clock,
                    interrupted,
                    custom,
                ),
            ),
        ),
    }
}

/// Where a run goes, given what was heard: the loop as `advance` decides, the
/// end as `EndState::advance` decides.
pub open spec fn stage_after(
    rules: Rules,
    stage: Stage,
    race: Race,
    interrupted: bool,
    heard: Heard,
) -> Stage {
    let live = race.nets@.len() as usize;
    match stage {
        Stage::Racing { state, action } => match (action, event_of(
            rules,
            state,
            race,
            interrupted,
            heard,
        )) {
            (_, None) => stage,
            (Action::Finish { reason, clock }, Some(_)) => {
                let begun = EndState {
                    phase: EndPhase::Begin,
                    reason,
                    clock,
                    pruner: rules.pruner,
                    group: 0,
                };
                let (state, action) = end_next(begun, live, 0);
                Stage::Ending { state, action, culls: race.culls }
            },
            (_, Some(event)) => {
                let (state, action) = next(rules.knobs, state, live, interrupted, event);
                Stage::Racing { state, action }
            },
        },
        Stage::Ending { state, action, culls } => match heard {
            Heard::Silence => stage,
            _ => {
                let (state, action) = end_next(state, live, (race.culls - culls) as usize);
                Stage::Ending { state, action, culls }
            },
        },
    }
}

/// A run at one moment.
pub struct Moment {
    pub race: Race,
    pub stage: Stage,
}

#[verifier::ext_equal]
pub struct MomentView {
    pub race: RaceView,
    pub stage: Stage,
}

pub open spec fn moment_view(m: Moment) -> MomentView {
    MomentView { race: race_view(m.race), stage: m.stage }
}

pub open spec fn moments_view(ms: Seq<Moment>) -> Seq<MomentView> {
    ms.map_values(|m: Moment| moment_view(m))
}

/// What happens between two moments.
pub struct Turn {
    pub op: Operation,
    pub interrupted: bool,
    pub heard: Heard,
}

pub struct TurnView {
    pub op: OperationView,
    pub interrupted: bool,
    pub heard: Heard,
}

pub open spec fn turn_view(t: Turn) -> TurnView {
    TurnView { op: operation_view(t.op), interrupted: t.interrupted, heard: t.heard }
}

/// The moments of a run in a world. The world is the trainer, the data, the
/// generators and the user: what it answers is fixed by the run so far. Every
/// operation meets its contract, and the run moves on as it decides.
pub open spec fn is_run(
    rules: Rules,
    moments: Seq<Moment>,
    turns: Seq<Turn>,
    world: spec_fn(Seq<MomentView>) -> TurnView,
) -> bool {
    &&& moments.len() == turns.len() + 1
    &&& forall|t: int|
        0 <= t < turns.len() ==> turned(
            rules,
            moments[t],
            #[trigger] turns[t],
            moments[t + 1],
            world(moments_view(moments.take(t + 1))),
        )
}

/// One turn of a run.
pub open spec fn turned(
    rules: Rules,
    before: Moment,
    turn: Turn,
    after: Moment,
    answer: TurnView,
) -> bool {
    &&& turn_view(turn) == answer
    &&& done(before.race, turn.op, after.race)
    &&& after.stage == stage_after(
        rules,
        before.stage,
        after.race,
        turn.interrupted,
        turn.heard,
    )
}

proof fn stages_agree(rules: Rules, stage: Stage, a: Race, b: Race, interrupted: bool, heard: Heard)
    requires
        race_view(a) == race_view(b),
    ensures
        stage_after(rules, stage, a, interrupted, heard) == stage_after(
            rules,
            stage,
            b,
            interrupted,
            heard,
        ),
{
    choices_agree(a, b);
    assert(a.culls == race_view(a).culls && b.culls == race_view(b).culls);
    assert(a.direction == race_view(a).direction && b.direction == race_view(b).direction);
}

/// Runs under equal rules, from starts that look alike, in the same world, look
/// alike at every moment: the same nets live with the same trainings, windows
/// and last measurements, the same culls and checkpoints are counted, and each
/// asks for the same next, so that both stop at the same moment for the same
/// reason.
pub proof fn equal_starts_give_equal_runs(
    rules: Rules,
    a: Seq<Moment>,
    p: Seq<Turn>,
    b: Seq<Moment>,
    q: Seq<Turn>,
    world: spec_fn(Seq<MomentView>) -> TurnView,
    t: int,
)
    requires
        is_run(rules, a, p, world),
        is_run(rules, b, q, world),
        moment_view(a[0]) == moment_view(b[0]),
        0 <= t < a.len(),
        t < b.len(),
    ensures
        moments_view(a.take(t + 1)) == moments_view(b.take(t + 1)),
        race_view(a[t].race) == race_view(b[t].race),
        a[t].stage == b[t].stage,
    decreases t,
{
    if t > 0 {
        equal_starts_give_equal_runs(rules, a, p, b, q, world, t - 1);
        let x = p[t - 1];
        let y = q[t - 1];
        assert(turned(rules, a[t - 1], x, a[t], world(moments_view(a.take(t)))));
        assert(turned(rules, b[t - 1], y, b[t], world(moments_view(b.take(t)))));
        assert(turn_view(x) == turn_view(y));
        assert(turn_view(x).op == operation_view(x.op) && turn_view(y).op == operation_view(y.op));
        assert(x.heard == turn_view(x).heard && y.heard == turn_view(y).heard);
        assert(x.interrupted == turn_view(x).interrupted && y.interrupted == turn_view(
            y,
        ).interrupted);
        operations_agree(a[t - 1].race, x.op, a[t].race, b[t - 1].race, y.op, b[t].race);
        stages_agree(rules, a[t - 1].stage, a[t].race, b[t].race, x.interrupted, x.heard);
        let u = moments_view(a.take(t + 1));
        let v = moments_view(b.take(t + 1));
        assert(u =~= moments_view(a.take(t)).push(moment_view(a[t])));
        assert(v =~= moments_view(b.take(t)).push(moment_view(b[t])));
    } else {
        assert(a[0].stage == moment_view(a[0]).stage && b[0].stage == moment_view(b[0]).stage);
        assert(race_view(a[0].race) == moment_view(a[0]).race);
        assert(race_view(b[0].race) == moment_view(b[0]).race);
        assert(moments_view(a.take(1)) =~= seq![moment_view(a[0])]);
        assert(moments_view(b.take(1)) =~= seq![moment_view(b[0])]);
    }
}

/// What a run comes to is the same: runs in the same world stop for the same
/// reason, with the same live hashes, culls and ledger.
pub proof fn equal_runs_stop_alike(
    rules: Rules,
    a: Seq<Moment>,
    p: Seq<Turn>,
    b: Seq<Moment>,
    q: Seq<Turn>,
    world: spec_fn(Seq<MomentView>) -> TurnView,
    t: int,
    reason: StopReason,
)
    requires
        is_run(rules, a, p, world),
        is_run(rules, b, q, world),
        moment_view(a[0]) == moment_view(b[0]),
        0 <= t < a.len(),
        t < b.len(),
        a[t].stage matches Stage::Ending { action, .. } && action == (EndAction::Stop { reason }),
    ensures
        b[t].stage matches Stage::Ending { action, .. } && action == (EndAction::Stop { reason }),
        crate::race::hash_column(a[t].race.nets@) == crate::race::hash_column(b[t].race.nets@),
        a[t].race.culls == b[t].race.culls,
        a[t].race.checkpoints@ == b[t].race.checkpoints@,
        forall|i: int|
            0 <= i < a[t].race.nets@.len() ==> {
                let x = #[trigger] a[t].race.nets@[i];
                let y = b[t].race.nets@[i];
                x.trainings == y.trainings && last_view(x.last_metrics) == last_view(y.last_metrics)
            },
{
    equal_starts_give_equal_runs(rules, a, p, b, q, world, t);
    let v = race_view(a[t].race);
    let w = race_view(b[t].race);
    assert(v.nets == w.nets && v.culls == w.culls && v.checkpoints == w.checkpoints);
    views_are_parts(a[t].race.nets@, b[t].race.nets@);
    assert forall|i: int| 0 <= i < a[t].race.nets@.len() implies {
        let x = #[trigger] a[t].race.nets@[i];
        let y = b[t].race.nets@[i];
        &&& x.hash@ == y.hash@
        &&& x.trainings == y.trainings
        &&& last_view(x.last_metrics) == last_view(y.last_metrics)
    } by {
        assert(net_view(a[t].race.nets@[i]) == net_view(b[t].race.nets@[i]));
    }
    assert(crate::race::hash_column(a[t].race.nets@) =~= crate::race::hash_column(
        b[t].race.nets@,
    ));
}

// ── A net that was taken up again ────────────────────────────────────────

/// How far a net has come: what it was trained for and how it fares.
#[verifier::ext_equal]
pub struct Progress {
    pub hash: Seq<char>,
    pub net_seed: usize,
    pub trainings: int,
    pub last_metrics: Option<NetMetrics>,
    pub fitness: Seq<Score>,
    pub smoothed: Option<Score>,
}

pub open spec fn progress(n: Net) -> Progress {
    Progress {
        hash: n.hash@,
        net_seed: n.net_seed,
        trainings: n.trainings as int,
        last_metrics: n.last_metrics,
        fitness: n.fitness_window@,
        smoothed: n.smoothed,
    }
}

/// A trainer whose measurement of a net is fixed by the clocks the net has
/// trained at and the clock of the step.
pub struct Trainer {
    pub measures: spec_fn(Seq<usize>, usize) -> NetMetrics,
    pub mean: spec_fn(Seq<Score>) -> Score,
}

/// A net after one more step: trained with the others, or caught up with.
pub open spec fn moved_on(after: Net, before: Net, m: NetMetrics, t: Trainer, window: usize) -> bool {
    let mean = (t.mean)(last_window(before.fitness_window@.push(m.fitness), window as nat));
    &&& before.well_formed(window as nat)
    &&& after.trained(before, m, mean, window) || after.caught_up(before, m, mean)
}

/// A net that had trained at the clocks `done` goes through the steps at
/// `clocks`.
pub open spec fn went_on(
    nets: Seq<Net>,
    done: Seq<usize>,
    clocks: Seq<usize>,
    t: Trainer,
    window: usize,
) -> bool {
    &&& nets.len() == clocks.len() + 1
    &&& forall|i: int|
        0 <= i < clocks.len() ==> moved_on(
            nets[i + 1],
            nets[i],
            (t.measures)(done + clocks.take(i), #[trigger] clocks[i]),
            t,
            window,
        )
}

/// How far a net comes by one more step.
pub open spec fn progress_after(p: Progress, m: NetMetrics, t: Trainer, window: usize) -> Progress {
    let fitness = last_window(p.fitness.push(m.fitness), window as nat);
    Progress {
        trainings: p.trainings + 1,
        last_metrics: Some(m),
        fitness,
        smoothed: if window > 0 {
            Some((t.mean)(fitness))
        } else {
            None
        },
        ..p
    }
}

proof fn steps_make_progress(after: Net, before: Net, m: NetMetrics, t: Trainer, window: usize)
    requires
        moved_on(after, before, m, t, window),
    ensures
        progress(after) == progress_after(progress(before), m, t, window),
{
    assert(progress(after) =~= progress_after(progress(before), m, t, window));
}

/// What a net does in a step of a run.
pub enum Stint {
    /// It trains at this clock.
    Train { clock: usize },
    /// It is frozen, and its last measurement counts once more.
    Rest,
}

/// The clocks that a net trained at.
pub open spec fn trained_at(stints: Seq<Stint>) -> Seq<usize>
    decreases stints.len(),
{
    if stints.len() == 0 {
        Seq::empty()
    } else {
        match stints.last() {
            Stint::Train { clock } => trained_at(stints.drop_last()).push(clock),
            Stint::Rest => trained_at(stints.drop_last()),
        }
    }
}

/// A net after a step in which it was frozen: what `carry_step` makes of its
/// last measurement.
pub open spec fn rested(after: Net, before: Net, t: Trainer, window: usize) -> bool {
    &&& before.well_formed(window as nat)
    &&& before.last_metrics matches Some(m) && after.carried(
        before,
        m.fitness,
        m.eval_loss,
        (t.mean)(last_window(before.fitness_window@.push(m.fitness), window as nat)),
    )
}

/// A net that had trained at the clocks `done` lives through some steps of a
/// run.
pub open spec fn lived(
    nets: Seq<Net>,
    done: Seq<usize>,
    stints: Seq<Stint>,
    t: Trainer,
    window: usize,
) -> bool {
    &&& nets.len() == stints.len() + 1
    &&& forall|i: int|
        0 <= i < stints.len() ==> match #[trigger] stints[i] {
            Stint::Train { clock } => moved_on(
                nets[i + 1],
                nets[i],
                (t.measures)(done + trained_at(stints.take(i)), clock),
                t,
                window,
            ),
            Stint::Rest => rested(nets[i + 1], nets[i], t, window),
        }
}

/// Two nets are the same individual, trained as often and last measured alike.
pub open spec fn as_trained(a: Net, b: Net) -> bool {
    &&& a.hash@ == b.hash@
    &&& a.net_seed == b.net_seed
    &&& a.trainings == b.trainings
    &&& a.last_metrics == b.last_metrics
}

/// A net was never frozen in these steps.
pub open spec fn never_rests(stints: Seq<Stint>) -> bool {
    forall|i: int| 0 <= i < stints.len() ==> (#[trigger] stints[i]) is Train
}

proof fn trainings_add_up(stints: Seq<Stint>, k: int, i: int)
    requires
        0 <= k,
        0 <= i,
        k + i <= stints.len(),
    ensures
        trained_at(stints.take(k + i)) == trained_at(stints.take(k)) + trained_at(
            stints.skip(k).take(i),
        ),
    decreases i,
{
    let whole = stints.take(k + i);
    let tail = stints.skip(k).take(i);
    if i == 0 {
        assert(tail =~= Seq::empty());
        assert(trained_at(whole) =~= trained_at(stints.take(k)) + trained_at(tail));
    } else {
        trainings_add_up(stints, k, i - 1);
        assert(whole.drop_last() =~= stints.take(k + i - 1));
        assert(tail.drop_last() =~= stints.skip(k).take(i - 1));
        assert(whole.last() == tail.last());
        assert(trained_at(whole) =~= trained_at(stints.take(k)) + trained_at(tail));
    }
}

proof fn resting_agrees(a2: Net, a: Net, b2: Net, b: Net, t: Trainer, window: usize)
    requires
        rested(a2, a, t, window),
        rested(b2, b, t, window),
        as_trained(a, b),
    ensures
        as_trained(a2, b2),
        progress(a) == progress(b) ==> progress(a2) == progress(b2),
{
    if progress(a) == progress(b) {
        assert(a.fitness_window@ == progress(a).fitness);
        assert(b.fitness_window@ == progress(b).fitness);
        assert(progress(a2) =~= progress(b2));
    }
}

proof fn training_agrees(
    a2: Net,
    a: Net,
    b2: Net,
    b: Net,
    m: NetMetrics,
    t: Trainer,
    window: usize,
)
    requires
        moved_on(a2, a, m, t, window),
        moved_on(b2, b, m, t, window),
        as_trained(a, b),
    ensures
        as_trained(a2, b2),
        progress(a) == progress(b) ==> progress(a2) == progress(b2),
{
    steps_make_progress(a2, a, m, t, window);
    steps_make_progress(b2, b, m, t, window);
}

proof fn the_replay_keeps_up(
    whole: Seq<Net>,
    replay: Seq<Net>,
    stints: Seq<Stint>,
    t: Trainer,
    window: usize,
    j: int,
)
    requires
        lived(whole, Seq::empty(), stints, t, window),
        went_on(replay, Seq::empty(), trained_at(stints), t, window),
        progress(replay[0]) == progress(whole[0]),
        0 <= j <= stints.len(),
    ensures
        trained_at(stints.take(j)).len() <= trained_at(stints).len(),
        trained_at(stints.take(j)) == trained_at(stints).take(
            trained_at(stints.take(j)).len() as int,
        ),
        as_trained(whole[j], replay[trained_at(stints.take(j)).len() as int]),
        never_rests(stints.take(j)) ==> progress(whole[j]) == progress(
            replay[trained_at(stints.take(j)).len() as int],
        ),
    decreases j,
{
    let all = trained_at(stints);
    let now = trained_at(stints.take(j));
    trainings_add_up(stints, j, stints.len() - j);
    assert(stints.take(stints.len() as int) =~= stints);
    assert(all.take(now.len() as int) =~= now);
    if j == 0 {
        assert(stints.take(0) =~= Seq::empty());
        assert(progress(whole[0]).hash == whole[0].hash@);
        assert(progress(replay[0]).hash == replay[0].hash@);
    } else {
        the_replay_keeps_up(whole, replay, stints, t, window, j - 1);
        let before = trained_at(stints.take(j - 1));
        let n = before.len() as int;
        assert(stints.take(j).drop_last() =~= stints.take(j - 1));
        assert(stints.take(j).last() == stints[j - 1]);
        if never_rests(stints.take(j)) {
            assert forall|i: int| 0 <= i < j - 1 implies (#[trigger] stints.take(j - 1)[i])
                is Train by {
                assert(stints.take(j)[i] is Train);
            }
            assert(stints.take(j)[j - 1] is Train);
        }
        match stints[j - 1] {
            Stint::Train { clock } => {
                let m = (t.measures)(Seq::<usize>::empty() + before, clock);
                assert(now[n] == clock && all[n] == now[n]);
                assert(all.take(n) =~= before);
                assert(moved_on(
                    replay[n + 1],
                    replay[n],
                    (t.measures)(Seq::<usize>::empty() + all.take(n), all[n]),
                    t,
                    window,
                ));
                training_agrees(whole[j], whole[j - 1], replay[n + 1], replay[n], m, t, window);
            },
            Stint::Rest => {
                assert(as_trained(whole[j], whole[j - 1]));
            },
        }
    }
}

/// The last `d` values of two windows are the same.
pub open spec fn tails_agree(x: Seq<Score>, y: Seq<Score>, d: int) -> bool {
    &&& 0 <= d <= x.len()
    &&& d <= y.len()
    &&& forall|i: int|
        0 < i <= d ==> #[trigger] x[x.len() - i] == y[y.len() - i]
}

proof fn tails_grow(x: Seq<Score>, y: Seq<Score>, d: int, v: Score, window: nat)
    requires
        tails_agree(x, y, d),
        x.len() <= window,
        y.len() <= window,
    ensures
        tails_agree(
            last_window(x.push(v), window),
            last_window(y.push(v), window),
            if d < window {
                d + 1
            } else {
                d
            },
        ),
{
    let p = last_window(x.push(v), window);
    let q = last_window(y.push(v), window);
    let e = if d < window {
        d + 1
    } else {
        d
    };
    assert forall|i: int| 0 < i <= e implies #[trigger] p[p.len() - i] == q[q.len() - i] by {
        assert(p[p.len() - i] == x.push(v)[x.len() + 1 - i]);
        assert(q[q.len() - i] == y.push(v)[y.len() + 1 - i]);
        if i > 1 {
            assert(x[x.len() - (i - 1)] == y[y.len() - (i - 1)]);
        }
    }
}

/// What the fitness window and the smoothed fitness become with one more value.
pub open spec fn valued(after: Net, before: Net, v: Score, t: Trainer, window: usize) -> bool {
    &&& after.fitness_window@ == last_window(before.fitness_window@.push(v), window as nat)
    &&& after.smoothed == (if window > 0 {
        Some((t.mean)(after.fitness_window@))
    } else {
        None
    })
    &&& before.fitness_window@.len() <= window
}

proof fn windows_keep_up(
    whole: Seq<Net>,
    rest: Seq<Net>,
    stints: Seq<Stint>,
    k: int,
    t: Trainer,
    window: usize,
    n: int,
)
    requires
        0 <= k <= n <= stints.len(),
        lived(whole, Seq::empty(), stints, t, window),
        lived(rest, trained_at(stints.take(k)), stints.skip(k), t, window),
        as_trained(whole[k], rest[0]),
    ensures
        tails_agree(
            whole[n].fitness_window@,
            rest[n - k].fitness_window@,
            if n - k < window {
                n - k
            } else {
                window as int
            },
        ),
        k < n && window <= n - k ==> progress(whole[n]) == progress(rest[n - k]),
    decreases n,
{
    if k < n {
        windows_keep_up(whole, rest, stints, k, t, window, n - 1);
        the_rest_keeps_up(whole, rest, stints, k, t, window, n - 1);
        the_rest_keeps_up(whole, rest, stints, k, t, window, n);
        let i = n - 1 - k;
        trainings_add_up(stints, k, i);
        let done = trained_at(stints.take(n - 1));
        assert(stints.skip(k)[i] == stints[n - 1]);
        let v = match stints[n - 1] {
            Stint::Train { clock } => (t.measures)(done, clock).fitness,
            Stint::Rest => whole[n - 1].last_metrics->0.fitness,
        };
        assert(Seq::<usize>::empty() + done =~= done);
        assert(valued(whole[n], whole[n - 1], v, t, window));
        assert(valued(rest[n - k], rest[i], v, t, window));
        let x = whole[n - 1].fitness_window@;
        let y = rest[i].fitness_window@;
        tails_grow(
            x,
            y,
            if i < window {
                i
            } else {
                window as int
            },
            v,
            window as nat,
        );
        if window <= n - k {
            let p = whole[n].fitness_window@;
            let q = rest[n - k].fitness_window@;
            assert(p.len() == window && q.len() == window);
            assert forall|j: int| 0 <= j < p.len() implies p[j] == q[j] by {
                assert(p[p.len() - (p.len() - j)] == q[q.len() - (q.len() - j)]);
            }
            assert(p =~= q);
            assert(progress(whole[n]) =~= progress(rest[n - k]));
        }
    }
}

proof fn the_rest_keeps_up(
    whole: Seq<Net>,
    rest: Seq<Net>,
    stints: Seq<Stint>,
    k: int,
    t: Trainer,
    window: usize,
    n: int,
)
    requires
        0 <= k <= n <= stints.len(),
        lived(whole, Seq::empty(), stints, t, window),
        lived(rest, trained_at(stints.take(k)), stints.skip(k), t, window),
        as_trained(whole[k], rest[0]),
    ensures
        as_trained(whole[n], rest[n - k]),
        progress(whole[k]) == progress(rest[0]) ==> progress(whole[n]) == progress(rest[n - k]),
    decreases n,
{
    if k < n {
        the_rest_keeps_up(whole, rest, stints, k, t, window, n - 1);
        let i = n - 1 - k;
        trainings_add_up(stints, k, i);
        let done = trained_at(stints.take(n - 1));
        assert(stints.skip(k)[i] == stints[n - 1]);
        match stints[n - 1] {
            Stint::Train { clock } => {
                assert(Seq::<usize>::empty() + done =~= done);
                training_agrees(
                    whole[n],
                    whole[n - 1],
                    rest[n - k],
                    rest[i],
                    (t.measures)(done, clock),
                    t,
                    window,
                );
            },
            Stint::Rest => {
                resting_agrees(whole[n], whole[n - 1], rest[n - k], rest[i], t, window);
            },
        }
    }
}

/// A net that is stopped after its first `k` steps, replayed through the clocks
/// it had trained at, given back its loss windows and stepped on has come as far
/// as the net that never stopped, right after it was taken up again and after
/// every step that follows: it has as many trainings and the same last
/// measurement, also where it was frozen and carried in between. It has the same
/// fitness window and smoothed fitness, too, if it was not frozen before the
/// stop, and in any case after as many steps as the window holds.
pub proof fn a_resumed_net_goes_on(
    whole: Seq<Net>,
    replay: Seq<Net>,
    restored: Net,
    rest: Seq<Net>,
    stints: Seq<Stint>,
    k: int,
    n: int,
    t: Trainer,
    window: usize,
)
    requires
        0 <= k <= n <= stints.len(),
        lived(whole, Seq::empty(), stints, t, window),
        went_on(replay, Seq::empty(), trained_at(stints.take(k)), t, window),
        progress(replay[0]) == progress(whole[0]),
        warmed(replay.last(), restored, window),
        lived(rest, trained_at(stints.take(k)), stints.skip(k), t, window),
        rest[0] == restored,
    ensures
        as_trained(restored, whole[k]),
        as_trained(rest[n - k], whole[n]),
        never_rests(stints.take(k)) ==> {
            &&& progress(restored) == progress(whole[k])
            &&& progress(rest[n - k]) == progress(whole[n])
        },
        k < n && window <= n - k ==> progress(rest[n - k]) == progress(whole[n]),
{
    let first = stints.take(k);
    let begun = whole.take(k + 1);
    assert(lived(begun, Seq::empty(), first, t, window)) by {
        assert forall|i: int| 0 <= i < first.len() implies match #[trigger] first[i] {
            Stint::Train { clock } => moved_on(
                begun[i + 1],
                begun[i],
                (t.measures)(Seq::<usize>::empty() + trained_at(first.take(i)), clock),
                t,
                window,
            ),
            Stint::Rest => rested(begun[i + 1], begun[i], t, window),
        } by {
            assert(first[i] == stints[i]);
            assert(first.take(i) =~= stints.take(i));
        }
    }
    the_replay_keeps_up(begun, replay, first, t, window, k);
    assert(first.take(k) =~= first);
    assert(progress(restored) =~= progress(replay.last()));
    the_rest_keeps_up(whole, rest, stints, k, t, window, n);
    windows_keep_up(whole, rest, stints, k, t, window, n);
}

/// The clocks from `from` up to `to`.
pub open spec fn clocks_between(from: int, to: int) -> Seq<usize> {
    Seq::new(
        if from < to {
            (to - from) as nat
        } else {
            0
        },
        |i: int| (from + i) as usize,
    )
}

/// The clocks that ranges run through, one after the other.
pub open spec fn clocks_of(ranges: Seq<(usize, usize)>) -> Seq<usize>
    decreases ranges.len(),
{
    if ranges.len() == 0 {
        Seq::empty()
    } else {
        clocks_of(ranges.drop_last()) + clocks_between(
            ranges.last().0 as int,
            ranges.last().1 as int,
        )
    }
}

/// A replay runs through the clocks a net has trained at: all of them for a
/// founder that has trained at every clock up to `end`; for a net that joined at
/// clock `entered`, those it caught up with before and those after it joined.
pub proof fn a_replay_runs_through_the_training(entered: usize, end: usize)
    requires
        end < usize::MAX,
    ensures
        clocks_of(replay_ranges((end + 1) as usize, 0, Some(end))) == clocks_between(0, end + 1),
        0 < entered < end ==> clocks_of(replay_ranges(end, entered, Some(end))) == clocks_between(
            0,
            entered as int,
        ) + clocks_between(entered + 1, end + 1),
{
    let whole = replay_ranges((end + 1) as usize, 0, Some(end));
    assert(whole =~= seq![(0usize, (end + 1) as usize)]);
    assert(whole.drop_last() =~= Seq::empty());
    assert(clocks_of(whole.drop_last()) =~= Seq::empty());
    assert(clocks_of(whole) =~= clocks_between(0, end + 1));
    if 0 < entered < end {
        let parts = replay_ranges(end, entered, Some(end));
        assert(parts =~= seq![(0usize, entered), ((entered + 1) as usize, (end + 1) as usize)]);
        let first = parts.drop_last();
        assert(first =~= seq![(0usize, entered)]);
        assert(first.drop_last() =~= Seq::empty());
        assert(clocks_of(first.drop_last()) =~= Seq::empty());
        assert(clocks_of(first) =~= clocks_between(0, entered as int));
    }
}

} // verus!
