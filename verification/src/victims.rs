//! Who leaves a race and when it stops: what the choices come to, whatever the
//! population looks like.

use vstd::prelude::*;

use crate::config::{CrossCullPolicy, MutationCullPolicy, StopReason};
use crate::race::{
    all_scores, best_index, best_is_best, best_score, demoted_column, positions_outside,
    score_column, stop_reason, worst_score, Race,
};
use crate::ranking::{
    all_pass, candidates, candidates_are_complete, candidates_are_sound, comparable, outside_mask,
    positions, ranking, ranking_is_sorted, ranking_is_stable, ranking_members,
    the_best_is_left_out, the_worst_list_is_whole, worst_are_unprotected, worst_first, Ranked,
};
use crate::score::{Direction, Score};
use crate::seeds::{derived_seed, u64_draw};

verus! {

// ── The stop ─────────────────────────────────────────────────────────────

/// The stop criteria in their order: an interrupt, the step budget, the target,
/// the caller's own policy. Each fires exactly if it is met and none before it
/// is, whatever else is configured; the race goes on exactly if none is met.
pub proof fn stop_criteria_have_their_order(
    max_steps: Option<usize>,
    target: Option<Score>,
    direction: Direction,
    best: Score,
    step: usize,
    interrupted: bool,
    custom: bool,
)
    ensures
        ({
            let r = stop_reason(max_steps, target, direction, best, step, interrupted, custom);
            let spent = match max_steps {
                Some(max) => step >= max,
                None => false,
            };
            let met = match target {
                Some(t) => !best.nan() && !t.nan() && (match direction {
                    Direction::Minimize => best.key() <= t.key(),
                    Direction::Maximize => best.key() >= t.key(),
                }),
                None => false,
            };
            &&& r == Some(StopReason::Interrupted) <==> interrupted
            &&& r == Some(StopReason::MaxSteps) <==> !interrupted && spent
            &&& r == Some(StopReason::TargetScore) <==> !interrupted && !spent && met
            &&& r == Some(StopReason::CustomStop) <==> !interrupted && !spent && !met && custom
            &&& r is None <==> !interrupted && !spent && !met && !custom
        }),
{
}

/// If the caller's policy says stop, the race stops, whatever is configured.
pub proof fn the_own_policy_always_stops(
    max_steps: Option<usize>,
    target: Option<Score>,
    direction: Direction,
    best: Score,
    step: usize,
    interrupted: bool,
)
    ensures
        stop_reason(max_steps, target, direction, best, step, interrupted, true) is Some,
        stop_reason(None, None, direction, best, step, false, true) == Some(
            StopReason::CustomStop,
        ),
        stop_reason(max_steps, target, direction, best, step, interrupted, false) is Some
            ==> stop_reason(max_steps, target, direction, best, step, interrupted, true)
            == stop_reason(max_steps, target, direction, best, step, interrupted, false),
{
}

/// A race that stops at a step has no budget left at any later one, and a race
/// without criteria runs until it is interrupted.
pub proof fn the_budget_stays_spent(
    max_steps: Option<usize>,
    target: Option<Score>,
    direction: Direction,
    best: Score,
    step: usize,
    later: usize,
    custom: bool,
)
    requires
        step <= later,
        stop_reason(max_steps, target, direction, best, step, false, custom) == Some(
            StopReason::MaxSteps,
        ),
    ensures
        stop_reason(max_steps, target, direction, best, later, false, custom) == Some(
            StopReason::MaxSteps,
        ),
        stop_reason(None, None, direction, best, later, false, false) is None,
{
}

/// The best and the worst score of a population: nobody is better than the one
/// and nobody is worse than the other, and somebody has each.
pub proof fn best_and_worst_bound_everyone(direction: Direction, scores: Seq<Score>, i: int)
    requires
        0 <= i < scores.len(),
        forall|j: int| 0 <= j < scores.len() ==> !(#[trigger] scores[j]).nan(),
    ensures
        scores.contains(best_score(direction, scores)),
        scores.contains(worst_score(direction, scores)),
        !direction.better(scores[i], best_score(direction, scores)),
        !direction.better(worst_score(direction, scores), scores[i]),
{
    best_is_best(direction, scores, i);
    best_is_best(direction.flipped(), scores, i);
    assert(scores[best_index(direction, scores)] == best_score(direction, scores));
    assert(scores[best_index(direction.flipped(), scores)] == worst_score(direction, scores));
}

/// The target stops a race exactly if some live net has reached it.
pub proof fn the_target_is_reached_by_a_net(
    race: Race,
    target: Score,
    step: usize,
    custom: bool,
)
    requires
        race.nets@.len() > 0,
        !target.nan(),
        forall|i: int| 0 <= i < race.nets@.len() ==> !(#[trigger] race.nets@[i]).score_or_zero().nan(),
    ensures
        stop_reason(
            None,
            Some(target),
            race.direction,
            best_score(race.direction, all_scores(race.nets@)),
            step,
            false,
            custom,
        ) == Some(StopReason::TargetScore) <==> exists|i: int|
            0 <= i < race.nets@.len() && !race.direction.better(
                target,
                (#[trigger] race.nets@[i]).score_or_zero(),
            ),
{
    let all = all_scores(race.nets@);
    assert forall|j: int| 0 <= j < all.len() implies !(#[trigger] all[j]).nan() by {
        assert(!race.nets@[j].score_or_zero().nan());
    }
    best_is_best(race.direction, all, 0);
    let b = best_index(race.direction, all);
    assert(all[b] == race.nets@[b].score_or_zero());
    assert(!all[b].nan());
    if exists|i: int|
        0 <= i < race.nets@.len() && !race.direction.better(
            target,
            (#[trigger] race.nets@[i]).score_or_zero(),
        ) {
        let i = choose|i: int|
            0 <= i < race.nets@.len() && !race.direction.better(
                target,
                (#[trigger] race.nets@[i]).score_or_zero(),
            );
        best_is_best(race.direction, all, i);
        assert(all[i] == race.nets@[i].score_or_zero());
        assert(!all[i].nan());
    }
}

// ── Positions outside ────────────────────────────────────────────────────

/// How many positions below `n` are not chosen.
pub open spec fn outside_below(chosen: Seq<usize>, n: int) -> int
    decreases n,
{
    if n <= 0 {
        0
    } else {
        outside_below(chosen, n - 1) + (if chosen.contains((n - 1) as usize) {
            0int
        } else {
            1int
        })
    }
}

/// Each position that is not chosen is listed at the place that counts those
/// before it, and nothing else is listed.
pub proof fn outside_positions_are_numbered(n: nat, chosen: Seq<usize>, i: int)
    requires
        n <= usize::MAX,
    ensures
        positions_outside(n, chosen).len() == outside_below(chosen, n as int),
        0 <= i < n && !chosen.contains(i as usize) ==> 0 <= outside_below(chosen, i)
            < positions_outside(n, chosen).len() && positions_outside(n, chosen)[outside_below(
            chosen,
            i,
        )] == i as usize,
        forall|k: int|
            0 <= k < positions_outside(n, chosen).len() ==> {
                let p = #[trigger] positions_outside(n, chosen)[k];
                p < n && !chosen.contains(p) && outside_below(chosen, p as int) == k
            },
        0 <= outside_below(chosen, n as int) <= n,
    decreases n,
{
    if n > 0 {
        outside_positions_are_numbered((n - 1) as nat, chosen, i);
    }
}

/// Who leaves by a draw from this seed: as many unprotected nets stand before it
/// as the generator draws, out of the number of unprotected nets.
pub open spec fn is_drawn(race: Race, seed: u64, i: usize) -> bool {
    let open = outside_below(race.elite_set(), race.nets@.len() as int);
    &&& race.unprotected(i)
    &&& outside_below(race.elite_set(), i as int) == u64_draw(
        seed,
        0,
        (open - 1) as u64,
    ).0 as usize
}

/// The number drawn from a seed is that of an unprotected net.
pub open spec fn can_be_drawn(race: Race, seed: u64) -> bool {
    let open = outside_below(race.elite_set(), race.nets@.len() as int);
    u64_draw(seed, 0, (open - 1) as u64).0 < open
}

/// The seed of a random victim: the run seed moved on by 7919 ordinals per clock
/// and one per roll of the clock.
pub open spec fn draw_seed(run_seed: u64, clock: usize, salt: usize) -> u64 {
    derived_seed(run_seed, clock.wrapping_mul(7919).wrapping_add(salt))
}

/// The random victim is the unprotected net whose number the generator draws,
/// for crossover children and for immigrants alike.
pub proof fn the_random_victim_is_drawn(
    race: Race,
    run_seed: u64,
    clock: usize,
    roll: usize,
    pick: usize,
)
    requires
        0 < race.nets@.len() <= usize::MAX,
        roll < usize::MAX,
    ensures
        can_be_drawn(race, draw_seed(run_seed, clock, 0)) ==> (race.crossover_victim_of(
            CrossCullPolicy::Random,
            run_seed,
            clock,
        ) matches Some(i) && is_drawn(race, draw_seed(run_seed, clock, 0), i)),
        can_be_drawn(race, draw_seed(run_seed, clock, (roll + 1) as usize)) ==> (
        race.mutation_victim_of(MutationCullPolicy::Random, run_seed, clock, roll, pick) matches Some(
            i,
        ) && is_drawn(race, draw_seed(run_seed, clock, (roll + 1) as usize), i)),
{
    crate::ranking::some_net_stays_cullable(
        race.direction,
        race.elite_count as nat,
        score_column(race.nets@),
        demoted_column(race.nets@),
    );
    crate::race::some_position_is_outside(race.nets@.len(), race.elite_set());
    outside_positions_are_numbered(race.nets@.len(), race.elite_set(), 0);
    let open = positions_outside(race.nets@.len(), race.elite_set());
    let a = u64_draw(draw_seed(run_seed, clock, 0), 0, (open.len() - 1) as u64).0;
    let b = u64_draw(draw_seed(run_seed, clock, (roll + 1) as usize), 0, (open.len() - 1) as u64).0;
    if a < open.len() {
        assert(open[a as int] < race.nets@.len());
    }
    if b < open.len() {
        assert(open[b as int] < race.nets@.len());
    }
}

/// No unprotected net is exempt from a random cull: the one with `k` unprotected
/// nets before it leaves whenever `k` is drawn, and `k` is a number that can be
/// drawn.
pub proof fn no_unprotected_net_is_exempt(race: Race, run_seed: u64, clock: usize, i: usize)
    requires
        race.nets@.len() <= usize::MAX,
        race.unprotected(i),
    ensures
        ({
            let k = outside_below(race.elite_set(), i as int);
            let open = outside_below(race.elite_set(), race.nets@.len() as int);
            &&& 0 <= k < open
            &&& u64_draw(draw_seed(run_seed, clock, 0), 0, (open - 1) as u64).0 as usize == k
                ==> race.crossover_victim_of(CrossCullPolicy::Random, run_seed, clock) == Some(i)
        }),
{
    outside_positions_are_numbered(race.nets@.len(), race.elite_set(), i as int);
}

/// The rolls of one clock draw from different seeds, and an immigrant's roll
/// never draws from the seed of a crossover child.
pub proof fn rolls_of_a_clock_draw_apart(run_seed: u64, clock: usize, a: usize, b: usize)
    requires
        a != b,
    ensures
        draw_seed(run_seed, clock, a) != draw_seed(run_seed, clock, b),
{
    crate::seeds::derived_seeds_are_distinct(
        run_seed,
        clock.wrapping_mul(7919).wrapping_add(a),
        clock.wrapping_mul(7919).wrapping_add(b),
    );
}

// ── The worst ────────────────────────────────────────────────────────────

/// A net is an unprotected one with a verdict, and no other such net is worse;
/// of several that tie it is the first.
pub open spec fn is_worst(race: Race, i: usize) -> bool {
    &&& race.unprotected(i)
    &&& race.nets@[i as int].smoothed is Some
    &&& forall|j: int|
        0 <= j < race.nets@.len() && race.unprotected(j as usize) && (
        #[trigger] race.nets@[j]).smoothed is Some ==> {
            &&& !race.direction.better(race.nets@[i as int].smoothed->0, race.nets@[j].smoothed->0)
            &&& j < i ==> race.direction.better(
                race.nets@[j].smoothed->0,
                race.nets@[i as int].smoothed->0,
            )
        }
}

/// Some unprotected net has a verdict.
pub open spec fn somebody_ranks(race: Race) -> bool {
    exists|i: int|
        0 <= i < race.nets@.len() && race.unprotected(i as usize) && (
        #[trigger] race.nets@[i]).smoothed is Some
}

/// Every verdict is a number.
pub open spec fn verdicts_compare(race: Race) -> bool {
    forall|i: int|
        0 <= i < race.nets@.len() && (#[trigger] race.nets@[i]).smoothed is Some
            ==> !race.nets@[i].smoothed->0.nan()
}

proof fn columns_compare(race: Race)
    requires
        verdicts_compare(race),
    ensures
        comparable(score_column(race.nets@)),
{
    let scores = score_column(race.nets@);
    assert forall|i: int| 0 <= i < scores.len() && scores[i] is Some implies !(
    #[trigger] scores[i])->0.nan() by {
        assert(race.nets@[i].smoothed is Some);
    }
}

proof fn the_first_is_worst(race: Race)
    requires
        race.nets@.len() <= usize::MAX,
        verdicts_compare(race),
    ensures
        ({
            let w = worst_first(race.direction, score_column(race.nets@), race.elite_set());
            &&& w.len() > 0 <==> somebody_ranks(race)
            &&& w.len() > 0 ==> is_worst(race, w[0])
        }),
{
    let scores = score_column(race.nets@);
    let elite = race.elite_set();
    let w = worst_first(race.direction, scores, elite);
    columns_compare(race);
    worst_are_unprotected(race.direction, scores, elite);
    if w.len() > 0 {
        assert(race.unprotected(w[0]));
        assert(race.nets@[w[0] as int].smoothed is Some);
        let flipped = race.direction.flipped();
        let c = candidates(scores, outside_mask(scores.len(), elite));
        let r = ranking(flipped, c);
        candidates_are_sound(scores, outside_mask(scores.len(), elite));
        assert forall|k: int| 0 <= k < c.len() implies !(#[trigger] c[k]).score.nan() by {
            assert(scores[c[k].index as int] == Some(c[k].score));
        }
        ranking_is_stable(flipped, c);
        ranking_members(flipped, c);
        assert forall|j: int|
            0 <= j < race.nets@.len() && race.unprotected(j as usize) && (
            #[trigger] race.nets@[j]).smoothed is Some implies {
            &&& !race.direction.better(
                race.nets@[w[0] as int].smoothed->0,
                race.nets@[j].smoothed->0,
            )
            &&& j < w[0] ==> race.direction.better(
                race.nets@[j].smoothed->0,
                race.nets@[w[0] as int].smoothed->0,
            )
        } by {
            the_worst_list_is_whole(race.direction, scores, elite, j, 0, 0);
            assert(scores[j] == race.nets@[j].smoothed);
            let q = choose|q: int| 0 <= q < w.len() && w[q] == j as usize;
            the_worst_list_is_whole(race.direction, scores, elite, j, 0, q);
            if q > 0 {
                assert(w[q] == r[q].index && w[0] == r[0].index);
                assert(c.contains(r[q]) && c.contains(r[0]));
                let a = choose|a: int| 0 <= a < c.len() && c[a] == r[q];
                let b = choose|b: int| 0 <= b < c.len() && c[b] == r[0];
                assert(scores[c[a].index as int] == Some(c[a].score));
                assert(scores[c[b].index as int] == Some(c[b].score));
                assert(scores[w[0] as int] == race.nets@[w[0] as int].smoothed);
            }
        }
    }
    if somebody_ranks(race) {
        let i = choose|i: int|
            0 <= i < race.nets@.len() && race.unprotected(i as usize) && (
            #[trigger] race.nets@[i]).smoothed is Some;
        assert(scores[i] == race.nets@[i].smoothed);
        the_worst_list_is_whole(race.direction, scores, elite, i, 0, 0);
    }
}

/// The worst unprotected net makes room for a crossover child under the policy
/// of that name; nobody does exactly if no unprotected net has a verdict.
pub proof fn the_worst_makes_room(race: Race, run_seed: u64, clock: usize)
    requires
        race.nets@.len() <= usize::MAX,
        verdicts_compare(race),
    ensures
        match race.crossover_victim_of(CrossCullPolicy::Worst, run_seed, clock) {
            Some(i) => is_worst(race, i),
            None => !somebody_ranks(race),
        },
{
    the_first_is_worst(race);
}

/// An immigrant always finds a place: the worst unprotected net leaves under the
/// policy of that name, and also where there is nothing to roll for; before
/// anybody has a verdict, the first unprotected net does.
pub proof fn an_immigrant_finds_a_place(
    race: Race,
    run_seed: u64,
    clock: usize,
    roll: usize,
    pick: usize,
    policy: MutationCullPolicy,
)
    requires
        0 < race.nets@.len() <= usize::MAX,
        verdicts_compare(race),
        policy == MutationCullPolicy::Worst || (policy == MutationCullPolicy::InverseFitness
            && !race.roulette_runs()),
    ensures
        race.mutation_victim_of(policy, run_seed, clock, roll, pick) matches Some(i) && (
        if somebody_ranks(race) {
            is_worst(race, i)
        } else {
            race.unprotected(i) && forall|j: usize| j < i ==> !race.unprotected(j)
        }),
{
    the_first_is_worst(race);
    crate::ranking::some_net_stays_cullable(
        race.direction,
        race.elite_count as nat,
        score_column(race.nets@),
        demoted_column(race.nets@),
    );
    crate::race::some_position_is_outside(race.nets@.len(), race.elite_set());
    let open = positions_outside(race.nets@.len(), race.elite_set());
    outside_positions_are_numbered(race.nets@.len(), race.elite_set(), 0);
    let i = open[0];
    assert(outside_below(race.elite_set(), i as int) == 0);
    assert forall|j: usize| j < i implies !race.unprotected(j) by {
        outside_positions_are_numbered(race.nets@.len(), race.elite_set(), j as int);
        if race.unprotected(j) {
            below_grows(race.elite_set(), j as int + 1, i as int);
        }
    }
}

proof fn below_grows(chosen: Seq<usize>, a: int, b: int)
    requires
        0 <= a <= b,
    ensures
        0 <= outside_below(chosen, a) <= outside_below(chosen, b),
    decreases b,
{
    if a < b {
        below_grows(chosen, a, b - 1);
    } else if b > 0 {
        below_grows(chosen, b - 1, b - 1);
    }
}

// ── The inverse-fitness roulette ─────────────────────────────────────────

/// A net takes part in the roulette: unprotected, with a verdict.
pub open spec fn takes_part(race: Race, i: int) -> bool {
    0 <= i < race.nets@.len() && race.unprotected(i as usize) && race.nets@[i].smoothed is Some
}

/// Some net that takes part is better than the net at `i`.
pub open spec fn has_a_better(race: Race, i: int) -> bool {
    exists|j: int|
        #![trigger race.nets@[j]]
        takes_part(race, j) && race.direction.better(
            race.nets@[j].smoothed->0,
            race.nets@[i].smoothed->0,
        )
}

proof fn entries_take_part(race: Race, i: int)
    requires
        race.nets@.len() <= usize::MAX,
    ensures
        takes_part(race, i) <==> 0 <= i < race.nets@.len() && race.nets@[i].smoothed is Some
            && race.roulette_entries().contains(
            Ranked { index: i as usize, score: race.nets@[i].smoothed->0 },
        ),
        forall|k: int|
            0 <= k < race.roulette_entries().len() ==> {
                let e = #[trigger] race.roulette_entries()[k];
                takes_part(race, e.index as int) && race.nets@[e.index as int].smoothed == Some(
                    e.score,
                )
            },
{
    let scores = score_column(race.nets@);
    let mask = outside_mask(race.nets@.len(), race.elite_set());
    candidates_are_sound(scores, mask);
    let c = race.roulette_entries();
    assert forall|k: int| 0 <= k < c.len() implies {
        let e = #[trigger] c[k];
        takes_part(race, e.index as int) && race.nets@[e.index as int].smoothed == Some(e.score)
    } by {
        assert(scores[c[k].index as int] == race.nets@[c[k].index as int].smoothed);
    }
    if takes_part(race, i) {
        assert(scores[i] == race.nets@[i].smoothed);
        candidates_are_complete(scores, mask, i);
    } else if 0 <= i < race.nets@.len() && race.nets@[i].smoothed is Some && c.contains(
        Ranked { index: i as usize, score: race.nets@[i].smoothed->0 },
    ) {
        let x = Ranked { index: i as usize, score: race.nets@[i].smoothed->0 };
        let k = choose|k: int| 0 <= k < c.len() && c[k] == x;
        assert(takes_part(race, c[k].index as int));
    }
}

proof fn beaten_has_a_better(race: Race, e: Ranked)
    requires
        race.nets@.len() <= usize::MAX,
        takes_part(race, e.index as int),
        race.nets@[e.index as int].smoothed == Some(e.score),
    ensures
        crate::ranking::is_beaten(race.direction, race.roulette_entries(), e) <==> has_a_better(
            race,
            e.index as int,
        ),
{
    let c = race.roulette_entries();
    entries_take_part(race, e.index as int);
    if crate::ranking::is_beaten(race.direction, c, e) {
        let j = choose|j: int|
            0 <= j < c.len() && race.direction.better((#[trigger] c[j]).score, e.score);
        assert(takes_part(race, c[j].index as int));
        assert(race.nets@[c[j].index as int].smoothed == Some(c[j].score));
    }
    if has_a_better(race, e.index as int) {
        let j = choose|j: int|
            #![trigger race.nets@[j]]
            takes_part(race, j) && race.direction.better(
                race.nets@[j].smoothed->0,
                race.nets@[e.index as int].smoothed->0,
            );
        entries_take_part(race, j);
        let x = Ranked { index: j as usize, score: race.nets@[j].smoothed->0 };
        let k = choose|k: int| 0 <= k < c.len() && c[k] == x;
        assert(race.direction.better(c[k].score, e.score));
    }
}

/// Whom the inverse-fitness roulette can stop at: whatever it picks, an
/// unprotected net with a verdict leaves, and one that is not the best of them
/// unless none is better than another; and every net that has a better one
/// leaves for some pick.
pub proof fn the_roulette_reaches_everyone_but_the_best(
    race: Race,
    run_seed: u64,
    clock: usize,
    roll: usize,
    pick: usize,
    i: usize,
)
    requires
        race.nets@.len() <= usize::MAX,
        race.roulette_runs(),
        verdicts_compare(race),
    ensures
        race.mutation_victim_of(
            MutationCullPolicy::InverseFitness,
            run_seed,
            clock,
            roll,
            pick,
        ) matches Some(v) && takes_part(race, v as int) && (has_a_better(race, v as int)
            || forall|j: int| takes_part(race, j) ==> !#[trigger] has_a_better(race, j)),
        takes_part(race, i as int) && has_a_better(race, i as int) ==> exists|p: usize|
            race.mutation_victim_of(
                MutationCullPolicy::InverseFitness,
                run_seed,
                clock,
                roll,
                p,
            ) == Some(i),
{
    let c = race.roulette_entries();
    let field = race.roulette_field();
    the_best_is_left_out(race.direction, c);
    let at: int = if pick < field.len() {
        pick as int
    } else {
        field.len() - 1
    };
    let e = field[at];
    let k = choose|k: int| 0 <= k < c.len() && c[k] == e;
    entries_take_part(race, e.index as int);
    assert(takes_part(race, c[k].index as int));
    beaten_has_a_better(race, e);
    assert(!e.score.nan()) by {
        assert(race.nets@[e.index as int].smoothed is Some);
    }
    if !has_a_better(race, e.index as int) {
        assert(!crate::ranking::some_beaten(race.direction, c));
        assert forall|j: int| takes_part(race, j) implies !#[trigger] has_a_better(race, j) by {
            entries_take_part(race, j);
            let x = Ranked { index: j as usize, score: race.nets@[j].smoothed->0 };
            let m = choose|m: int| 0 <= m < c.len() && c[m] == x;
            beaten_has_a_better(race, x);
            assert(!crate::ranking::is_beaten(race.direction, c, c[m]));
        }
    }
    if takes_part(race, i as int) && has_a_better(race, i as int) {
        entries_take_part(race, i as int);
        let x = Ranked { index: i, score: race.nets@[i as int].smoothed->0 };
        beaten_has_a_better(race, x);
        let m = choose|m: int| 0 <= m < c.len() && c[m] == x;
        assert(field.contains(c[m]));
        let p = choose|p: int| 0 <= p < field.len() && field[p] == x;
        field_fits(race);
        assert(race.mutation_victim_of(
            MutationCullPolicy::InverseFitness,
            run_seed,
            clock,
            roll,
            p as usize,
        ) == Some(i));
    }
}

proof fn field_fits(race: Race)
    requires
        race.nets@.len() <= usize::MAX,
    ensures
        race.roulette_field().len() <= race.nets@.len(),
{
    let c = race.roulette_entries();
    candidates_are_sound(
        score_column(race.nets@),
        outside_mask(race.nets@.len(), race.elite_set()),
    );
    trailing_fits(race.direction, c, c.len());
}

proof fn trailing_fits(direction: Direction, entries: Seq<Ranked>, n: nat)
    ensures
        crate::ranking::trailing(direction, entries, n).len() <= n,
    decreases n,
{
    if n > 0 {
        trailing_fits(direction, entries, (n - 1) as nat);
    }
}

// ── The champions ────────────────────────────────────────────────────────

/// The champions are the best nets with a verdict, best first: no other net with
/// a verdict is better than any of them, there are as many as there are seats
/// and at least one, and fewer only if nobody else has a verdict.
pub proof fn champions_are_the_best(race: Race, i: int, j: int, k: int)
    requires
        race.nets@.len() <= usize::MAX,
        verdicts_compare(race),
    ensures
        ({
            let top = race.champion_ranking();
            let seats = if race.elite_count == 0 {
                1int
            } else {
                race.elite_count as int
            };
            let is_champion = |x: int|
                exists|q: int| 0 <= q < top.len() && (#[trigger] top[q]).index == x;
            &&& top.len() <= seats
            &&& 0 <= k < top.len() ==> top[k].index < race.nets@.len()
                && race.nets@[top[k].index as int].smoothed == Some(top[k].score)
            &&& 0 <= j < k < top.len() ==> !race.direction.better(top[k].score, top[j].score)
                && top[j].index != top[k].index
            &&& 0 <= i < race.nets@.len() && race.nets@[i].smoothed is Some && !is_champion(i) ==> {
                &&& top.len() == seats
                &&& 0 <= k < top.len() ==> !race.direction.better(
                    race.nets@[i].smoothed->0,
                    top[k].score,
                )
            }
        }),
{
    let scores = score_column(race.nets@);
    let mask = all_pass(race.nets@.len());
    let c = candidates(scores, mask);
    let all = race.live_ranking();
    let top = race.champion_ranking();
    columns_compare(race);
    candidates_are_sound(scores, mask);
    assert forall|m: int| 0 <= m < c.len() implies !(#[trigger] c[m]).score.nan() by {
        assert(scores[c[m].index as int] == Some(c[m].score));
    }
    ranking_members(race.direction, c);
    ranking_is_sorted(race.direction, c);
    crate::ranking::ranking_positions_are_distinct(race.direction, c);
    assert forall|q: int| 0 <= q < all.len() implies (#[trigger] all[q]).index < race.nets@.len()
        && race.nets@[all[q].index as int].smoothed == Some(all[q].score) by {
        assert(c.contains(all[q]));
        let m = choose|m: int| 0 <= m < c.len() && c[m] == all[q];
        assert(scores[c[m].index as int] == Some(c[m].score));
        assert(scores[c[m].index as int] == race.nets@[c[m].index as int].smoothed);
    }
    if 0 <= k < top.len() {
        assert(top[k] == all[k]);
    }
    if 0 <= j < k < top.len() {
        assert(top[j] == all[j]);
        assert(positions(all)[j] != positions(all)[k]);
        assert(positions(all)[j] == all[j].index && positions(all)[k] == all[k].index);
    }
    if 0 <= i < race.nets@.len() && race.nets@[i].smoothed is Some {
        assert(scores[i] == race.nets@[i].smoothed);
        candidates_are_complete(scores, mask, i);
        let x = Ranked { index: i as usize, score: race.nets@[i].smoothed->0 };
        let m = choose|m: int| 0 <= m < c.len() && c[m] == x;
        assert(all.contains(c[m]));
        let q = choose|q: int| 0 <= q < all.len() && all[q] == x;
        if q < top.len() {
            assert(top[q] == all[q]);
            assert(top[q].index == i);
        }
    }
}

/// What is written down of the champions: their hashes, best first, and nothing
/// else of the race.
pub proof fn champions_are_written_down(before: Race, after: Race, k: int)
    requires
        before.nets@.len() <= usize::MAX,
        verdicts_compare(before),
        crate::race::crowned(before, after),
        0 <= k < after.champions@.len(),
    ensures
        after.champions@.len() == before.champion_ranking().len(),
        exists|i: int|
            0 <= i < before.nets@.len() && (#[trigger] before.nets@[i]).hash@
                == after.champions@[k]@ && before.nets@[i].smoothed == Some(
                before.champion_ranking()[k].score,
            ),
        after == (Race { champions: after.champions, ..before }),
{
    champions_are_the_best(before, 0, 0, k);
    let i = before.champion_ranking()[k].index as int;
    assert(before.nets@[i].hash@ == after.champions@[k]@);
}

} // verus!
