//! Who stands where: what the rankings of a race say about its nets.

use vstd::prelude::*;

use crate::net::Net;
use crate::race::{demoted_column, parent_entries, score_column, verdicts, Race};
use crate::ranking::{
    all_pass, candidates, candidates_are_complete, candidates_are_sound, elites_are_sound,
    elites_lead, elites_stand_best_first, ranking, ranking_is_permutation, ranking_is_sorted,
    ranking_members, the_seats_are_filled, Ranked,
};
use crate::score::{Direction, Score};
use crate::victims::verdicts_compare;

verus! {

/// One number is at least as good as another.
pub open spec fn no_worse(direction: Direction, a: Score, b: Score) -> bool {
    match direction {
        Direction::Minimize => a.key() <= b.key(),
        Direction::Maximize => a.key() >= b.key(),
    }
}

/// The ranking holds every net with a verdict, under its verdict, and nobody
/// else, best first.
pub proof fn the_ranking_is_whole(race: Race, i: int, j: int, k: int)
    requires
        race.nets@.len() <= usize::MAX,
        verdicts_compare(race),
    ensures
        ({
            let all = race.live_ranking();
            &&& 0 <= i < race.nets@.len() && race.nets@[i].smoothed is Some ==> all.contains(
                Ranked { index: i as usize, score: race.nets@[i].smoothed->0 },
            )
            &&& 0 <= k < all.len() ==> all[k].index < race.nets@.len()
                && race.nets@[all[k].index as int].smoothed == Some(all[k].score)
            &&& 0 <= j <= k < all.len() ==> no_worse(race.direction, all[j].score, all[k].score)
        }),
{
    let scores = score_column(race.nets@);
    let mask = all_pass(race.nets@.len());
    let c = candidates(scores, mask);
    let all = race.live_ranking();
    candidates_are_sound(scores, mask);
    ranking_members(race.direction, c);
    assert forall|m: int| 0 <= m < c.len() implies !(#[trigger] c[m]).score.nan() by {
        assert(scores[c[m].index as int] == Some(c[m].score));
        assert(race.nets@[c[m].index as int].smoothed is Some);
    }
    ranking_is_sorted(race.direction, c);
    assert forall|q: int| 0 <= q < all.len() implies (#[trigger] all[q]).index < race.nets@.len()
        && race.nets@[all[q].index as int].smoothed == Some(all[q].score) by {
        assert(c.contains(all[q]));
        let m = choose|m: int| 0 <= m < c.len() && c[m] == all[q];
        assert(scores[c[m].index as int] == Some(c[m].score));
    }
    if 0 <= i < race.nets@.len() && race.nets@[i].smoothed is Some {
        assert(scores[i] == race.nets@[i].smoothed);
        candidates_are_complete(scores, mask, i);
        let x = Ranked { index: i as usize, score: race.nets@[i].smoothed->0 };
        let m = choose|m: int| 0 <= m < c.len() && c[m] == x;
        assert(all.contains(c[m]));
    }
    if 0 <= j < k < all.len() {
        assert(!race.direction.better(all[k].score, all[j].score));
    }
}

/// Every net can be a parent, with its verdict or as 0 without one, and the
/// better ones stand in front.
pub proof fn every_net_can_be_a_parent(race: Race, i: int, j: int, k: int)
    requires
        race.nets@.len() <= usize::MAX,
        verdicts_compare(race),
    ensures
        ({
            let all = ranking(race.direction, parent_entries(race.nets@));
            &&& all.len() == race.nets@.len()
            &&& 0 <= i < race.nets@.len() ==> exists|q: int|
                0 <= q < all.len() && (#[trigger] all[q]).index == i && all[q].score == (
                match race.nets@[i].smoothed {
                    Some(s) => s,
                    None => (Score { bits: 0 }),
                })
            &&& 0 <= j <= k < all.len() ==> no_worse(race.direction, all[j].score, all[k].score)
        }),
{
    let entries = parent_entries(race.nets@);
    let all = ranking(race.direction, entries);
    ranking_is_permutation(race.direction, entries);
    ranking_members(race.direction, entries);
    assert forall|m: int| 0 <= m < entries.len() implies !(#[trigger] entries[m]).score.nan() by {
        if race.nets@[m].smoothed is Some {
            assert(!race.nets@[m].smoothed->0.nan());
        }
    }
    ranking_is_sorted(race.direction, entries);
    if 0 <= i < race.nets@.len() {
        assert(all.contains(entries[i]));
    }
    if 0 <= j <= k < all.len() {
        assert(entries.contains(all[j]) && entries.contains(all[k]));
    }
    if 0 <= j < k < all.len() {
        assert(!race.direction.better(all[k].score, all[j].score));
    }
}

/// The guard of a race protects its best nets that are not demoted, best first:
/// no more than it has seats, never everybody, and as long as a seat is free
/// nobody fit for it goes without.
pub proof fn the_guard_protects_the_best(race: Race, i: int, j: int, k: int)
    requires
        race.nets@.len() <= usize::MAX,
        verdicts_compare(race),
    ensures
        ({
            let e = race.elite_set();
            let fit = |x: int|
                0 <= x < race.nets@.len() && race.nets@[x].smoothed is Some && !race.nets@[x].demoted;
            &&& e.len() <= race.elite_count
            &&& race.nets@.len() > 0 ==> e.len() < race.nets@.len()
            &&& 0 <= k < e.len() ==> fit(e[k] as int)
            &&& 0 <= j < k < e.len() ==> e[j] != e[k] && no_worse(
                race.direction,
                race.nets@[e[j] as int].smoothed->0,
                race.nets@[e[k] as int].smoothed->0,
            )
            &&& fit(i) && !e.contains(i as usize) ==> {
                &&& e.len() == race.elite_count || e.len() + 1 == race.nets@.len()
                &&& 0 <= k < e.len() ==> no_worse(
                    race.direction,
                    race.nets@[e[k] as int].smoothed->0,
                    race.nets@[i].smoothed->0,
                )
            }
        }),
{
    let scores = score_column(race.nets@);
    let demoted = demoted_column(race.nets@);
    let e = race.elite_set();
    let n = race.elite_count as nat;
    assert forall|x: int| 0 <= x < scores.len() && scores[x] is Some implies !(
    #[trigger] scores[x])->0.nan() by {
        assert(race.nets@[x].smoothed is Some);
    }
    elites_are_sound(race.direction, n, scores, demoted);
    the_seats_are_filled(race.direction, n, scores, demoted, i);
    if 0 <= k < e.len() {
        assert(scores[e[k] as int] == race.nets@[e[k] as int].smoothed);
        assert(demoted[e[k] as int] == race.nets@[e[k] as int].demoted);
    }
    if 0 <= j < k < e.len() {
        elites_stand_best_first(race.direction, n, scores, demoted, j, k);
        assert(scores[e[j] as int] == race.nets@[e[j] as int].smoothed);
        assert(!scores[e[j] as int]->0.nan() && !scores[e[k] as int]->0.nan());
    }
    if 0 <= i < race.nets@.len() && race.nets@[i].smoothed is Some && !race.nets@[i].demoted
        && !e.contains(i as usize) {
        assert(scores[i] == race.nets@[i].smoothed);
        assert(demoted[i] == race.nets@[i].demoted);
        if 0 <= k < e.len() {
            elites_lead(race.direction, n, scores, demoted, k, i);
            assert(!scores[e[k] as int]->0.nan() && !scores[i]->0.nan());
        }
    }
}

/// Verdicts are collected net by net: those of two groups are those of the
/// first, followed by those of the second, and one net gives its own or none.
pub proof fn verdicts_add_up(a: Seq<Net>, b: Seq<Net>, net: Net)
    ensures
        verdicts(a + b) == verdicts(a) + verdicts(b),
        verdicts(seq![net]) == (match net.smoothed {
            Some(s) => seq![s],
            None => Seq::<Score>::empty(),
        }),
    decreases b.len(),
{
    reveal_with_fuel(verdicts, 2);
    assert(seq![net].drop_last() =~= Seq::<Net>::empty());
    assert(verdicts(seq![net]) =~= (match net.smoothed {
        Some(s) => seq![s],
        None => Seq::<Score>::empty(),
    }));
    if b.len() == 0 {
        assert(a + b =~= a);
        assert(verdicts(a) =~= verdicts(a) + verdicts(b));
    } else {
        verdicts_add_up(a, b.drop_last(), net);
        assert((a + b).drop_last() =~= a + b.drop_last());
        assert((a + b).last() == b.last());
        assert(verdicts(a + b) =~= verdicts(a) + verdicts(b));
    }
}

} // verus!
