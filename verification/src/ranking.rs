//! Ranking by smoothed fitness: who leads, who trails, who is safe.
//!
//! A population is seen here as a column of smoothed scores, one entry per
//! live net in order, `None` for a net without a verdict yet. Nets are named by
//! their position in that column.

use vstd::prelude::*;

use crate::score::{Direction, Score};

verus! {

/// A net, by position, with the score it is ranked by.
#[derive(Clone, Copy, Debug, PartialEq, Eq, Structural)]
pub struct Ranked {
    pub index: usize,
    pub score: Score,
}

impl Direction {
    /// The opposite direction.
    pub open spec fn flipped(self) -> Direction {
        match self {
            Direction::Minimize => Direction::Maximize,
            Direction::Maximize => Direction::Minimize,
        }
    }

    pub fn flip(self) -> (r: Direction)
        ensures
            r == self.flipped(),
    {
        match self {
            Direction::Minimize => Direction::Maximize,
            Direction::Maximize => Direction::Minimize,
        }
    }
}

/// The nets that the mask lets through and that have a verdict, in order.
pub open spec fn candidates(scores: Seq<Option<Score>>, mask: Seq<bool>) -> Seq<Ranked>
    decreases scores.len(),
{
    if scores.len() == 0 {
        Seq::empty()
    } else {
        let rest = candidates(scores.drop_last(), mask);
        let i = scores.len() - 1;
        if mask[i] && scores[i] is Some {
            rest.push(Ranked { index: i as usize, score: scores[i]->0 })
        } else {
            rest
        }
    }
}

/// Where a newcomer goes in a ranking: in front of the first one it beats.
pub open spec fn rank_position(direction: Direction, ranked: Seq<Ranked>, x: Ranked) -> int
    decreases ranked.len(),
{
    if ranked.len() == 0 {
        0
    } else {
        let p = rank_position(direction, ranked.drop_last(), x);
        if p < ranked.len() - 1 || direction.better(x.score, ranked.last().score) {
            p
        } else {
            ranked.len() as int
        }
    }
}

/// The entries from best to worst; entries that do not beat each other keep
/// their order.
pub open spec fn ranking(direction: Direction, entries: Seq<Ranked>) -> Seq<Ranked>
    decreases entries.len(),
{
    if entries.len() == 0 {
        Seq::empty()
    } else {
        let rest = ranking(direction, entries.drop_last());
        rest.insert(rank_position(direction, rest, entries.last()), entries.last())
    }
}

/// The positions of the entries.
pub open spec fn positions(entries: Seq<Ranked>) -> Seq<usize> {
    entries.map_values(|e: Ranked| e.index)
}

/// The first `n` elements, or all if there are fewer.
pub open spec fn at_most<T>(s: Seq<T>, n: nat) -> Seq<T> {
    if s.len() <= n {
        s
    } else {
        s.take(n as int)
    }
}

/// A mask that lets everything through.
pub open spec fn all_pass(n: nat) -> Seq<bool> {
    Seq::new(n, |i: int| true)
}

/// How many nets are protected: `elite_count`, but never all of them.
pub open spec fn elite_seats(elite_count: nat, live: nat) -> nat {
    if live == 0 {
        0
    } else if elite_count <= live - 1 {
        elite_count
    } else {
        (live - 1) as nat
    }
}

/// The protected nets: the best of those that are not demoted.
pub open spec fn elites(
    direction: Direction,
    elite_count: nat,
    scores: Seq<Option<Score>>,
    demoted: Seq<bool>,
) -> Seq<usize> {
    at_most(
        positions(ranking(direction, candidates(scores, healthy_mask(demoted)))),
        elite_seats(elite_count, scores.len()),
    )
}

/// The nets that are not demoted.
pub open spec fn healthy_mask(demoted: Seq<bool>) -> Seq<bool> {
    demoted.map_values(|d: bool| !d)
}

/// The nets outside the given set of positions.
pub open spec fn outside_mask(n: nat, chosen: Seq<usize>) -> Seq<bool> {
    Seq::new(n, |i: int| !chosen.contains(i as usize))
}

/// The nets with a verdict that are not protected, worst first.
pub open spec fn worst_first(
    direction: Direction,
    scores: Seq<Option<Score>>,
    elite: Seq<usize>,
) -> Seq<usize> {
    positions(
        ranking(direction.flipped(), candidates(scores, outside_mask(scores.len(), elite))),
    )
}

/// Every score that takes part is a number.
pub open spec fn comparable(scores: Seq<Option<Score>>) -> bool {
    forall|i: int| 0 <= i < scores.len() && scores[i] is Some ==> !(#[trigger] scores[i])->0.nan()
}

// ── Executable ranking ───────────────────────────────────────────────────

pub fn collect_candidates(scores: &Vec<Option<Score>>, mask: &Vec<bool>) -> (r: Vec<Ranked>)
    requires
        mask@.len() == scores@.len(),
    ensures
        r@ == candidates(scores@, mask@),
{
    let mut out: Vec<Ranked> = Vec::new();
    let mut i: usize = 0;
    assert(scores@.take(0) =~= Seq::empty());
    while i < scores.len()
        invariant
            i <= scores@.len(),
            mask@.len() == scores@.len(),
            out@ == candidates(scores@.take(i as int), mask@),
        decreases scores@.len() - i,
    {
        proof {
            assert(scores@.take(i + 1).drop_last() =~= scores@.take(i as int));
        }
        if mask[i] {
            if let Some(score) = scores[i] {
                out.push(Ranked { index: i, score });
            }
        }
        i = i + 1;
    }
    assert(scores@.take(scores@.len() as int) =~= scores@);
    out
}

/// Ranks the entries from best to worst, keeping the order of ties.
pub fn rank(direction: Direction, entries: &Vec<Ranked>) -> (r: Vec<Ranked>)
    ensures
        r@ == ranking(direction, entries@),
{
    let mut out: Vec<Ranked> = Vec::new();
    let mut i: usize = 0;
    assert(entries@.take(0) =~= Seq::empty());
    while i < entries.len()
        invariant
            i <= entries@.len(),
            out@ == ranking(direction, entries@.take(i as int)),
            out@.len() == i,
        decreases entries@.len() - i,
    {
        let x = entries[i];
        let mut p: usize = 0;
        let mut found = false;
        let mut j: usize = 0;
        assert(out@.take(0) =~= Seq::empty());
        while j < out.len()
            invariant
                j <= out@.len(),
                p <= j,
                found == (p < j),
                p == rank_position(direction, out@.take(j as int), x),
            decreases out@.len() - j,
        {
            assert(out@.take(j + 1).drop_last() =~= out@.take(j as int));
            if !found {
                if direction.is_better(x.score, out[j].score) {
                    found = true;
                } else {
                    p = j + 1;
                }
            }
            j = j + 1;
        }
        assert(out@.take(out@.len() as int) =~= out@);
        assert(entries@.take(i + 1).drop_last() =~= entries@.take(i as int));
        out.insert(p, x);
        i = i + 1;
    }
    assert(entries@.take(entries@.len() as int) =~= entries@);
    out
}

/// The positions of the first `n` entries.
pub fn first_positions(entries: &Vec<Ranked>, n: usize) -> (r: Vec<usize>)
    ensures
        r@ == at_most(positions(entries@), n as nat),
{
    let mut out: Vec<usize> = Vec::new();
    let mut i: usize = 0;
    while i < entries.len() && i < n
        invariant
            i <= entries@.len(),
            i <= n,
            out@ =~= positions(entries@).take(i as int),
        decreases entries@.len() - i,
    {
        out.push(entries[i].index);
        i = i + 1;
    }
    assert(out@ =~= at_most(positions(entries@), n as nat));
    out
}

/// Whether a position is among the given ones.
pub fn is_among(i: usize, chosen: &Vec<usize>) -> (r: bool)
    ensures
        r == chosen@.contains(i),
{
    let mut j: usize = 0;
    while j < chosen.len()
        invariant
            j <= chosen@.len(),
            forall|k: int| 0 <= k < j ==> chosen@[k] != i,
        decreases chosen@.len() - j,
    {
        if chosen[j] == i {
            return true;
        }
        j = j + 1;
    }
    false
}

fn make_healthy_mask(demoted: &Vec<bool>) -> (r: Vec<bool>)
    ensures
        r@ == healthy_mask(demoted@),
{
    let mut out: Vec<bool> = Vec::new();
    let mut i: usize = 0;
    while i < demoted.len()
        invariant
            i <= demoted@.len(),
            out@ =~= healthy_mask(demoted@).take(i as int),
        decreases demoted@.len() - i,
    {
        out.push(!demoted[i]);
        i = i + 1;
    }
    assert(out@ =~= healthy_mask(demoted@));
    out
}

pub fn make_outside_mask(n: usize, chosen: &Vec<usize>) -> (r: Vec<bool>)
    ensures
        r@ == outside_mask(n as nat, chosen@),
{
    let mut out: Vec<bool> = Vec::new();
    let mut i: usize = 0;
    while i < n
        invariant
            i <= n,
            out@ =~= outside_mask(n as nat, chosen@).take(i as int),
        decreases n - i,
    {
        out.push(!is_among(i, chosen));
        i = i + 1;
    }
    assert(out@ =~= outside_mask(n as nat, chosen@));
    out
}

/// The protected nets, best first.
pub fn find_elites(
    direction: Direction,
    elite_count: usize,
    scores: &Vec<Option<Score>>,
    demoted: &Vec<bool>,
) -> (r: Vec<usize>)
    requires
        demoted@.len() == scores@.len(),
    ensures
        r@ == elites(direction, elite_count as nat, scores@, demoted@),
{
    let live: usize = scores.len();
    let seats: usize = if live == 0 {
        0
    } else if elite_count <= live - 1 {
        elite_count
    } else {
        live - 1
    };
    let mask = make_healthy_mask(demoted);
    let entries = collect_candidates(scores, &mask);
    let ranked = rank(direction, &entries);
    first_positions(&ranked, seats)
}

/// The worst `count` unprotected nets, worst first.
pub fn find_worst(
    direction: Direction,
    scores: &Vec<Option<Score>>,
    elite: &Vec<usize>,
    count: usize,
) -> (r: Vec<usize>)
    ensures
        r@ == at_most(worst_first(direction, scores@, elite@), count as nat),
{
    let mask = make_outside_mask(scores.len(), elite);
    let entries = collect_candidates(scores, &mask);
    let ranked = rank(direction.flip(), &entries);
    first_positions(&ranked, count)
}

// ── What a ranking keeps ─────────────────────────────────────────────────

/// Where the candidates come from: each is a net the mask lets through, with
/// its own score, and the candidates stand in the order of the nets.
pub proof fn candidates_are_sound(scores: Seq<Option<Score>>, mask: Seq<bool>)
    requires
        scores.len() <= usize::MAX,
    ensures
        candidates(scores, mask).len() <= scores.len(),
        forall|k: int|
            0 <= k < candidates(scores, mask).len() ==> {
                let e = #[trigger] candidates(scores, mask)[k];
                &&& (e.index as int) < scores.len()
                &&& mask[e.index as int]
                &&& scores[e.index as int] == Some(e.score)
            },
        forall|j: int, k: int|
            0 <= j < k < candidates(scores, mask).len() ==> (#[trigger] candidates(
                scores,
                mask,
            )[j]).index < (#[trigger] candidates(scores, mask)[k]).index,
    decreases scores.len(),
{
    if scores.len() > 0 {
        candidates_are_sound(scores.drop_last(), mask);
    }
}

/// Every net that the mask lets through and that has a verdict is a candidate.
pub proof fn candidates_are_complete(scores: Seq<Option<Score>>, mask: Seq<bool>, i: int)
    requires
        scores.len() <= usize::MAX,
        0 <= i < scores.len(),
        mask[i],
        scores[i] is Some,
    ensures
        candidates(scores, mask).contains(Ranked { index: i as usize, score: scores[i]->0 }),
    decreases scores.len(),
{
    let e = Ranked { index: i as usize, score: scores[i]->0 };
    let last = scores.len() - 1;
    let all = candidates(scores, mask);
    if i == last {
        assert(all[all.len() - 1] == e);
    } else {
        candidates_are_complete(scores.drop_last(), mask, i);
        let rest = candidates(scores.drop_last(), mask);
        let k = choose|k: int| 0 <= k < rest.len() && rest[k] == e;
        assert(all[k] == e);
    }
}

proof fn rank_position_in_range(direction: Direction, ranked: Seq<Ranked>, x: Ranked)
    ensures
        0 <= rank_position(direction, ranked, x) <= ranked.len(),
        forall|k: int|
            0 <= k < rank_position(direction, ranked, x) ==> !direction.better(
                x.score,
                (#[trigger] ranked[k]).score,
            ),
        rank_position(direction, ranked, x) < ranked.len() ==> direction.better(
            x.score,
            ranked[rank_position(direction, ranked, x)].score,
        ),
    decreases ranked.len(),
{
    if ranked.len() > 0 {
        rank_position_in_range(direction, ranked.drop_last(), x);
        let p = rank_position(direction, ranked.drop_last(), x);
        if p < ranked.len() - 1 {
            assert(ranked.drop_last()[p] == ranked[p]);
        }
        assert forall|k: int| 0 <= k < rank_position(direction, ranked, x) implies !direction.better(
            x.score,
            (#[trigger] ranked[k]).score,
        ) by {
            if k < ranked.len() - 1 {
                assert(ranked.drop_last()[k] == ranked[k]);
            }
        }
    }
}

/// A ranking holds the same entries as what it ranks.
pub proof fn ranking_is_permutation(direction: Direction, entries: Seq<Ranked>)
    ensures
        ranking(direction, entries).len() == entries.len(),
        ranking(direction, entries).to_multiset() == entries.to_multiset(),
    decreases entries.len(),
{
    broadcast use vstd::seq_lib::group_to_multiset_ensures;

    if entries.len() > 0 {
        let init = entries.drop_last();
        let rest = ranking(direction, init);
        let x = entries.last();
        ranking_is_permutation(direction, init);
        rank_position_in_range(direction, rest, x);
        let p = rank_position(direction, rest, x);
        assert(rest.insert(p, x).to_multiset() =~= rest.to_multiset().insert(x));
        assert(init.push(x) =~= entries);
        assert(entries.to_multiset() =~= init.to_multiset().insert(x));
    }
}

/// No entry of a ranking is beaten by a later one.
pub open spec fn is_ranked(direction: Direction, s: Seq<Ranked>) -> bool {
    forall|j: int, k: int|
        0 <= j < k < s.len() ==> !direction.better((#[trigger] s[k]).score, (#[trigger] s[j]).score)
}

/// Every score in a list of entries is a number.
pub open spec fn all_numbers(s: Seq<Ranked>) -> bool {
    forall|k: int| 0 <= k < s.len() ==> !(#[trigger] s[k]).score.nan()
}

/// Entries with the same merit appear in the order of their positions.
pub open spec fn ties_in_order(direction: Direction, s: Seq<Ranked>) -> bool {
    forall|j: int, k: int|
        0 <= j < k < s.len() && !direction.better(
            (#[trigger] s[j]).score,
            (#[trigger] s[k]).score,
        ) && !direction.better(s[k].score, s[j].score) ==> s[j].index < s[k].index
}

/// A ranking goes from best to worst: no later entry beats an earlier one.
pub proof fn ranking_is_sorted(direction: Direction, entries: Seq<Ranked>)
    requires
        all_numbers(entries),
    ensures
        is_ranked(direction, ranking(direction, entries)),
        all_numbers(ranking(direction, entries)),
    decreases entries.len(),
{
    if entries.len() > 0 {
        let init = entries.drop_last();
        let rest = ranking(direction, init);
        let x = entries.last();
        assert(all_numbers(init)) by {
            assert forall|k: int| 0 <= k < init.len() implies !(#[trigger] init[k]).score.nan() by {
                assert(init[k] == entries[k]);
            }
        }
        assert(!x.score.nan()) by {
            assert(entries[entries.len() - 1] == x);
        }
        ranking_is_sorted(direction, init);
        rank_position_in_range(direction, rest, x);
        let p = rank_position(direction, rest, x);
        let s = rest.insert(p, x);
        assert forall|j: int, k: int| 0 <= j < k < s.len() implies !direction.better(
            (#[trigger] s[k]).score,
            (#[trigger] s[j]).score,
        ) by {
            if j == p {
                assert(s[k] == rest[k - 1]);
                if k - 1 > p {
                    assert(!direction.better(rest[k - 1].score, rest[p].score));
                }
            } else if k == p {
                assert(s[j] == rest[j]);
            } else {
                let jj = if j < p { j } else { j - 1 };
                let kk = if k < p { k } else { k - 1 };
                assert(s[j] == rest[jj]);
                assert(s[k] == rest[kk]);
            }
        }
        assert forall|k: int| 0 <= k < s.len() implies !(#[trigger] s[k]).score.nan() by {
            if k != p {
                let kk = if k < p { k } else { k - 1 };
                assert(s[k] == rest[kk]);
            }
        }
    }
}

/// A ranking is stable: entries that tie keep the order of their positions.
pub proof fn ranking_is_stable(direction: Direction, entries: Seq<Ranked>)
    requires
        all_numbers(entries),
        forall|j: int, k: int|
            0 <= j < k < entries.len() ==> (#[trigger] entries[j]).index < (
            #[trigger] entries[k]).index,
    ensures
        ties_in_order(direction, ranking(direction, entries)),
    decreases entries.len(),
{
    if entries.len() > 0 {
        let init = entries.drop_last();
        let rest = ranking(direction, init);
        let x = entries.last();
        assert(all_numbers(init)) by {
            assert forall|k: int| 0 <= k < init.len() implies !(#[trigger] init[k]).score.nan() by {
                assert(init[k] == entries[k]);
            }
        }
        assert(!x.score.nan()) by {
            assert(entries[entries.len() - 1] == x);
        }
        ranking_is_stable(direction, init);
        ranking_is_sorted(direction, init);
        ranking_members(direction, init);
        rank_position_in_range(direction, rest, x);
        let p = rank_position(direction, rest, x);
        let s = rest.insert(p, x);
        assert forall|k: int| 0 <= k < rest.len() implies (#[trigger] rest[k]).index < x.index by {
            assert(init.contains(rest[k]));
            let m = choose|m: int| 0 <= m < init.len() && init[m] == rest[k];
            assert(entries[m] == rest[k]);
        }
        assert forall|j: int, k: int|
            0 <= j < k < s.len() && !direction.better(
                (#[trigger] s[j]).score,
                (#[trigger] s[k]).score,
            ) && !direction.better(s[k].score, s[j].score) implies s[j].index < s[k].index by {
            if j == p {
                assert(s[k] == rest[k - 1]);
                assert(direction.better(x.score, rest[p].score));
                if k - 1 > p {
                    assert(!direction.better(rest[k - 1].score, rest[p].score));
                }
                assert(direction.better(x.score, rest[k - 1].score));
            } else if k == p {
                assert(s[j] == rest[j]);
            } else {
                let jj = if j < p { j } else { j - 1 };
                let kk = if k < p { k } else { k - 1 };
                assert(s[j] == rest[jj]);
                assert(s[k] == rest[kk]);
            }
        }
    }
}

/// The entries of a ranking are those it ranks, one for one.
pub proof fn ranking_members(direction: Direction, entries: Seq<Ranked>)
    ensures
        ranking(direction, entries).len() == entries.len(),
        forall|k: int|
            0 <= k < ranking(direction, entries).len() ==> entries.contains(
                #[trigger] ranking(direction, entries)[k],
            ),
        forall|k: int|
            0 <= k < entries.len() ==> ranking(direction, entries).contains(#[trigger] entries[k]),
    decreases entries.len(),
{
    broadcast use vstd::seq_lib::group_to_multiset_ensures;

    ranking_is_permutation(direction, entries);
    let r = ranking(direction, entries);
    assert forall|k: int| 0 <= k < r.len() implies entries.contains(#[trigger] r[k]) by {
        assert(r.contains(r[k]));
        assert(r.to_multiset().count(r[k]) > 0);
    }
    assert forall|k: int| 0 <= k < entries.len() implies r.contains(#[trigger] entries[k]) by {
        assert(entries.contains(entries[k]));
        assert(entries.to_multiset().count(entries[k]) > 0);
    }
}

/// The positions in a ranking of candidates are all different.
pub proof fn ranking_positions_are_distinct(direction: Direction, entries: Seq<Ranked>)
    requires
        forall|j: int, k: int|
            0 <= j < k < entries.len() ==> (#[trigger] entries[j]).index < (
            #[trigger] entries[k]).index,
    ensures
        positions(ranking(direction, entries)).no_duplicates(),
    decreases entries.len(),
{
    if entries.len() > 0 {
        let init = entries.drop_last();
        let rest = ranking(direction, init);
        let x = entries.last();
        assert forall|j: int, k: int| 0 <= j < k < init.len() implies (#[trigger] init[j]).index < (
        #[trigger] init[k]).index by {
            assert(init[j] == entries[j] && init[k] == entries[k]);
        }
        ranking_positions_are_distinct(direction, init);
        ranking_members(direction, init);
        rank_position_in_range(direction, rest, x);
        let p = rank_position(direction, rest, x);
        let s = rest.insert(p, x);
        assert forall|k: int| 0 <= k < rest.len() implies (#[trigger] rest[k]).index < x.index by {
            assert(init.contains(rest[k]));
            let m = choose|m: int| 0 <= m < init.len() && init[m] == rest[k];
            assert(entries[m] == rest[k]);
        }
        let ps = positions(s);
        let pr = positions(rest);
        assert forall|j: int, k: int| 0 <= j < ps.len() && 0 <= k < ps.len() && j != k implies ps[j]
            != ps[k] by {
            let jj = if j < p { j } else { j - 1 };
            let kk = if k < p { k } else { k - 1 };
            if j != p {
                assert(s[j] == rest[jj]);
                assert(pr[jj] == ps[j]);
            }
            if k != p {
                assert(s[k] == rest[kk]);
                assert(pr[kk] == ps[k]);
            }
        }
    }
}


// ── The elite guard ──────────────────────────────────────────────────────

/// Every elite is a live net with a verdict that is not demoted, and no net
/// holds two seats.
pub proof fn elites_are_sound(
    direction: Direction,
    elite_count: nat,
    scores: Seq<Option<Score>>,
    demoted: Seq<bool>,
)
    requires
        scores.len() <= usize::MAX,
        demoted.len() == scores.len(),
    ensures
        elites(direction, elite_count, scores, demoted).no_duplicates(),
        forall|k: int|
            0 <= k < elites(direction, elite_count, scores, demoted).len() ==> {
                let i = #[trigger] elites(direction, elite_count, scores, demoted)[k] as int;
                &&& i < scores.len()
                &&& scores[i] is Some
                &&& !demoted[i]
            },
{
    let c = candidates(scores, healthy_mask(demoted));
    let r = ranking(direction, c);
    candidates_are_sound(scores, healthy_mask(demoted));
    ranking_positions_are_distinct(direction, c);
    ranking_members(direction, c);
    let e = elites(direction, elite_count, scores, demoted);
    assert forall|k: int| 0 <= k < e.len() implies {
        let i = #[trigger] e[k] as int;
        &&& i < scores.len()
        &&& scores[i] is Some
        &&& !demoted[i]
    } by {
        assert(e[k] == positions(r)[k]);
        assert(positions(r)[k] == r[k].index);
        assert(c.contains(r[k]));
        let m = choose|m: int| 0 <= m < c.len() && c[m] == r[k];
        assert(c[m].index == r[k].index);
    }
}

/// The guard never covers the whole population: with any net alive, some net
/// stays cullable.
pub proof fn some_net_stays_cullable(
    direction: Direction,
    elite_count: nat,
    scores: Seq<Option<Score>>,
    demoted: Seq<bool>,
)
    requires
        0 < scores.len() <= usize::MAX,
        demoted.len() == scores.len(),
    ensures
        elites(direction, elite_count, scores, demoted).len() < scores.len(),
        exists|i: int|
            0 <= i < scores.len() && #[trigger] outside_mask(
                scores.len(),
                elites(direction, elite_count, scores, demoted),
            )[i],
{
    let e = elites(direction, elite_count, scores, demoted);
    elites_are_sound(direction, elite_count, scores, demoted);
    a_position_is_left(e, scores.len());
    let i = choose|i: int| 0 <= i < scores.len() && !e.contains(#[trigger] (i as usize));
    assert(outside_mask(scores.len(), e)[i]);
}

/// A list of fewer than `n` positions misses one below `n`.
pub proof fn a_position_is_left(e: Seq<usize>, n: nat)
    requires
        e.len() < n,
        n <= usize::MAX,
    ensures
        exists|i: int| 0 <= i < n && !e.contains(#[trigger] (i as usize)),
{
    if forall|i: int| 0 <= i < n ==> e.contains(#[trigger] (i as usize)) {
        let all = Seq::new(n, |i: int| i as usize);
        assert(all.no_duplicates());
        all.unique_seq_to_set();
        let a = all.to_set();
        let b = e.to_set();
        assert(a.subset_of(b)) by {
            assert forall|x: usize| a.contains(x) implies b.contains(x) by {
                let i = choose|i: int| 0 <= i < all.len() && all[i] == x;
                assert(e.contains(i as usize));
            }
        }
        vstd::seq_lib::seq_to_set_is_finite(e);
        vstd::set_lib::lemma_len_subset(a, b);
        e.lemma_cardinality_of_set();
        assert(false);
    }
}

/// No net outside the guard that is fit for it beats a net inside.
pub proof fn elites_lead(
    direction: Direction,
    elite_count: nat,
    scores: Seq<Option<Score>>,
    demoted: Seq<bool>,
    k: int,
    i: int,
)
    requires
        scores.len() <= usize::MAX,
        demoted.len() == scores.len(),
        comparable(scores),
        0 <= k < elites(direction, elite_count, scores, demoted).len(),
        0 <= i < scores.len(),
        scores[i] is Some,
        !demoted[i],
        !elites(direction, elite_count, scores, demoted).contains(i as usize),
    ensures
        !direction.better(
            scores[i]->0,
            scores[elites(direction, elite_count, scores, demoted)[k] as int]->0,
        ),
{
    let c = candidates(scores, healthy_mask(demoted));
    let r = ranking(direction, c);
    candidates_are_sound(scores, healthy_mask(demoted));
    candidates_are_complete(scores, healthy_mask(demoted), i);
    candidates_compare(scores, healthy_mask(demoted));
    ranking_members(direction, c);
    ranking_is_sorted(direction, c);
    let x = Ranked { index: i as usize, score: scores[i]->0 };
    let m = choose|m: int| 0 <= m < c.len() && c[m] == x;
    assert(r.contains(c[m]));
    let q = choose|q: int| 0 <= q < r.len() && r[q] == x;
    let e = elites(direction, elite_count, scores, demoted);
    assert(positions(r)[k] == r[k].index);
    assert(e[k] == positions(r)[k]);
    assert(c.contains(r[k]));
    let mk = choose|mk: int| 0 <= mk < c.len() && c[mk] == r[k];
    assert(scores[c[mk].index as int] == Some(c[mk].score));
    if q < e.len() {
        assert(e[q] == positions(r)[q]);
        assert(e[q] == i as usize);
        assert(e.contains(i as usize));
    }
}

proof fn candidates_compare(scores: Seq<Option<Score>>, mask: Seq<bool>)
    requires
        scores.len() <= usize::MAX,
        comparable(scores),
    ensures
        all_numbers(candidates(scores, mask)),
{
    candidates_are_sound(scores, mask);
    let c = candidates(scores, mask);
    assert forall|k: int| 0 <= k < c.len() implies !(#[trigger] c[k]).score.nan() by {
        assert(scores[c[k].index as int] == Some(c[k].score));
    }
}

/// The nets listed worst first are live, have a verdict, are outside the guard
/// and are listed once.
pub proof fn worst_are_unprotected(
    direction: Direction,
    scores: Seq<Option<Score>>,
    elite: Seq<usize>,
)
    requires
        scores.len() <= usize::MAX,
    ensures
        worst_first(direction, scores, elite).no_duplicates(),
        forall|k: int|
            0 <= k < worst_first(direction, scores, elite).len() ==> {
                let i = #[trigger] worst_first(direction, scores, elite)[k];
                &&& (i as int) < scores.len()
                &&& scores[i as int] is Some
                &&& !elite.contains(i)
            },
{
    let mask = outside_mask(scores.len(), elite);
    let c = candidates(scores, mask);
    let r = ranking(direction.flipped(), c);
    candidates_are_sound(scores, mask);
    ranking_positions_are_distinct(direction.flipped(), c);
    ranking_members(direction.flipped(), c);
    let w = worst_first(direction, scores, elite);
    assert forall|k: int| 0 <= k < w.len() implies {
        let i = #[trigger] w[k];
        &&& (i as int) < scores.len()
        &&& scores[i as int] is Some
        &&& !elite.contains(i)
    } by {
        assert(w[k] == r[k].index);
        assert(c.contains(r[k]));
        let m = choose|m: int| 0 <= m < c.len() && c[m] == r[k];
        assert(mask[c[m].index as int]);
    }
}

/// The first of the nets listed worst first is beaten by every other
/// unprotected net with a verdict, or ties with it.
pub proof fn worst_trails(
    direction: Direction,
    scores: Seq<Option<Score>>,
    elite: Seq<usize>,
    i: int,
)
    requires
        scores.len() <= usize::MAX,
        comparable(scores),
        worst_first(direction, scores, elite).len() > 0,
        0 <= i < scores.len(),
        scores[i] is Some,
        !elite.contains(i as usize),
    ensures
        !direction.better(scores[worst_first(direction, scores, elite)[0] as int]->0, scores[i]->0),
{
    let mask = outside_mask(scores.len(), elite);
    let c = candidates(scores, mask);
    let flipped = direction.flipped();
    let r = ranking(flipped, c);
    candidates_are_sound(scores, mask);
    candidates_are_complete(scores, mask, i);
    candidates_compare(scores, mask);
    ranking_members(flipped, c);
    ranking_is_sorted(flipped, c);
    let x = Ranked { index: i as usize, score: scores[i]->0 };
    let m = choose|m: int| 0 <= m < c.len() && c[m] == x;
    assert(r.contains(c[m]));
    let q = choose|q: int| 0 <= q < r.len() && r[q] == x;
    assert(worst_first(direction, scores, elite)[0] == r[0].index);
    assert(c.contains(r[0]));
    let m0 = choose|m0: int| 0 <= m0 < c.len() && c[m0] == r[0];
    assert(scores[c[m0].index as int] == Some(c[m0].score));
    if q > 0 {
        assert(!flipped.better(r[q].score, r[0].score));
    }
}

// ── Everyone but the best ────────────────────────────────────────────────

/// Whether some entry is better than `e`.
pub open spec fn is_beaten(direction: Direction, entries: Seq<Ranked>, e: Ranked) -> bool {
    exists|j: int|
        0 <= j < entries.len() && direction.better((#[trigger] entries[j]).score, e.score)
}

/// Whether some entry is worse than another.
pub open spec fn some_beaten(direction: Direction, entries: Seq<Ranked>) -> bool {
    exists|i: int|
        0 <= i < entries.len() && is_beaten(direction, entries, #[trigger] entries[i])
}

/// Whether an entry does not tie with the best: it is beaten, or no number.
pub open spec fn trails(direction: Direction, entries: Seq<Ranked>, e: Ranked) -> bool {
    e.score.nan() || is_beaten(direction, entries, e)
}

/// Those among the first `n` entries that do not tie with the best, in order.
pub open spec fn trailing(direction: Direction, entries: Seq<Ranked>, n: nat) -> Seq<Ranked>
    decreases n,
{
    if n == 0 {
        Seq::empty()
    } else {
        let rest = trailing(direction, entries, (n - 1) as nat);
        if trails(direction, entries, entries[n - 1]) {
            rest.push(entries[n - 1])
        } else {
            rest
        }
    }
}

/// The entries without those that tie with the best; all of them, if none is
/// worse than another.
pub open spec fn without_best(direction: Direction, entries: Seq<Ranked>) -> Seq<Ranked> {
    if some_beaten(direction, entries) {
        trailing(direction, entries, entries.len())
    } else {
        entries
    }
}

fn beats(direction: Direction, entries: &Vec<Ranked>, e: Ranked) -> (r: bool)
    ensures
        r == is_beaten(direction, entries@, e),
{
    let mut j: usize = 0;
    while j < entries.len()
        invariant
            j <= entries@.len(),
            forall|k: int| 0 <= k < j ==> !direction.better((#[trigger] entries@[k]).score, e.score),
        decreases entries@.len() - j,
    {
        if direction.is_better(entries[j].score, e.score) {
            return true;
        }
        j = j + 1;
    }
    false
}

/// Leaves out the entries that tie with the best, if some entry is worse.
pub fn drop_best(direction: Direction, entries: &Vec<Ranked>) -> (r: Vec<Ranked>)
    ensures
        r@ == without_best(direction, entries@),
{
    let mut out: Vec<Ranked> = Vec::new();
    let mut all: Vec<Ranked> = Vec::new();
    let mut found = false;
    let mut i: usize = 0;
    while i < entries.len()
        invariant
            i <= entries@.len(),
            all@ =~= entries@.take(i as int),
            out@ == trailing(direction, entries@, i as nat),
            found <==> exists|k: int|
                0 <= k < i && is_beaten(direction, entries@, #[trigger] entries@[k]),
        decreases entries@.len() - i,
    {
        let e = entries[i];
        let beaten = beats(direction, entries, e);
        if beaten || e.score.is_nan() {
            out.push(e);
        }
        if beaten {
            assert(is_beaten(direction, entries@, entries@[i as int]));
            found = true;
        }
        all.push(e);
        i = i + 1;
    }
    assert(all@ =~= entries@);
    if found {
        out
    } else {
        all
    }
}

proof fn trailing_entries(direction: Direction, entries: Seq<Ranked>, n: nat)
    requires
        n <= entries.len(),
    ensures
        forall|k: int|
            0 <= k < trailing(direction, entries, n).len() ==> {
                let e = #[trigger] trailing(direction, entries, n)[k];
                entries.contains(e) && trails(direction, entries, e)
            },
        forall|i: int|
            0 <= i < n && trails(direction, entries, #[trigger] entries[i]) ==> trailing(
                direction,
                entries,
                n,
            ).contains(entries[i]),
    decreases n,
{
    if n > 0 {
        trailing_entries(direction, entries, (n - 1) as nat);
        let rest = trailing(direction, entries, (n - 1) as nat);
        let all = trailing(direction, entries, n);
        assert forall|k: int| 0 <= k < all.len() implies entries.contains(#[trigger] all[k])
            && trails(direction, entries, all[k]) by {
            if k < rest.len() {
                assert(all[k] == rest[k]);
            } else {
                assert(all[k] == entries[n - 1]);
            }
        }
        assert forall|i: int|
            0 <= i < n && trails(direction, entries, #[trigger] entries[i]) implies all.contains(
            entries[i],
        ) by {
            if i < n - 1 {
                let k = choose|k: int| 0 <= k < rest.len() && rest[k] == entries[i];
                assert(all[k] == entries[i]);
            } else {
                assert(all[all.len() - 1] == entries[i]);
            }
        }
    }
}

/// Once some entry is worse than another, the best is left out and everyone
/// worse stays; somebody always stays.
pub proof fn the_best_is_left_out(direction: Direction, entries: Seq<Ranked>)
    ensures
        forall|k: int|
            0 <= k < without_best(direction, entries).len() ==> {
                let e = #[trigger] without_best(direction, entries)[k];
                &&& entries.contains(e)
                &&& some_beaten(direction, entries) && !e.score.nan() ==> is_beaten(
                    direction,
                    entries,
                    e,
                )
            },
        forall|i: int|
            0 <= i < entries.len() && is_beaten(direction, entries, #[trigger] entries[i])
                ==> without_best(direction, entries).contains(entries[i]),
        !some_beaten(direction, entries) ==> without_best(direction, entries) == entries,
        entries.len() > 0 ==> without_best(direction, entries).len() > 0,
{
    trailing_entries(direction, entries, entries.len());
    if some_beaten(direction, entries) {
        let i = choose|i: int|
            0 <= i < entries.len() && is_beaten(direction, entries, #[trigger] entries[i]);
        assert(without_best(direction, entries).contains(entries[i]));
    }
}

// ── Nobody is forgotten ──────────────────────────────────────────────────

/// The seats of the guard are filled as far as they can be: there are never more
/// than `elite_count` of them, never as many as nets, and as long as one is free
/// every net that is fit for it holds one.
pub proof fn the_seats_are_filled(
    direction: Direction,
    elite_count: nat,
    scores: Seq<Option<Score>>,
    demoted: Seq<bool>,
    i: int,
)
    requires
        scores.len() <= usize::MAX,
        demoted.len() == scores.len(),
    ensures
        ({
            let e = elites(direction, elite_count, scores, demoted);
            &&& e.len() <= elite_count
            &&& scores.len() > 0 ==> e.len() < scores.len()
            &&& e.len() < elite_count && e.len() + 1 < scores.len() && 0 <= i < scores.len()
                && scores[i] is Some && !demoted[i] ==> e.contains(i as usize)
        }),
{
    let mask = healthy_mask(demoted);
    let c = candidates(scores, mask);
    let r = ranking(direction, c);
    let e = elites(direction, elite_count, scores, demoted);
    if scores.len() > 0 {
        some_net_stays_cullable(direction, elite_count, scores, demoted);
    }
    if e.len() < elite_count && e.len() + 1 < scores.len() && 0 <= i < scores.len()
        && scores[i] is Some && !demoted[i] {
        candidates_are_complete(scores, mask, i);
        ranking_members(direction, c);
        let x = Ranked { index: i as usize, score: scores[i]->0 };
        let m = choose|m: int| 0 <= m < c.len() && c[m] == x;
        assert(r.contains(c[m]));
        let q = choose|q: int| 0 <= q < r.len() && r[q] == x;
        assert(positions(r)[q] == i as usize);
        assert(e[q] == i as usize);
    }
}

/// The protected nets stand best first.
pub proof fn elites_stand_best_first(
    direction: Direction,
    elite_count: nat,
    scores: Seq<Option<Score>>,
    demoted: Seq<bool>,
    j: int,
    k: int,
)
    requires
        scores.len() <= usize::MAX,
        demoted.len() == scores.len(),
        comparable(scores),
        0 <= j < k < elites(direction, elite_count, scores, demoted).len(),
    ensures
        ({
            let e = elites(direction, elite_count, scores, demoted);
            !direction.better(scores[e[k] as int]->0, scores[e[j] as int]->0)
        }),
{
    let mask = healthy_mask(demoted);
    let c = candidates(scores, mask);
    let r = ranking(direction, c);
    candidates_are_sound(scores, mask);
    candidates_compare(scores, mask);
    ranking_members(direction, c);
    ranking_is_sorted(direction, c);
    let e = elites(direction, elite_count, scores, demoted);
    assert(e[j] == positions(r)[j] && e[k] == positions(r)[k]);
    assert(positions(r)[j] == r[j].index && positions(r)[k] == r[k].index);
    assert(c.contains(r[j]) && c.contains(r[k]));
    let a = choose|a: int| 0 <= a < c.len() && c[a] == r[j];
    let b = choose|b: int| 0 <= b < c.len() && c[b] == r[k];
    assert(scores[c[a].index as int] == Some(c[a].score));
    assert(scores[c[b].index as int] == Some(c[b].score));
}

/// Every unprotected net with a verdict is listed among the worst first, and
/// nobody is listed behind a net that is better.
pub proof fn the_worst_list_is_whole(
    direction: Direction,
    scores: Seq<Option<Score>>,
    elite: Seq<usize>,
    i: int,
    j: int,
    k: int,
)
    requires
        scores.len() <= usize::MAX,
        comparable(scores),
    ensures
        ({
            let w = worst_first(direction, scores, elite);
            &&& 0 <= i < scores.len() && scores[i] is Some && !elite.contains(i as usize)
                ==> w.contains(i as usize)
            &&& 0 <= j < k < w.len() ==> !direction.better(
                scores[w[j] as int]->0,
                scores[w[k] as int]->0,
            )
        }),
{
    let mask = outside_mask(scores.len(), elite);
    let c = candidates(scores, mask);
    let flipped = direction.flipped();
    let r = ranking(flipped, c);
    let w = worst_first(direction, scores, elite);
    candidates_are_sound(scores, mask);
    candidates_compare(scores, mask);
    ranking_members(flipped, c);
    ranking_is_sorted(flipped, c);
    if 0 <= i < scores.len() && scores[i] is Some && !elite.contains(i as usize) {
        candidates_are_complete(scores, mask, i);
        let x = Ranked { index: i as usize, score: scores[i]->0 };
        let m = choose|m: int| 0 <= m < c.len() && c[m] == x;
        assert(r.contains(c[m]));
        let q = choose|q: int| 0 <= q < r.len() && r[q] == x;
        assert(w[q] == i as usize);
    }
    if 0 <= j < k < w.len() {
        assert(w[j] == r[j].index && w[k] == r[k].index);
        assert(c.contains(r[j]) && c.contains(r[k]));
        let a = choose|a: int| 0 <= a < c.len() && c[a] == r[j];
        let b = choose|b: int| 0 <= b < c.len() && c[b] == r[k];
        assert(scores[c[a].index as int] == Some(c[a].score));
        assert(scores[c[b].index as int] == Some(c[b].score));
    }
}

/// A flipped direction prefers the other of two, and flipping twice changes
/// nothing.
pub proof fn flipping_turns_around(direction: Direction, a: Score, b: Score)
    ensures
        direction.flipped() != direction,
        direction.flipped().flipped() == direction,
        direction.flipped().better(a, b) == direction.better(b, a),
{
}

} // verus!
