//! Turnover of the population: admissions, evictions, the cull to the elites.

use vstd::prelude::*;

use crate::config::{CrossCullPolicy, MutationCullPolicy};
use crate::net::Net;
use crate::race::{
    demoted_column, holds, in_hash_order, positions_outside, score_column, slot_finds,
    with_net, with_net_keeps_order, Race,
};
use crate::score::Score;

verus! {

/// Why a net left the population.
#[derive(Clone, Copy, Debug, PartialEq, Eq, Structural)]
pub enum CullReason {
    /// The worst net made room for a crossover child.
    Crossover,
    /// A drawn net made room for a crossover child.
    CrossoverRandom,
    /// A net that had fallen below its floor made room for an immigrant.
    Regressed,
    /// A net made room for an immigrant.
    ImmigrantSlot,
    /// The race is over and the net is not an elite.
    Pruned,
}

impl CullReason {
    /// The reason as it is recorded.
    pub open spec fn label_text(self) -> Seq<char> {
        match self {
            CullReason::Crossover => "crossover"@,
            CullReason::CrossoverRandom => "crossover-random"@,
            CullReason::Regressed => "regressed"@,
            CullReason::ImmigrantSlot => "immigrant-slot"@,
            CullReason::Pruned => "pruned"@,
        }
    }

    pub fn label(self) -> (r: &'static str)
        ensures
            r@ == self.label_text(),
    {
        match self {
            CullReason::Crossover => "crossover",
            CullReason::CrossoverRandom => "crossover-random",
            CullReason::Regressed => "regressed",
            CullReason::ImmigrantSlot => "immigrant-slot",
            CullReason::Pruned => "pruned",
        }
    }
}

/// The reason recorded for the victim of an immigrant.
pub open spec fn immigrant_reason(victim: Net) -> CullReason {
    if victim.demoted {
        CullReason::Regressed
    } else {
        CullReason::ImmigrantSlot
    }
}

/// The reason recorded for the victim of a crossover child.
pub open spec fn crossover_reason(policy: CrossCullPolicy) -> CullReason {
    match policy {
        CrossCullPolicy::Worst => CullReason::Crossover,
        CrossCullPolicy::Random => CullReason::CrossoverRandom,
    }
}

/// A net that left, with when and why.
#[derive(Debug)]
pub struct Tombstone {
    pub net: Net,
    pub culled_at_step: usize,
    pub reason: CullReason,
    /// The smoothed fitness at the end, 0 if there was no verdict.
    pub final_smoothed_fitness: Score,
}

/// The nets left after the net at `victim`, if any, makes room for `child`.
pub open spec fn replaced(nets: Seq<Net>, victim: Option<usize>, child: Net) -> Seq<Net> {
    with_net(
        match victim {
            Some(i) => nets.remove(i as int),
            None => nets,
        },
        child,
    )
}

/// The race once a crossover child has joined: one unprotected net made room for
/// it, if there was one.
pub open spec fn admitted(
    before: Race,
    after: Race,
    child: Net,
    policy: CrossCullPolicy,
    run_seed: u64,
    clock: usize,
) -> bool {
    let victim = before.crossover_victim_of(policy, run_seed, clock);
    &&& after.nets@ == replaced(before.nets@, victim, child)
    &&& after == (Race { nets: after.nets, culls: after.culls, ..before })
    &&& after.culls == before.culls + (if victim is Some {
        1int
    } else {
        0
    })
}

/// The race once a net made room for an immigrant; nothing changes if nobody
/// is alive.
pub open spec fn evicted(
    before: Race,
    after: Race,
    policy: MutationCullPolicy,
    run_seed: u64,
    clock: usize,
    roll: usize,
    pick: usize,
) -> bool {
    match before.mutation_victim_of(policy, run_seed, clock, roll, pick) {
        Some(i) => {
            &&& after.nets@ == before.nets@.remove(i as int)
            &&& after == (Race { nets: after.nets, culls: after.culls, ..before })
            &&& after.culls == before.culls + 1
        },
        None => after == before,
    }
}

/// The race once everyone but the champions is culled.
pub open spec fn pruned(before: Race, after: Race) -> bool {
    &&& after.nets@ == kept(before.nets@, before.pruner_keeps())
    &&& after == (Race { nets: after.nets, culls: after.culls, ..before })
    &&& after.culls == before.culls + positions_outside(
        before.nets@.len(),
        before.pruner_keeps(),
    ).len()
}

impl Race {
    /// Culls the net at a position and says when and why.
    pub fn cull_net(&mut self, i: usize, clock: usize, reason: CullReason) -> (r: Tombstone)
        requires
            old(self).well_formed(),
            i < old(self).nets@.len(),
            old(self).culls < usize::MAX,
        ensures
            final(self).well_formed(),
            final(self).nets@ == old(self).nets@.remove(i as int),
            final(self).culls == old(self).culls + 1,
            *final(self) == (Race {
                nets: final(self).nets,
                culls: final(self).culls,
                ..*old(self)
            }),
            r.net == old(self).nets@[i as int],
            r.culled_at_step == clock,
            r.reason == reason,
            r.final_smoothed_fitness == old(self).nets@[i as int].score_or_zero(),
    {
        let net = self.cull_at(i);
        let final_smoothed_fitness = net.smoothed_or_zero();
        Tombstone { net, culled_at_step: clock, reason, final_smoothed_fitness }
    }

    /// Takes in a crossover child that passed its trial: one unprotected net
    /// makes room for it, if there is one.
    pub fn admit_crossover(
        &mut self,
        child: Net,
        policy: CrossCullPolicy,
        run_seed: u64,
        clock: usize,
    ) -> (r: Option<Tombstone>)
        requires
            old(self).well_formed(),
            child.well_formed(old(self).window as nat),
            old(self).culls < usize::MAX,
        ensures
            final(self).well_formed(),
            admitted(*old(self), *final(self), child, policy, run_seed, clock),
            match old(self).crossover_victim_of(policy, run_seed, clock) {
                Some(i) => {
                    &&& old(self).unprotected(i)
                    &&& r matches Some(t)
                    &&& t.net == old(self).nets@[i as int]
                    &&& t.culled_at_step == clock
                    &&& t.reason == crossover_reason(policy)
                    &&& t.final_smoothed_fitness == old(self).nets@[i as int].score_or_zero()
                },
                None => r is None,
            },
    {
        let victim = self.select_crossover_victim(policy, run_seed, clock);
        let reason = match policy {
            CrossCullPolicy::Worst => CullReason::Crossover,
            CrossCullPolicy::Random => CullReason::CrossoverRandom,
        };
        let gone = match victim {
            Some(i) => Some(self.cull_net(i, clock, reason)),
            None => None,
        };
        self.insert(child);
        gone
    }

    /// Makes room for an immigrant. None only if nobody is alive.
    pub fn evict_for_immigrant(
        &mut self,
        policy: MutationCullPolicy,
        run_seed: u64,
        clock: usize,
        roll: usize,
        pick: usize,
    ) -> (r: Option<Tombstone>)
        requires
            old(self).well_formed(),
            old(self).culls < usize::MAX,
            roll < usize::MAX,
        ensures
            final(self).well_formed(),
            evicted(*old(self), *final(self), policy, run_seed, clock, roll, pick),
            match old(self).mutation_victim_of(policy, run_seed, clock, roll, pick) {
                Some(i) => {
                    &&& old(self).unprotected(i)
                    &&& r matches Some(t)
                    &&& t.net == old(self).nets@[i as int]
                    &&& t.culled_at_step == clock
                    &&& t.reason == immigrant_reason(old(self).nets@[i as int])
                    &&& t.final_smoothed_fitness == old(self).nets@[i as int].score_or_zero()
                },
                None => r is None && old(self).nets@.len() == 0,
            },
    {
        let victim = self.select_mutation_victim(policy, run_seed, clock, roll, pick);
        match victim {
            Some(i) => {
                let reason = if self.nets[i].demoted {
                    CullReason::Regressed
                } else {
                    CullReason::ImmigrantSlot
                };
                Some(self.cull_net(i, clock, reason))
            },
            None => None,
        }
    }

    /// Culls everyone but the champions, in order.
    pub fn prune(&mut self, clock: usize) -> (r: Vec<Tombstone>)
        requires
            old(self).well_formed(),
            old(self).culls + old(self).nets@.len() <= usize::MAX,
        ensures
            final(self).well_formed(),
            pruned(*old(self), *final(self)),
            r@.len() == positions_outside(old(self).nets@.len(), old(self).pruner_keeps()).len(),
            forall|k: int|
                0 <= k < r@.len() ==> (#[trigger] r@[k]).net == old(self).nets@[positions_outside(
                    old(self).nets@.len(),
                    old(self).pruner_keeps(),
                )[k] as int] && r@[k].culled_at_step == clock && r@[k].reason == CullReason::Pruned
                    && r@[k].final_smoothed_fitness == r@[k].net.score_or_zero(),
    {
        let victims = self.pruner_victims();
        let ghost before = self.nets@;
        let ghost keeps = self.pruner_keeps();
        let ghost start = *self;
        let mut out: Vec<Tombstone> = Vec::new();
        let mut k: usize = 0;
        proof {
            outside_positions_ascend(before.len(), keeps);
            assert(kept_after(before, keeps, 0) =~= before);
        }
        while k < victims.len()
            invariant
                k <= victims@.len(),
                victims@ == positions_outside(before.len(), keeps),
                positions_ascend(victims@, before.len()),
                self.well_formed(),
                self.nets@ == kept_after(before, keeps, k as int),
                self.nets@.len() == before.len() - k,
                *self == (Race { nets: self.nets, culls: self.culls, ..start }),
                start.nets@ == before,
                start.culls + before.len() <= usize::MAX,
                self.culls == start.culls + k,
                victims@.len() <= before.len(),
                out@.len() == k,
                forall|j: int|
                    0 <= j < k ==> (#[trigger] out@[j]).net == before[victims@[j] as int]
                        && out@[j].culled_at_step == clock && out@[j].reason == CullReason::Pruned
                        && out@[j].final_smoothed_fitness == out@[j].net.score_or_zero(),
            decreases victims@.len() - k,
        {
            let at: usize = victims[k] - k;
            proof {
                one_more_victim(before, keeps, k as int);
            }
            out.push(self.cull_net(at, clock, CullReason::Pruned));
            k = k + 1;
        }
        proof {
            all_victims_gone(before, keeps);
        }
        out
    }
}

// ── Culling a list of positions ──────────────────────────────────────────

/// The nets at positions inside `keeps`, in order.
pub open spec fn kept(nets: Seq<Net>, keeps: Seq<usize>) -> Seq<Net>
    decreases nets.len(),
{
    if nets.len() == 0 {
        Seq::empty()
    } else {
        let rest = kept(nets.drop_last(), keeps);
        if keeps.contains((nets.len() - 1) as usize) {
            rest.push(nets.last())
        } else {
            rest
        }
    }
}

/// The positions are below `n` and ascend.
pub open spec fn positions_ascend(s: Seq<usize>, n: nat) -> bool {
    &&& forall|k: int| 0 <= k < s.len() ==> (#[trigger] s[k]) < n && s[k] >= k
    &&& forall|j: int, k: int| 0 <= j < k < s.len() ==> (#[trigger] s[j]) < (#[trigger] s[k])
}

proof fn outside_positions_ascend(n: nat, chosen: Seq<usize>)
    requires
        n <= usize::MAX,
    ensures
        positions_ascend(positions_outside(n, chosen), n),
        positions_outside(n, chosen).len() <= n,
    decreases n,
{
    if n > 0 {
        outside_positions_ascend((n - 1) as nat, chosen);
    }
}

/// The nets left once the first `k` victims are gone: what is kept of the nets
/// up to the next victim, and all nets behind it.
spec fn kept_after(nets: Seq<Net>, keeps: Seq<usize>, k: int) -> Seq<Net> {
    let v = positions_outside(nets.len(), keeps);
    let cut = if k == 0 {
        0
    } else {
        v[k - 1] + 1
    };
    kept(nets.take(cut), keeps) + nets.skip(cut)
}

proof fn kept_of_prefix(nets: Seq<Net>, keeps: Seq<usize>, from: int, to: int)
    requires
        0 <= from <= to <= nets.len() <= usize::MAX,
        forall|i: int| from <= i < to ==> keeps.contains(#[trigger] (i as usize)),
    ensures
        kept(nets.take(to), keeps) == kept(nets.take(from), keeps) + nets.subrange(from, to),
    decreases to - from,
{
    if from == to {
        assert(nets.subrange(from, to) =~= Seq::empty());
        assert(kept(nets.take(from), keeps) + Seq::<Net>::empty() =~= kept(
            nets.take(from),
            keeps,
        ));
    } else {
        kept_of_prefix(nets, keeps, from, to - 1);
        assert(nets.take(to).drop_last() =~= nets.take(to - 1));
        assert(keeps.contains((to - 1) as usize));
        assert(nets.subrange(from, to) =~= nets.subrange(from, to - 1).push(nets[to - 1]));
        assert(kept(nets.take(to), keeps) =~= kept(nets.take(from), keeps) + nets.subrange(
            from,
            to,
        ));
    }
}

proof fn kept_len(nets: Seq<Net>, keeps: Seq<usize>)
    ensures
        kept(nets, keeps).len() + positions_outside(nets.len(), keeps).len() == nets.len(),
    decreases nets.len(),
{
    if nets.len() > 0 {
        kept_len(nets.drop_last(), keeps);
    }
}

proof fn outside_of_prefix(n: nat, m: nat, chosen: Seq<usize>)
    requires
        m <= n <= usize::MAX,
    ensures
        positions_outside(m, chosen).len() <= positions_outside(n, chosen).len(),
        positions_outside(m, chosen) == positions_outside(n, chosen).take(
            positions_outside(m, chosen).len() as int,
        ),
    decreases n,
{
    if m == n {
        assert(positions_outside(n, chosen).take(positions_outside(n, chosen).len() as int)
            =~= positions_outside(n, chosen));
    } else {
        outside_of_prefix((n - 1) as nat, m, chosen);
        let all = positions_outside(n, chosen);
        let rest = positions_outside((n - 1) as nat, chosen);
        let len = positions_outside(m, chosen).len() as int;
        assert(all.take(len) =~= rest.take(len));
    }
}

/// Between two neighbouring victims everything is kept.
proof fn between_victims(n: nat, keeps: Seq<usize>, k: int, i: int)
    requires
        n <= usize::MAX,
        0 <= k <= positions_outside(n, keeps).len(),
        0 <= i < n,
        k > 0 ==> i > positions_outside(n, keeps)[k - 1],
        k < positions_outside(n, keeps).len() ==> i < positions_outside(n, keeps)[k],
    ensures
        keeps.contains(i as usize),
{
    if !keeps.contains(i as usize) {
        let v = positions_outside(n, keeps);
        outside_positions_ascend(n, keeps);
        crate::race::outside_positions_are_listed(n, keeps, i);
        let m = choose|m: int| 0 <= m < v.len() && v[m] == i as usize;
        if m < k {
            if m < k - 1 {
                assert(v[m] < v[k - 1]);
            }
        } else if m > k {
            assert(v[k] < v[m]);
        }
    }
}

#[verifier::spinoff_prover]
#[verifier::rlimit(60)]
proof fn one_more_victim(nets: Seq<Net>, keeps: Seq<usize>, k: int)
    requires
        nets.len() <= usize::MAX,
        0 <= k < positions_outside(nets.len(), keeps).len(),
        kept_after(nets, keeps, k).len() == nets.len() - k,
    ensures
        ({
            let at = positions_outside(nets.len(), keeps)[k] - k;
            &&& 0 <= at < kept_after(nets, keeps, k).len()
            &&& kept_after(nets, keeps, k)[at] == nets[positions_outside(
                nets.len(),
                keeps,
            )[k] as int]
            &&& kept_after(nets, keeps, k + 1) == kept_after(nets, keeps, k).remove(at)
        }),
{
    let v = positions_outside(nets.len(), keeps);
    outside_positions_ascend(nets.len(), keeps);
    let cut = if k == 0 {
        0
    } else {
        v[k - 1] + 1
    };
    let next = v[k] as int;
    assert(cut <= next);
    assert forall|i: int| cut <= i < next implies keeps.contains(#[trigger] (i as usize)) by {
        between_victims(nets.len(), keeps, k, i);
    }
    kept_of_prefix(nets, keeps, cut, next);
    let head = kept(nets.take(cut), keeps);
    assert(head.len() == cut - k);
    victim_is_outside(nets.len(), keeps, k);
    assert(nets.take(next + 1).drop_last() =~= nets.take(next));
    assert(kept(nets.take(next + 1), keeps) == head + nets.subrange(cut, next));
    let now = kept_after(nets, keeps, k);
    let at = next - k;
    assert(now[at] == nets[next]);
    assert(kept_after(nets, keeps, k + 1) =~= now.remove(at));
}

proof fn victim_is_outside(n: nat, chosen: Seq<usize>, k: int)
    requires
        n <= usize::MAX,
        0 <= k < positions_outside(n, chosen).len(),
    ensures
        !chosen.contains(positions_outside(n, chosen)[k]),
    decreases n,
{
    if n > 0 {
        let rest = positions_outside((n - 1) as nat, chosen);
        if k < rest.len() {
            victim_is_outside((n - 1) as nat, chosen, k);
        }
    }
}

proof fn all_victims_gone(nets: Seq<Net>, keeps: Seq<usize>)
    requires
        nets.len() <= usize::MAX,
    ensures
        kept_after(nets, keeps, positions_outside(nets.len(), keeps).len() as int) == kept(
            nets,
            keeps,
        ),
{
    let v = positions_outside(nets.len(), keeps);
    let k = v.len() as int;
    outside_positions_ascend(nets.len(), keeps);
    let cut = if k == 0 {
        0
    } else {
        v[k - 1] + 1
    };
    assert forall|i: int| cut <= i < nets.len() implies keeps.contains(#[trigger] (i as usize)) by {
        between_victims(nets.len(), keeps, k, i);
    }
    kept_of_prefix(nets, keeps, cut, nets.len() as int);
    assert(nets.take(nets.len() as int) =~= nets);
    assert(nets.subrange(cut, nets.len() as int) =~= nets.skip(cut));
}

// ── What turnover keeps ──────────────────────────────────────────────────

proof fn removal_keeps_order(nets: Seq<Net>, i: int)
    requires
        in_hash_order(nets),
        0 <= i < nets.len(),
    ensures
        in_hash_order(nets.remove(i)),
{
    let after = nets.remove(i);
    assert forall|a: int, b: int| 0 <= a < b < after.len() implies crate::text::text_below(
        (#[trigger] after[a]).hash@,
        (#[trigger] after[b]).hash@,
    ) by {
        let aa = if a < i { a } else { a + 1 };
        let bb = if b < i { b } else { b + 1 };
        assert(after[a] == nets[aa] && after[b] == nets[bb]);
    }
}

/// Taking one net out leaves every other net in.
pub proof fn removal_keeps_others(nets: Seq<Net>, i: int, j: int)
    requires
        in_hash_order(nets),
        0 <= i < nets.len(),
        0 <= j < nets.len(),
        i != j,
    ensures
        in_hash_order(nets.remove(i)),
        holds(nets.remove(i), nets[j].hash@),
        !holds(nets.remove(i), nets[i].hash@),
{
    removal_keeps_order(nets, i);
    let after = nets.remove(i);
    let k = if j < i { j } else { j - 1 };
    assert(after[k] == nets[j]);
    slot_finds(after, nets[j].hash@);
    slot_finds(after, nets[i].hash@);
    if holds(after, nets[i].hash@) {
        let m = choose|m: int| 0 <= m < after.len() && (#[trigger] after[m]).hash@ == nets[i].hash@;
        let mm = if m < i { m } else { m + 1 };
        assert(after[m] == nets[mm]);
        crate::text::text_order_is_total(nets[i].hash@, nets[i].hash@);
    }
}

/// Putting a net in leaves every net in, and the new one is there.
pub proof fn insertion_keeps_all(nets: Seq<Net>, net: Net, h: Seq<char>)
    requires
        in_hash_order(nets),
    ensures
        in_hash_order(with_net(nets, net)),
        holds(with_net(nets, net), h) <==> holds(nets, h) || h == net.hash@,
        with_net(nets, net).len() == nets.len() + (if holds(nets, net.hash@) {
            0int
        } else {
            1int
        }),
{
    with_net_keeps_order(nets, net);
    let after = with_net(nets, net);
    let p = crate::race::slot(nets, net.hash@);
    slot_finds(nets, h);
    slot_finds(after, h);
    if holds(nets, h) {
        let j = choose|j: int| 0 <= j < nets.len() && (#[trigger] nets[j]).hash@ == h;
        if holds(nets, net.hash@) {
            assert(after[j].hash@ == h);
        } else {
            let k = if j < p { j } else { j + 1 };
            assert(after[k] == nets[j]);
        }
    }
    if h == net.hash@ {
        assert(after[p].hash@ == h);
    }
    if holds(after, h) {
        let m = choose|m: int| 0 <= m < after.len() && (#[trigger] after[m]).hash@ == h;
        if m != p {
            if holds(nets, net.hash@) {
                assert(after[m] == nets[m]);
            } else {
                let k = if m < p { m } else { m - 1 };
                assert(after[m] == nets[k]);
            }
        }
    }
}

/// A newcomer is in as it came, in the place of whoever had its hash, and every
/// other net is as it was.
pub proof fn a_newcomer_changes_nobody(nets: Seq<Net>, net: Net, j: int)
    requires
        in_hash_order(nets),
    ensures
        with_net(nets, net).contains(net),
        0 <= j < nets.len() && nets[j].hash@ != net.hash@ ==> with_net(nets, net).contains(nets[j]),
        0 <= j < nets.len() && nets[j].hash@ == net.hash@ && nets[j] != net ==> !with_net(
            nets,
            net,
        ).contains(nets[j]),
{
    with_net_keeps_order(nets, net);
    let after = with_net(nets, net);
    let p = crate::race::slot(nets, net.hash@);
    slot_finds(nets, net.hash@);
    assert(after[p] == net);
    if 0 <= j < nets.len() {
        if nets[j].hash@ != net.hash@ {
            if holds(nets, net.hash@) {
                assert(after[j] == nets[j]);
            } else {
                let k = if j < p { j } else { j + 1 };
                assert(after[k] == nets[j]);
            }
        } else if nets[j] != net && after.contains(nets[j]) {
            let m = choose|m: int| 0 <= m < after.len() && after[m] == nets[j];
            assert(m == p) by {
                if m < p {
                    assert(crate::text::text_below(after[m].hash@, after[p].hash@));
                    crate::text::text_order_is_total(after[m].hash@, after[p].hash@);
                }
                if p < m {
                    assert(crate::text::text_below(after[p].hash@, after[m].hash@));
                    crate::text::text_order_is_total(after[p].hash@, after[m].hash@);
                }
            }
        }
    }
}

/// A child that replaces a net leaves the population as large as it was.
pub proof fn replacement_keeps_size(nets: Seq<Net>, victim: usize, child: Net)
    requires
        in_hash_order(nets),
        victim < nets.len(),
        !holds(nets, child.hash@),
    ensures
        replaced(nets, Some(victim), child).len() == nets.len(),
        in_hash_order(replaced(nets, Some(victim), child)),
        holds(replaced(nets, Some(victim), child), child.hash@),
{
    removal_keeps_order(nets, victim as int);
    let left = nets.remove(victim as int);
    slot_finds(left, child.hash@);
    slot_finds(nets, child.hash@);
    if holds(left, child.hash@) {
        let m = choose|m: int| 0 <= m < left.len() && (#[trigger] left[m]).hash@ == child.hash@;
        let mm = if m < victim { m } else { m + 1 };
        assert(left[m] == nets[mm]);
    }
    insertion_keeps_all(left, child, child.hash@);
}

/// No elite leaves when an unprotected net makes room for a child.
pub proof fn elites_survive_replacement(race: Race, victim: usize, child: Net, k: int)
    requires
        race.well_formed(),
        race.unprotected(victim),
        0 <= k < race.elite_set().len(),
        race.nets@.len() <= usize::MAX,
    ensures
        holds(
            replaced(race.nets@, Some(victim), child),
            race.nets@[race.elite_set()[k] as int].hash@,
        ),
{
    crate::ranking::elites_are_sound(
        race.direction,
        race.elite_count as nat,
        score_column(race.nets@),
        demoted_column(race.nets@),
    );
    let e = race.elite_set()[k];
    assert(race.elite_set().contains(e));
    assert(e != victim);
    removal_keeps_others(race.nets@, victim as int, e as int);
    insertion_keeps_all(
        race.nets@.remove(victim as int),
        child,
        race.nets@[e as int].hash@,
    );
}

/// The pruner keeps exactly the champions: as many nets as there are seats for,
/// or as many as have a verdict.
pub proof fn pruner_keeps_the_champions(race: Race)
    requires
        race.nets@.len() <= usize::MAX,
    ensures
        kept(race.nets@, race.pruner_keeps()).len() == race.champion_ranking().len(),
        forall|k: int|
            0 <= k < race.champion_ranking().len() ==> kept(race.nets@, race.pruner_keeps()).contains(
                race.nets@[(#[trigger] race.champion_ranking()[k]).index as int],
            ),
{
    let scores = score_column(race.nets@);
    let mask = crate::ranking::all_pass(race.nets@.len());
    let c = crate::ranking::candidates(scores, mask);
    crate::ranking::candidates_are_sound(scores, mask);
    crate::ranking::ranking_members(race.direction, c);
    crate::ranking::ranking_positions_are_distinct(race.direction, c);
    let all = race.live_ranking();
    let top = race.champion_ranking();
    let keeps = race.pruner_keeps();
    assert forall|k: int| 0 <= k < keeps.len() implies (#[trigger] keeps[k]) < race.nets@.len() by {
        assert(keeps[k] == all[k].index);
        assert(c.contains(all[k]));
        let m = choose|m: int| 0 <= m < c.len() && c[m] == all[k];
        assert(c[m].index < scores.len());
    }
    assert(keeps.no_duplicates()) by {
        assert forall|a: int, b: int| 0 <= a < keeps.len() && 0 <= b < keeps.len() && a != b implies keeps[a]
            != keeps[b] by {
            assert(keeps[a] == crate::ranking::positions(all)[a]);
            assert(keeps[b] == crate::ranking::positions(all)[b]);
        }
    }
    kept_counts(race.nets@, keeps);
    assert forall|k: int| 0 <= k < top.len() implies kept(race.nets@, keeps).contains(
        race.nets@[(#[trigger] top[k]).index as int],
    ) by {
        assert(keeps[k] == top[k].index);
        kept_holds(race.nets@, keeps, keeps[k] as int);
    }
}

proof fn kept_holds(nets: Seq<Net>, keeps: Seq<usize>, i: int)
    requires
        0 <= i < nets.len() <= usize::MAX,
        keeps.contains(i as usize),
    ensures
        kept(nets, keeps).contains(nets[i]),
    decreases nets.len(),
{
    let all = kept(nets, keeps);
    if i == nets.len() - 1 {
        assert(all[all.len() - 1] == nets[i]);
    } else {
        kept_holds(nets.drop_last(), keeps, i);
        let rest = kept(nets.drop_last(), keeps);
        let k = choose|k: int| 0 <= k < rest.len() && rest[k] == nets.drop_last()[i];
        assert(all[k] == nets[i]);
    }
}

/// Keeping `m` different positions keeps `m` nets.
proof fn kept_counts(nets: Seq<Net>, keeps: Seq<usize>)
    requires
        nets.len() <= usize::MAX,
        keeps.no_duplicates(),
        forall|k: int| 0 <= k < keeps.len() ==> (#[trigger] keeps[k]) < nets.len(),
    ensures
        kept(nets, keeps).len() == keeps.len(),
    decreases nets.len(),
{
    if nets.len() == 0 {
        if keeps.len() > 0 {
            assert(keeps[0] < 0);
        }
    } else {
        let last = (nets.len() - 1) as usize;
        let rest = nets.drop_last();
        if keeps.contains(last) {
            let p = choose|p: int| 0 <= p < keeps.len() && keeps[p] == last;
            let fewer = keeps.remove(p);
            assert forall|k: int| 0 <= k < fewer.len() implies (#[trigger] fewer[k]) < rest.len() by {
                let kk = if k < p { k } else { k + 1 };
                assert(fewer[k] == keeps[kk]);
            }
            assert(fewer.no_duplicates());
            kept_counts(rest, fewer);
            same_keeps(rest, keeps, fewer, p);
        } else {
            assert forall|k: int| 0 <= k < keeps.len() implies (#[trigger] keeps[k]) < rest.len() by {
                assert(keeps.contains(keeps[k]));
            }
            kept_counts(rest, keeps);
        }
    }
}

proof fn same_keeps(nets: Seq<Net>, keeps: Seq<usize>, fewer: Seq<usize>, p: int)
    requires
        0 <= p < keeps.len(),
        fewer == keeps.remove(p),
        keeps[p] >= nets.len(),
        nets.len() <= usize::MAX,
    ensures
        kept(nets, keeps) == kept(nets, fewer),
    decreases nets.len(),
{
    if nets.len() > 0 {
        let i = (nets.len() - 1) as usize;
        same_keeps(nets.drop_last(), keeps, fewer, p);
        if keeps.contains(i) {
            let m = choose|m: int| 0 <= m < keeps.len() && keeps[m] == i;
            let mm = if m < p { m } else { m - 1 };
            assert(fewer[mm] == i);
        }
        if fewer.contains(i) {
            let m = choose|m: int| 0 <= m < fewer.len() && fewer[m] == i;
            let mm = if m < p { m } else { m + 1 };
            assert(keeps[mm] == i);
        }
    }
}

// ── What the turnover comes to ───────────────────────────────────────────

/// A child that is admitted is in. If a net made room for it, that one is gone
/// and the cull is counted; everybody else stays, and nobody else comes.
pub proof fn an_admitted_child_is_in(
    before: Race,
    after: Race,
    child: Net,
    policy: CrossCullPolicy,
    run_seed: u64,
    clock: usize,
    j: int,
)
    requires
        before.well_formed(),
        admitted(before, after, child, policy, run_seed, clock),
        before.crossover_victim_of(policy, run_seed, clock) matches Some(i) ==> i
            < before.nets@.len(),
        !holds(before.nets@, child.hash@),
    ensures
        after.nets@.contains(child),
        match before.crossover_victim_of(policy, run_seed, clock) {
            Some(i) => {
                &&& !holds(after.nets@, before.nets@[i as int].hash@)
                &&& after.nets@.len() == before.nets@.len()
                &&& after.culls == before.culls + 1
                &&& 0 <= j < before.nets@.len() && j != i ==> after.nets@.contains(before.nets@[j])
            },
            None => {
                &&& after.nets@.len() == before.nets@.len() + 1
                &&& after.culls == before.culls
                &&& 0 <= j < before.nets@.len() ==> after.nets@.contains(before.nets@[j])
            },
        },
        after == (Race { nets: after.nets, culls: after.culls, ..before }),
{
    let nets = before.nets@;
    match before.crossover_victim_of(policy, run_seed, clock) {
        Some(i) => {
            replacement_keeps_size(nets, i, child);
            removal_keeps_order(nets, i as int);
            let left = nets.remove(i as int);
            slot_finds(nets, child.hash@);
            assert(nets[i as int].hash@ != child.hash@);
            insertion_keeps_all(left, child, nets[i as int].hash@);
            other_hashes_differ(nets, i as int);
            if 0 <= j < nets.len() && j != i {
                let k = if j < i { j } else { j - 1 };
                assert(left[k] == nets[j] && nets[j].hash@ != child.hash@);
                a_newcomer_changes_nobody(left, child, k);
            }
            a_newcomer_changes_nobody(left, child, 0);
        },
        None => {
            insertion_keeps_all(nets, child, child.hash@);
            slot_finds(nets, child.hash@);
            if 0 <= j < nets.len() {
                assert(nets[j].hash@ != child.hash@);
            }
            a_newcomer_changes_nobody(nets, child, j);
        },
    }
}

proof fn other_hashes_differ(nets: Seq<Net>, i: int)
    requires
        in_hash_order(nets),
        0 <= i < nets.len(),
    ensures
        !holds(nets.remove(i), nets[i].hash@),
{
    removal_keeps_order(nets, i);
    let left = nets.remove(i);
    slot_finds(left, nets[i].hash@);
    if holds(left, nets[i].hash@) {
        let m = choose|m: int| 0 <= m < left.len() && (#[trigger] left[m]).hash@ == nets[i].hash@;
        let mm = if m < i { m } else { m + 1 };
        assert(left[m] == nets[mm]);
        crate::text::text_order_is_total(nets[i].hash@, nets[i].hash@);
    }
}

/// A net that makes room for an immigrant is gone and counted as culled, and
/// everybody else stays; with anybody alive, somebody does.
pub proof fn an_evicted_net_is_gone(
    before: Race,
    after: Race,
    policy: MutationCullPolicy,
    run_seed: u64,
    clock: usize,
    roll: usize,
    pick: usize,
    j: int,
)
    requires
        before.well_formed(),
        evicted(before, after, policy, run_seed, clock, roll, pick),
        before.mutation_victim_of(policy, run_seed, clock, roll, pick) matches Some(i) ==> i
            < before.nets@.len(),
    ensures
        match before.mutation_victim_of(policy, run_seed, clock, roll, pick) {
            Some(i) => {
                &&& !holds(after.nets@, before.nets@[i as int].hash@)
                &&& after.nets@.len() == before.nets@.len() - 1
                &&& after.culls == before.culls + 1
                &&& 0 <= j < before.nets@.len() && j != i ==> after.nets@.contains(before.nets@[j])
            },
            None => after == before,
        },
        after == (Race { nets: after.nets, culls: after.culls, ..before }),
{
    if let Some(i) = before.mutation_victim_of(policy, run_seed, clock, roll, pick) {
        other_hashes_differ(before.nets@, i as int);
        if 0 <= j < before.nets@.len() && j != i {
            let k = if j < i { j } else { j - 1 };
            assert(after.nets@[k] == before.nets@[j]);
        }
    }
}

/// A net stands in the champions' ranking of a race.
pub open spec fn is_a_champion(race: Race, net: Net) -> bool {
    exists|k: int|
        0 <= k < race.champion_ranking().len() && net == race.nets@[(
        #[trigger] race.champion_ranking()[k]).index as int]
}

/// The pruner leaves exactly the champions, each of them, and counts everybody
/// else as culled.
pub proof fn pruning_leaves_the_champions(before: Race, after: Race, j: int)
    requires
        before.nets@.len() <= usize::MAX,
        pruned(before, after),
        0 <= j < before.nets@.len(),
    ensures
        after.nets@.contains(before.nets@[j]) <== (exists|k: int|
            0 <= k < before.champion_ranking().len() && (
            #[trigger] before.champion_ranking()[k]).index == j),
        after.nets@.len() == before.champion_ranking().len(),
        after.culls - before.culls == before.nets@.len() - after.nets@.len(),
        forall|x: int|
            0 <= x < after.nets@.len() ==> is_a_champion(before, #[trigger] after.nets@[x]),
        after == (Race { nets: after.nets, culls: after.culls, ..before }),
{
    pruner_keeps_the_champions(before);
    let keeps = before.pruner_keeps();
    let top = before.champion_ranking();
    kept_and_culled(before.nets@, keeps);
    if exists|k: int| 0 <= k < top.len() && (#[trigger] top[k]).index == j {
        let k = choose|k: int| 0 <= k < top.len() && (#[trigger] top[k]).index == j;
        assert(keeps[k] == j);
        kept_holds(before.nets@, keeps, j);
    }
    assert forall|x: int| 0 <= x < after.nets@.len() implies is_a_champion(
        before,
        #[trigger] after.nets@[x],
    ) by {
        kept_come_from(before.nets@, keeps, x);
        let i = choose|i: int|
            0 <= i < before.nets@.len() && keeps.contains(i as usize) && after.nets@[x]
                == #[trigger] before.nets@[i];
        let k = choose|k: int| 0 <= k < keeps.len() && keeps[k] == i as usize;
        assert(before.champion_ranking()[k].index == keeps[k]);
    }
}

proof fn kept_and_culled(nets: Seq<Net>, keeps: Seq<usize>)
    ensures
        kept(nets, keeps).len() + positions_outside(nets.len(), keeps).len() == nets.len(),
    decreases nets.len(),
{
    if nets.len() > 0 {
        kept_and_culled(nets.drop_last(), keeps);
    }
}

proof fn kept_come_from(nets: Seq<Net>, keeps: Seq<usize>, x: int)
    requires
        0 <= x < kept(nets, keeps).len(),
    ensures
        exists|i: int|
            0 <= i < nets.len() && keeps.contains(i as usize) && kept(nets, keeps)[x]
                == #[trigger] nets[i],
    decreases nets.len(),
{
    let rest = kept(nets.drop_last(), keeps);
    if x < rest.len() {
        kept_come_from(nets.drop_last(), keeps, x);
        let i = choose|i: int|
            0 <= i < nets.drop_last().len() && keeps.contains(i as usize) && rest[x]
                == #[trigger] nets.drop_last()[i];
        assert(nets[i] == nets.drop_last()[i]);
    } else {
        assert(nets[nets.len() - 1] == kept(nets, keeps)[x]);
    }
}

/// The reason that is recorded says why a net left: a demoted net that makes
/// room for an immigrant regressed, and the two cull policies of a crossover
/// are told apart.
pub proof fn the_reason_says_why(victim: Net)
    ensures
        immigrant_reason(victim) == CullReason::Regressed <==> victim.demoted,
        immigrant_reason(victim) == CullReason::ImmigrantSlot <==> !victim.demoted,
        crossover_reason(CrossCullPolicy::Worst) == CullReason::Crossover,
        crossover_reason(CrossCullPolicy::Random) == CullReason::CrossoverRandom,
{
}

} // verus!
