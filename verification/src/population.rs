//! The first population: no topology twice, if it can be helped.
//!
//! Every draw of a topology is a function of its ordinal alone. The first
//! population takes the draws with ordinals below its size; a draw that repeats
//! an earlier one is replaced by a spare, from the ordinals right behind.

use vstd::prelude::*;

use crate::config::{DimRange, RaceConfig};
use crate::seeds::{
    between_draw, derive_seed, derived_seed, draw_genome, draw_hidden_count, genes_fit, genome_draw,
    GenePools, NodeGenes,
};
use crate::text::same_text;

verus! {

// ── One topology ─────────────────────────────────────────────────────────

/// Everything that is drawn for a random topology: its seed and the genes of
/// its hidden nodes.
#[derive(Debug)]
pub struct Blueprint {
    pub seed: u64,
    pub hidden: Vec<NodeGenes>,
}

/// The pools of a run whose resolved pools have these sizes. Without a range
/// the dimensions go from 4 to 8, and a stride of 0 counts as 1.
pub fn gene_pools(
    cfg: &RaceConfig,
    activations: usize,
    combines: usize,
    standardizes: usize,
) -> (r: GenePools)
    ensures
        r == (GenePools {
            dims: match cfg.hidden_dim_pool {
                Some(d) => d,
                None => DimRange { start: 4, end: 8 },
            },
            stride: if cfg.hidden_dim_stride < 1 {
                1
            } else {
                cfg.hidden_dim_stride
            },
            activations,
            combines,
            standardizes,
        }),
{
    GenePools {
        dims: match cfg.hidden_dim_pool {
            Some(d) => d,
            None => DimRange { start: 4, end: 8 },
        },
        stride: if cfg.hidden_dim_stride < 1 {
            1
        } else {
            cfg.hidden_dim_stride
        },
        activations,
        combines,
        standardizes,
    }
}

/// The genes of the topology with a seed: the number of nodes is drawn first,
/// then the genes of each node.
pub open spec fn drawn_genes(pools: GenePools, min: usize, max: usize, seed: u64) -> Seq<NodeGenes> {
    let count = between_draw(seed, min, max);
    genome_draw(pools, count.0 as nat, count.1).0
}

/// Draws the topology with an ordinal. It depends on the run and the ordinal
/// alone.
pub fn draw_topology(
    pools: GenePools,
    min: usize,
    max: usize,
    run_seed: u64,
    ordinal: usize,
) -> (r: Blueprint)
    requires
        pools.drawable(),
        min <= max,
    ensures
        r.seed == derived_seed(run_seed, ordinal),
        r.hidden@ == drawn_genes(pools, min, max, derived_seed(run_seed, ordinal)),
        min <= r.hidden@.len() <= max,
        forall|i: int| 0 <= i < r.hidden@.len() ==> genes_fit(pools, #[trigger] r.hidden@[i]),
{
    let seed: u64 = derive_seed(run_seed, ordinal);
    let draw = draw_hidden_count(seed, min, max);
    let (hidden, _) = draw_genome(pools, draw.hidden_nodes, draw.state);
    Blueprint { seed, hidden }
}

// ── The population ───────────────────────────────────────────────────────

/// How many spares are tried for a repeated topology.
pub const SPARE_DRAWS: usize = 8;

/// Which draw a member of the population is.
#[derive(Clone, Copy, Debug, PartialEq, Eq, Structural)]
pub enum Pick {
    /// The draw with this ordinal of the first batch.
    Initial(usize),
    /// The spare with this number.
    Spare(usize),
}

/// The hash of a draw; none for a topology that has no hash.
pub open spec fn hash_of(draws: Seq<Option<String>>, i: int) -> Option<Seq<char>> {
    match draws[i] {
        Some(h) => Some(h@),
        None => None,
    }
}

/// The hash of a member.
pub open spec fn picked_hash(
    initial: Seq<Option<String>>,
    spare: Seq<Option<String>>,
    p: Pick,
) -> Option<Seq<char>> {
    match p {
        Pick::Initial(i) => hash_of(initial, i as int),
        Pick::Spare(k) => hash_of(spare, k as int),
    }
}

/// How many of the spares are tried.
pub open spec fn tried(spare: Seq<Option<String>>) -> nat {
    if spare.len() < SPARE_DRAWS {
        spare.len()
    } else {
        SPARE_DRAWS as nat
    }
}

/// The first spare, among the first `n`, whose hash is not among `seen`.
pub open spec fn fresh_spare(spare: Seq<Option<String>>, n: nat, seen: Seq<Seq<char>>) -> Option<
    int,
>
    decreases n,
{
    if n == 0 {
        None
    } else {
        match fresh_spare(spare, (n - 1) as nat, seen) {
            Some(k) => Some(k),
            None => match hash_of(spare, n - 1) {
                Some(h) => if seen.contains(h) {
                    None
                } else {
                    Some(n - 1)
                },
                None => None,
            },
        }
    }
}

/// The members chosen from the first `n` draws, and the hashes seen on the way.
pub open spec fn chosen(
    initial: Seq<Option<String>>,
    spare: Seq<Option<String>>,
    n: nat,
) -> (Seq<Pick>, Seq<Seq<char>>)
    decreases n,
{
    if n == 0 {
        (Seq::empty(), Seq::empty())
    } else {
        let (picks, seen) = chosen(initial, spare, (n - 1) as nat);
        let i = n - 1;
        match hash_of(initial, i) {
            None => (picks.push(Pick::Initial(i as usize)), seen),
            Some(h) => if !seen.contains(h) {
                (picks.push(Pick::Initial(i as usize)), seen.push(h))
            } else {
                match fresh_spare(spare, tried(spare), seen) {
                    Some(k) => (
                        picks.push(Pick::Spare(k as usize)),
                        seen.push(hash_of(spare, k)->0),
                    ),
                    None => (picks.push(Pick::Initial(i as usize)), seen),
                }
            },
        }
    }
}

fn is_seen(seen: &Vec<String>, h: &str) -> (r: bool)
    ensures
        r == crate::text::texts(seen@).contains(h@),
{
    let mut i: usize = 0;
    while i < seen.len()
        invariant
            i <= seen@.len(),
            forall|j: int| 0 <= j < i ==> (#[trigger] seen@[j])@ != h@,
        decreases seen@.len() - i,
    {
        if same_text(seen[i].as_str(), h) {
            assert(crate::text::texts(seen@)[i as int] == h@);
            return true;
        }
        i = i + 1;
    }
    assert forall|j: int| 0 <= j < crate::text::texts(seen@).len() implies crate::text::texts(
        seen@,
    )[j] != h@ by {
        assert(crate::text::texts(seen@)[j] == seen@[j]@);
    }
    false
}

fn find_fresh_spare(spare: &Vec<Option<String>>, seen: &Vec<String>) -> (r: Option<usize>)
    ensures
        match r {
            Some(k) => k < spare@.len() && fresh_spare(
                spare@,
                tried(spare@),
                crate::text::texts(seen@),
            ) == Some(k as int) && spare@[k as int] is Some,
            None => fresh_spare(spare@, tried(spare@), crate::text::texts(seen@)) is None,
        },
{
    let mut found: Option<usize> = None;
    let mut k: usize = 0;
    while k < spare.len() && k < SPARE_DRAWS
        invariant
            k <= tried(spare@),
            match found {
                Some(j) => j < k && fresh_spare(spare@, k as nat, crate::text::texts(seen@)) == Some(
                    j as int,
                ) && spare@[j as int] is Some,
                None => fresh_spare(spare@, k as nat, crate::text::texts(seen@)) is None,
            },
        decreases tried(spare@) - k,
    {
        if found.is_none() {
            if let Some(h) = &spare[k] {
                if !is_seen(seen, h.as_str()) {
                    found = Some(k);
                }
            }
        }
        k = k + 1;
    }
    found
}

/// Chooses the members of the first population. `initial` holds the hashes of
/// the first batch, `spare` those of the spares; a draw without a hash is kept
/// for whoever builds it to complain about. The population never shrinks: a
/// repeated topology that none of the spares tried can replace is kept.
pub fn choose_population(initial: &Vec<Option<String>>, spare: &Vec<Option<String>>) -> (r: Vec<
    Pick,
>)
    ensures
        r@ == chosen(initial@, spare@, initial@.len()).0,
        r@.len() == initial@.len(),
{
    let mut picks: Vec<Pick> = Vec::new();
    let mut seen: Vec<String> = Vec::new();
    let mut i: usize = 0;
    assert(crate::text::texts(seen@) =~= Seq::empty());
    while i < initial.len()
        invariant
            i <= initial@.len(),
            picks@.len() == i,
            (picks@, crate::text::texts(seen@)) == chosen(initial@, spare@, i as nat),
        decreases initial@.len() - i,
    {
        let ghost before = seen@;
        match &initial[i] {
            None => {
                picks.push(Pick::Initial(i));
            },
            Some(h) => {
                if !is_seen(&seen, h.as_str()) {
                    picks.push(Pick::Initial(i));
                    seen.push(h.clone());
                    assert(crate::text::texts(seen@) =~= crate::text::texts(before).push(h@));
                } else {
                    match find_fresh_spare(spare, &seen) {
                        Some(k) => {
                            picks.push(Pick::Spare(k));
                            if let Some(s) = &spare[k] {
                                seen.push(s.clone());
                                assert(crate::text::texts(seen@) =~= crate::text::texts(
                                    before,
                                ).push(s@));
                            }
                        },
                        None => {
                            picks.push(Pick::Initial(i));
                        },
                    }
                }
            },
        }
        i = i + 1;
    }
    picks
}

/// The seed of a member.
pub open spec fn pick_ordinal(pop_size: usize, p: Pick) -> int {
    match p {
        Pick::Initial(i) => i as int,
        Pick::Spare(k) => pop_size + k,
    }
}

/// The seed of the topology a member is drawn from.
pub fn pick_seed(run_seed: u64, pop_size: usize, p: Pick) -> (r: u64)
    requires
        pick_ordinal(pop_size, p) <= usize::MAX,
    ensures
        r == derived_seed(run_seed, pick_ordinal(pop_size, p) as usize),
{
    match p {
        Pick::Initial(i) => derive_seed(run_seed, i),
        Pick::Spare(k) => derive_seed(run_seed, pop_size + k),
    }
}

/// Member `n` repeats an earlier one: its hash was seen and no spare was left.
pub open spec fn is_kept_repeat(
    initial: Seq<Option<String>>,
    spare: Seq<Option<String>>,
    n: int,
) -> bool {
    let seen = chosen(initial, spare, n as nat).1;
    &&& hash_of(initial, n) is Some
    &&& seen.contains(hash_of(initial, n)->0)
    &&& fresh_spare(spare, tried(spare), seen) is None
}

proof fn fresh_spare_is_fresh(spare: Seq<Option<String>>, n: nat, seen: Seq<Seq<char>>)
    requires
        n <= spare.len(),
    ensures
        fresh_spare(spare, n, seen) matches Some(k) ==> 0 <= k < n && hash_of(spare, k) is Some
            && !seen.contains(hash_of(spare, k)->0),
    decreases n,
{
    if n > 0 {
        fresh_spare_is_fresh(spare, (n - 1) as nat, seen);
    }
}

proof fn chosen_grows(initial: Seq<Option<String>>, spare: Seq<Option<String>>, m: nat, n: nat)
    requires
        m <= n <= initial.len(),
    ensures
        chosen(initial, spare, m).0.len() == m,
        chosen(initial, spare, n).0.len() == n,
        chosen(initial, spare, m).0 =~= chosen(initial, spare, n).0.take(m as int),
        forall|h: Seq<char>|
            chosen(initial, spare, m).1.contains(h) ==> #[trigger] chosen(
                initial,
                spare,
                n,
            ).1.contains(h),
    decreases n,
{
    if n > 0 {
        if m < n {
            chosen_grows(initial, spare, m, (n - 1) as nat);
        } else {
            chosen_grows(initial, spare, (n - 1) as nat, (n - 1) as nat);
        }
        let rest = chosen(initial, spare, (n - 1) as nat).1;
        let all = chosen(initial, spare, n).1;
        assert forall|h: Seq<char>| rest.contains(h) implies #[trigger] all.contains(h) by {
            let k = choose|k: int| 0 <= k < rest.len() && rest[k] == h;
            assert(all[k] == h);
        }
    }
}

proof fn chosen_hash_is_seen(initial: Seq<Option<String>>, spare: Seq<Option<String>>, i: int)
    requires
        0 <= i < initial.len() <= usize::MAX,
        spare.len() <= usize::MAX,
        picked_hash(initial, spare, chosen(initial, spare, (i + 1) as nat).0[i]) is Some,
    ensures
        chosen(initial, spare, (i + 1) as nat).1.contains(
            picked_hash(initial, spare, chosen(initial, spare, (i + 1) as nat).0[i])->0,
        ),
{
    let (picks, seen) = chosen(initial, spare, i as nat);
    chosen_grows(initial, spare, i as nat, (i + 1) as nat);
    fresh_spare_is_fresh(spare, tried(spare), seen);
    let after = chosen(initial, spare, (i + 1) as nat);
    if after.1.len() > seen.len() {
        assert(after.1[seen.len() as int] == picked_hash(initial, spare, after.0[i])->0);
    }
}

/// No two members of the first population are the same topology, unless the
/// later one is a repeat that no spare could replace.
pub proof fn members_are_distinct(
    initial: Seq<Option<String>>,
    spare: Seq<Option<String>>,
    i: int,
    j: int,
)
    requires
        0 <= i < j < initial.len() <= usize::MAX,
        spare.len() <= usize::MAX,
        !is_kept_repeat(initial, spare, j),
    ensures
        ({
            let all = chosen(initial, spare, initial.len()).0;
            let a = picked_hash(initial, spare, all[i]);
            let b = picked_hash(initial, spare, all[j]);
            a is Some && b is Some ==> a != b
        }),
{
    let all = chosen(initial, spare, initial.len()).0;
    chosen_grows(initial, spare, (i + 1) as nat, initial.len());
    chosen_grows(initial, spare, (j + 1) as nat, initial.len());
    chosen_grows(initial, spare, (i + 1) as nat, j as nat);
    chosen_grows(initial, spare, j as nat, (j + 1) as nat);
    let seen = chosen(initial, spare, j as nat).1;
    fresh_spare_is_fresh(spare, tried(spare), seen);
    assert(all[i] == chosen(initial, spare, (i + 1) as nat).0[i]);
    assert(all[j] == chosen(initial, spare, (j + 1) as nat).0[j]);
    if picked_hash(initial, spare, all[i]) is Some {
        chosen_hash_is_seen(initial, spare, i);
        assert(seen.contains(picked_hash(initial, spare, all[i])->0));
    }
}

/// A population without repeats is taken as drawn.
pub proof fn distinct_draws_are_kept(
    initial: Seq<Option<String>>,
    spare: Seq<Option<String>>,
    n: nat,
    k: int,
)
    requires
        n <= initial.len() <= usize::MAX,
        forall|i: int, j: int|
            0 <= i < j < initial.len() ==> hash_of(initial, i) is Some && #[trigger] hash_of(
                initial,
                i,
            ) != #[trigger] hash_of(initial, j),
        initial.len() > 0 ==> hash_of(initial, initial.len() - 1) is Some,
        0 <= k < n,
    ensures
        chosen(initial, spare, n).0.len() == n,
        chosen(initial, spare, n).0[k] == Pick::Initial(k as usize),
        chosen(initial, spare, n).1.len() == n,
        chosen(initial, spare, n).1[k] == hash_of(initial, k)->0,
    decreases n,
{
    let (picks, seen) = chosen(initial, spare, (n - 1) as nat);
    if n > 1 {
        distinct_draws_are_kept(initial, spare, (n - 1) as nat, if k < n - 1 { k } else { 0 });
        assert(hash_of(initial, n - 1) is Some) by {
            if n < initial.len() {
                assert(hash_of(initial, n - 1) != hash_of(initial, n as int));
            }
        }
        if seen.contains(hash_of(initial, n - 1)->0) {
            let m = choose|m: int| 0 <= m < seen.len() && seen[m] == hash_of(initial, n - 1)->0;
            distinct_draws_are_kept(initial, spare, (n - 1) as nat, m);
            assert(hash_of(initial, m) != hash_of(initial, n - 1));
        }
    } else {
        assert(hash_of(initial, 0) is Some) by {
            if 1 < initial.len() {
                assert(hash_of(initial, 0) != hash_of(initial, 1));
            }
        }
        assert(seen =~= Seq::empty());
    }
}

/// One of the first `n` members has this hash.
pub open spec fn has_member(
    initial: Seq<Option<String>>,
    spare: Seq<Option<String>>,
    members: Seq<Pick>,
    n: int,
    h: Seq<char>,
) -> bool {
    exists|j: int| 0 <= j < n && #[trigger] picked_hash(initial, spare, members[j]) == Some(h)
}

proof fn the_seen_are_the_members(
    initial: Seq<Option<String>>,
    spare: Seq<Option<String>>,
    n: nat,
    h: Seq<char>,
)
    requires
        n <= initial.len() <= usize::MAX,
        spare.len() <= usize::MAX,
    ensures
        chosen(initial, spare, n).0.len() == n,
        chosen(initial, spare, n).1.contains(h) <==> has_member(
            initial,
            spare,
            chosen(initial, spare, n).0,
            n as int,
            h,
        ),
    decreases n,
{
    if n > 0 {
        let i = n - 1;
        the_seen_are_the_members(initial, spare, i as nat, h);
        let (picks, seen) = chosen(initial, spare, i as nat);
        let (all, now) = chosen(initial, spare, n);
        fresh_spare_is_fresh(spare, tried(spare), seen);
        assert(all == picks.push(all[i]));
        assert(now.len() > seen.len() ==> now == seen.push(now[seen.len() as int]));
        assert(now.len() > seen.len() ==> picked_hash(initial, spare, all[i]) == Some(
            now[seen.len() as int],
        ));
        if now.len() == seen.len() && picked_hash(initial, spare, all[i]) == Some(h) {
            assert(seen.contains(h));
        }
        if now.contains(h) && !seen.contains(h) {
            let m = choose|m: int| 0 <= m < now.len() && now[m] == h;
            assert(m == seen.len()) by {
                if m < seen.len() {
                    assert(seen[m] == h);
                }
            }
            assert(picked_hash(initial, spare, all[i]) == Some(h));
        }
        if seen.contains(h) {
            let m = choose|m: int| 0 <= m < seen.len() && seen[m] == h;
            assert(now[m] == h);
            let j = choose|j: int|
                0 <= j < i && #[trigger] picked_hash(initial, spare, picks[j]) == Some(h);
            assert(all[j] == picks[j]);
            assert(picked_hash(initial, spare, all[j]) == Some(h));
        }
        if has_member(initial, spare, all, n as int, h) {
            let j = choose|j: int|
                0 <= j < n && #[trigger] picked_hash(initial, spare, all[j]) == Some(h);
            if j < i {
                assert(all[j] == picks[j]);
                assert(picked_hash(initial, spare, picks[j]) == Some(h));
            } else if now.len() > seen.len() {
                assert(now[seen.len() as int] == h);
            }
        }
    }
}

proof fn the_first_fresh_spare_is_found(
    spare: Seq<Option<String>>,
    n: nat,
    seen: Seq<Seq<char>>,
    k: int,
)
    requires
        0 <= k < n <= spare.len(),
        hash_of(spare, k) is Some,
        !seen.contains(hash_of(spare, k)->0),
        forall|j: int|
            0 <= j < k && (#[trigger] hash_of(spare, j)) is Some ==> seen.contains(
                hash_of(spare, j)->0,
            ),
    ensures
        fresh_spare(spare, n, seen) == Some(k),
    decreases n,
{
    fresh_spare_is_fresh(spare, (n - 1) as nat, seen);
    if k < n - 1 {
        the_first_fresh_spare_is_found(spare, (n - 1) as nat, seen, k);
    } else {
        match fresh_spare(spare, (n - 1) as nat, seen) {
            Some(j) => {
                assert(hash_of(spare, j) is Some);
            },
            None => {},
        }
    }
}

/// A draw has a hash, and one of the first `n` members has it too.
pub open spec fn repeats_a_member(
    initial: Seq<Option<String>>,
    spare: Seq<Option<String>>,
    members: Seq<Pick>,
    n: int,
    draw: Option<String>,
) -> bool {
    draw is Some && has_member(initial, spare, members, n, draw->0@)
}

/// A draw has a hash that none of the first `n` members has.
pub open spec fn is_unlike_the_members(
    initial: Seq<Option<String>>,
    spare: Seq<Option<String>>,
    members: Seq<Pick>,
    n: int,
    draw: Option<String>,
) -> bool {
    draw is Some && !has_member(initial, spare, members, n, draw->0@)
}

/// A draw is kept unless it has the hash of an earlier member. One that has is
/// replaced by the first of the first eight spares that no earlier member has;
/// if there is none, it is kept after all.
pub proof fn a_repeat_takes_the_first_fresh_spare(
    initial: Seq<Option<String>>,
    spare: Seq<Option<String>>,
    i: int,
    k: int,
)
    requires
        0 <= i < initial.len() <= usize::MAX,
        spare.len() <= usize::MAX,
    ensures
        ({
            let all = chosen(initial, spare, initial.len()).0;
            &&& all.len() == initial.len()
            &&& !repeats_a_member(initial, spare, all, i, initial[i]) ==> all[i] == Pick::Initial(
                i as usize,
            )
            &&& repeats_a_member(initial, spare, all, i, initial[i]) && 0 <= k < 8 && k
                < spare.len() && is_unlike_the_members(initial, spare, all, i, spare[k]) && (forall|
                j: int,
            |
                0 <= j < k ==> !is_unlike_the_members(initial, spare, all, i, #[trigger] spare[j]))
                ==> all[i] == Pick::Spare(k as usize)
            &&& repeats_a_member(initial, spare, all, i, initial[i]) && (forall|j: int|
                0 <= j < 8 && j < spare.len() ==> !is_unlike_the_members(
                    initial,
                    spare,
                    all,
                    i,
                    #[trigger] spare[j],
                )) ==> all[i] == Pick::Initial(i as usize)
        }),
{
    let all = chosen(initial, spare, initial.len()).0;
    let (picks, seen) = chosen(initial, spare, i as nat);
    chosen_grows(initial, spare, i as nat, initial.len());
    chosen_grows(initial, spare, (i + 1) as nat, initial.len());
    the_seen_are_the_members(initial, spare, i as nat, Seq::empty());
    the_seen_are_the_members(initial, spare, (i + 1) as nat, Seq::empty());
    the_seen_are_the_members(initial, spare, initial.len(), Seq::empty());
    assert forall|h: Seq<char>| #[trigger] seen.contains(h) == has_member(
        initial,
        spare,
        all,
        i,
        h,
    ) by {
        the_seen_are_the_members(initial, spare, i as nat, h);
        assert forall|j: int| 0 <= j < i implies all[j] == #[trigger] picks[j] by {}
        if has_member(initial, spare, all, i, h) {
            let j = choose|j: int|
                0 <= j < i && #[trigger] picked_hash(initial, spare, all[j]) == Some(h);
            assert(picked_hash(initial, spare, picks[j]) == Some(h));
        }
        if has_member(initial, spare, picks, i, h) {
            let j = choose|j: int|
                0 <= j < i && #[trigger] picked_hash(initial, spare, picks[j]) == Some(h);
            assert(picked_hash(initial, spare, all[j]) == Some(h));
        }
    }
    assert(all[i] == chosen(initial, spare, (i + 1) as nat).0[i]);
    let found = fresh_spare(spare, tried(spare), seen);
    fresh_spare_is_fresh(spare, tried(spare), seen);
    if 0 <= k < 8 && k < spare.len() && is_unlike_the_members(initial, spare, all, i, spare[k]) && (
    forall|j: int|
        0 <= j < k ==> !is_unlike_the_members(initial, spare, all, i, #[trigger] spare[j])) {
        assert(hash_of(spare, k) == Some(spare[k]->0@));
        assert forall|j: int| 0 <= j < k && (#[trigger] hash_of(spare, j)) is Some implies
            seen.contains(hash_of(spare, j)->0) by {
            assert(!is_unlike_the_members(initial, spare, all, i, spare[j]));
        }
        the_first_fresh_spare_is_found(spare, tried(spare), seen, k);
    }
    if found is Some {
        assert(is_unlike_the_members(initial, spare, all, i, spare[found->0]));
    }
}

/// No two members share the seed that they are drawn from.
pub proof fn members_have_their_own_seeds(run_seed: u64, pop_size: usize, a: Pick, b: Pick)
    requires
        a != b,
        a matches Pick::Initial(i) ==> i < pop_size,
        b matches Pick::Initial(i) ==> i < pop_size,
        pick_ordinal(pop_size, a) <= usize::MAX,
        pick_ordinal(pop_size, b) <= usize::MAX,
    ensures
        derived_seed(run_seed, pick_ordinal(pop_size, a) as usize) != derived_seed(
            run_seed,
            pick_ordinal(pop_size, b) as usize,
        ),
{
    crate::seeds::derived_seeds_are_distinct(
        run_seed,
        pick_ordinal(pop_size, a) as usize,
        pick_ordinal(pop_size, b) as usize,
    );
}

/// A topology has as many hidden nodes as the generator says, and each node is
/// drawn where the one before it left off.
pub proof fn a_topology_is_drawn(pools: GenePools, min: usize, max: usize, seed: u64, i: nat)
    requires
        min <= max,
    ensures
        ({
            let count = crate::seeds::u64_draw(seed, min as u64, max as u64);
            let genes = drawn_genes(pools, min, max, seed);
            &&& count.0 <= max ==> genes.len() == count.0
            &&& i < genes.len() ==> genes[i as int] == crate::seeds::node_draw(
                pools,
                genome_draw(pools, i, count.1).1,
            ).0
        }),
{
    let count = between_draw(seed, min, max);
    let genes = drawn_genes(pools, min, max, seed);
    crate::seeds::a_genome_goes_on(pools, count.0 as nat, 0, count.1);
    if i < genes.len() {
        let left = (count.0 - i) as nat;
        crate::seeds::a_genome_goes_on(pools, i, left, count.1);
        assert(i + left == count.0 as nat);
        let mid = genome_draw(pools, i, count.1).1;
        crate::seeds::a_genome_goes_on(pools, 1, (left - 1) as nat, mid);
        assert(1 + (left - 1) as nat == left);
    }
}

} // verus!
