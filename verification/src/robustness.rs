//! How topologies hold up over the generations.

use vstd::prelude::*;

use crate::history::{csv_line, make_line, push_owned, push_text};
use crate::score::Score;
use crate::text::{decimal, decimal_text, same_text, texts};

verus! {

/// How a topology has done over the generations. The mean is computed by the
/// caller.
#[derive(Clone, Copy, Debug, PartialEq, Eq, Structural)]
pub struct Robustness {
    pub count: usize,
    pub min_fitness: Score,
    pub max_fitness: Score,
    pub mean: Score,
    pub param_count: usize,
}

/// The entry of a topology that was seen once.
pub open spec fn seen_once(fitness: Score, param_count: usize) -> Robustness {
    Robustness { count: 1, min_fitness: fitness, max_fitness: fitness, mean: fitness, param_count }
}

/// The entry of a topology that was seen again, with its mean then.
pub open spec fn seen_again(e: Robustness, fitness: Score, mean: Score) -> Robustness {
    Robustness {
        count: (e.count + 1) as usize,
        min_fitness: if fitness.below(e.min_fitness) {
            fitness
        } else {
            e.min_fitness
        },
        max_fitness: if e.max_fitness.below(fitness) {
            fitness
        } else {
            e.max_fitness
        },
        mean,
        ..e
    }
}

impl Robustness {
    /// A topology that was seen once.
    pub fn new(fitness: Score, param_count: usize) -> (r: Robustness)
        ensures
            r == seen_once(fitness, param_count),
    {
        Robustness { count: 1, min_fitness: fitness, max_fitness: fitness, mean: fitness, param_count }
    }

    /// The topology was seen again; `mean` is its mean with this fitness.
    pub fn update(&mut self, fitness: Score, mean: Score)
        requires
            old(self).count < usize::MAX,
        ensures
            *final(self) == seen_again(*old(self), fitness, mean),
    {
        self.count = self.count + 1;
        self.mean = mean;
        if fitness.less_than(self.min_fitness) {
            self.min_fitness = fitness;
        }
        if self.max_fitness.less_than(fitness) {
            self.max_fitness = fitness;
        }
    }
}

/// `a` is reported before `b`: it was seen more often, or as often with a
/// greater mean.
pub open spec fn reported_before(a: Robustness, b: Robustness) -> bool {
    a.count > b.count || (a.count == b.count && b.mean.below(a.mean))
}

/// Where an entry goes in a report: behind everything that it does not come
/// before.
pub open spec fn report_slot(sorted: Seq<Robustness>, e: Robustness) -> int
    decreases sorted.len(),
{
    if sorted.len() > 0 && reported_before(e, sorted.last()) {
        report_slot(sorted.drop_last(), e)
    } else {
        sorted.len() as int
    }
}

/// The entries in the order of the report.
pub open spec fn report_order(entries: Seq<Robustness>) -> Seq<Robustness>
    decreases entries.len(),
{
    if entries.len() == 0 {
        Seq::empty()
    } else {
        let rest = report_order(entries.drop_last());
        rest.insert(report_slot(rest, entries.last()), entries.last())
    }
}

proof fn report_slot_is_inside(sorted: Seq<Robustness>, e: Robustness)
    ensures
        0 <= report_slot(sorted, e) <= sorted.len(),
    decreases sorted.len(),
{
    if sorted.len() > 0 && reported_before(e, sorted.last()) {
        report_slot_is_inside(sorted.drop_last(), e);
    }
}

/// Sorts entries for the report; the places in `entries` come out, in order.
pub fn sort_report(entries: &Vec<Robustness>) -> (r: Vec<usize>)
    ensures
        r@.len() == entries@.len(),
        forall|k: int| 0 <= k < r@.len() ==> (#[trigger] r@[k]) < entries@.len(),
        r@.map_values(|i: usize| entries@[i as int]) == report_order(entries@),
{
    let mut out: Vec<usize> = Vec::new();
    let mut n: usize = 0;
    let ghost pick = |i: usize| entries@[i as int];
    assert(entries@.take(0) =~= Seq::empty());
    assert(out@.map_values(pick) =~= Seq::empty());
    while n < entries.len()
        invariant
            n <= entries@.len(),
            pick == (|i: usize| entries@[i as int]),
            out@.len() == n,
            forall|k: int| 0 <= k < out@.len() ==> (#[trigger] out@[k]) < n,
            out@.map_values(pick) == report_order(entries@.take(n as int)),
        decreases entries@.len() - n,
    {
        let ghost done = out@.map_values(pick);
        let e = entries[n];
        assert(entries@.take(n + 1).drop_last() =~= entries@.take(n as int));
        let mut k: usize = out.len();
        assert(done.take(k as int) =~= done);
        let mut searching = true;
        while k > 0 && searching
            invariant
                k <= out@.len(),
                out@.len() == n,
                n < entries@.len(),
                e == entries@[n as int],
                pick == (|i: usize| entries@[i as int]),
                done == out@.map_values(pick),
                forall|j: int| 0 <= j < out@.len() ==> (#[trigger] out@[j]) < n,
                report_slot(done.take(k as int), e) == report_slot(done, e),
                !searching ==> k > 0 && !reported_before(e, done[k - 1]),
            decreases
                k,
                if searching {
                    1int
                } else {
                    0int
                },
        {
            let o: usize = out[k - 1];
            let other = entries[o];
            assert(done.take(k as int).last() == other);
            assert(done.take(k as int).drop_last() =~= done.take(k - 1));
            let before = e.count > other.count || (e.count == other.count && other.mean.less_than(
                e.mean,
            ));
            if before {
                k = k - 1;
            } else {
                searching = false;
            }
        }
        proof {
            if k > 0 {
                assert(done.take(k as int).last() == done[k - 1]);
            }
            assert(report_slot(done.take(k as int), e) == k);
        }
        out.insert(k, n);
        assert(out@.map_values(pick) =~= done.insert(k as int, e));
        n = n + 1;
    }
    assert(entries@.take(entries@.len() as int) =~= entries@);
    out
}

/// A report is in order: if no mean is a NaN, nothing stands behind an entry
/// that should come before it.
pub proof fn reports_are_in_order(entries: Seq<Robustness>, i: int, j: int)
    requires
        0 <= i < j < entries.len(),
        forall|k: int| 0 <= k < entries.len() ==> !(#[trigger] entries[k]).mean.nan(),
    ensures
        report_order(entries).len() == entries.len(),
        !reported_before(report_order(entries)[j], report_order(entries)[i]),
    decreases entries.len(),
{
    let front = entries.drop_last();
    let e = entries.last();
    let rest = report_order(front);
    let s = report_slot(rest, e);
    assert forall|k: int| 0 <= k < front.len() implies !(#[trigger] front[k]).mean.nan() by {
        assert(front[k] == entries[k]);
    }
    report_keeps_entries(front);
    report_slot_is_inside(rest, e);
    report_slot_splits(rest, e);
    assert(entries[entries.len() - 1] == e);
    if i < s && j < s {
        reports_are_in_order(front, i, j);
    } else if i < s && j == s {
        if i < s - 1 {
            reports_are_in_order(front, i, s - 1);
        }
        assert(!reported_before(e, rest[s - 1]));
    } else if i < s {
        reports_are_in_order(front, i, j - 1);
    } else if i == s {
        assert(reported_before(e, rest[j - 1]));
    } else {
        reports_are_in_order(front, i - 1, j - 1);
    }
}

proof fn report_keeps_entries(entries: Seq<Robustness>)
    requires
        forall|k: int| 0 <= k < entries.len() ==> !(#[trigger] entries[k]).mean.nan(),
    ensures
        report_order(entries).len() == entries.len(),
        forall|k: int|
            0 <= k < report_order(entries).len() ==> !(#[trigger] report_order(
                entries,
            )[k]).mean.nan(),
    decreases entries.len(),
{
    if entries.len() > 0 {
        let front = entries.drop_last();
        assert forall|k: int| 0 <= k < front.len() implies !(#[trigger] front[k]).mean.nan() by {
            assert(front[k] == entries[k]);
        }
        report_keeps_entries(front);
        let rest = report_order(front);
        report_slot_is_inside(rest, entries.last());
        assert(entries[entries.len() - 1] == entries.last());
    }
}

proof fn report_slot_splits(sorted: Seq<Robustness>, e: Robustness)
    ensures
        forall|j: int|
            report_slot(sorted, e) <= j < sorted.len() ==> reported_before(e, #[trigger] sorted[j]),
        report_slot(sorted, e) > 0 ==> !reported_before(e, sorted[report_slot(sorted, e) - 1]),
    decreases sorted.len(),
{
    if sorted.len() > 0 && reported_before(e, sorted.last()) {
        let rest = sorted.drop_last();
        report_slot_splits(rest, e);
        report_slot_is_inside(rest, e);
        assert forall|j: int|
            report_slot(sorted, e) <= j < sorted.len() implies reported_before(
            e,
            #[trigger] sorted[j],
        ) by {
            if j < rest.len() {
                assert(rest[j] == sorted[j]);
            }
        }
    }
}

// ── The table ────────────────────────────────────────────────────────────

/// One entry per topology, under a text that is the same for equal topologies.
#[derive(Debug)]
pub struct RobustnessTable {
    pub keys: Vec<String>,
    pub entries: Vec<Robustness>,
}

/// The place of a key among the first `n`; `n` if it is not there.
pub open spec fn key_place(keys: Seq<Seq<char>>, key: Seq<char>) -> int
    decreases keys.len(),
{
    if keys.len() == 0 {
        0
    } else if key_place(keys.drop_last(), key) < keys.len() - 1 {
        key_place(keys.drop_last(), key)
    } else if keys.last() == key {
        keys.len() - 1
    } else {
        keys.len() as int
    }
}

proof fn place_is_right(keys: Seq<Seq<char>>, key: Seq<char>)
    ensures
        0 <= key_place(keys, key) <= keys.len(),
        key_place(keys, key) < keys.len() ==> keys[key_place(keys, key)] == key,
        key_place(keys, key) == keys.len() ==> !keys.contains(key),
    decreases keys.len(),
{
    if keys.len() > 0 {
        place_is_right(keys.drop_last(), key);
        if keys.contains(key) && key_place(keys, key) == keys.len() {
            let k = choose|k: int| 0 <= k < keys.len() && keys[k] == key;
            if k < keys.len() - 1 {
                assert(keys.drop_last()[k] == key);
            }
        }
    }
}

impl RobustnessTable {
    /// Every key has one entry, and none occurs twice.
    pub open spec fn well_formed(self) -> bool {
        &&& self.keys@.len() == self.entries@.len()
        &&& forall|i: int, j: int|
            0 <= i < j < self.keys@.len() ==> (#[trigger] self.keys@[i])@ != (
            #[trigger] self.keys@[j])@
    }

    pub fn new() -> (r: RobustnessTable)
        ensures
            r.well_formed(),
            r.keys@.len() == 0,
    {
        RobustnessTable { keys: Vec::new(), entries: Vec::new() }
    }

    /// The place of a topology.
    pub fn find(&self, key: &str) -> (r: Option<usize>)
        ensures
            match r {
                Some(i) => i < self.keys@.len() && i == key_place(texts(self.keys@), key@),
                None => key_place(texts(self.keys@), key@) == self.keys@.len(),
            },
    {
        let ghost all = texts(self.keys@);
        let mut i: usize = 0;
        let mut found: Option<usize> = None;
        assert(all.take(0) =~= Seq::empty());
        while i < self.keys.len()
            invariant
                i <= self.keys@.len(),
                all == texts(self.keys@),
                match found {
                    Some(k) => k < i && key_place(all.take(i as int), key@) == k,
                    None => key_place(all.take(i as int), key@) == i,
                },
            decreases self.keys@.len() - i,
        {
            assert(all.take(i + 1).drop_last() =~= all.take(i as int));
            assert(all.take(i + 1).last() == self.keys@[i as int]@);
            if found.is_none() && same_text(self.keys[i].as_str(), key) {
                found = Some(i);
            }
            i = i + 1;
        }
        assert(all.take(self.keys@.len() as int) =~= all);
        found
    }

    /// Puts back what is known of a topology; the newest word counts.
    pub fn restore(&mut self, key: String, entry: Robustness)
        requires
            old(self).well_formed(),
        ensures
            final(self).well_formed(),
            ({
                let i = key_place(texts(old(self).keys@), key@);
                if i < old(self).keys@.len() {
                    &&& final(self).keys == old(self).keys
                    &&& final(self).entries@ == old(self).entries@.update(i, entry)
                } else {
                    &&& final(self).keys@ == old(self).keys@.push(key)
                    &&& final(self).entries@ == old(self).entries@.push(entry)
                }
            }),
    {
        proof {
            place_is_right(texts(self.keys@), key@);
        }
        match self.find(key.as_str()) {
            Some(i) => {
                self.entries.set(i, entry);
            },
            None => {
                let ghost before = self.keys@;
                self.keys.push(key);
                self.entries.push(entry);
                proof {
                    assert forall|i: int, j: int| 0 <= i < j < self.keys@.len() implies (
                    #[trigger] self.keys@[i])@ != (#[trigger] self.keys@[j])@ by {
                        if j == before.len() {
                            assert(texts(before)[i] == self.keys@[i]@);
                        }
                    }
                }
            },
        }
    }

    /// Takes in the fitness of a topology; `mean` is its mean with it.
    pub fn record(&mut self, key: String, fitness: Score, mean: Score, param_count: usize)
        requires
            old(self).well_formed(),
            forall|i: int|
                0 <= i < old(self).entries@.len() ==> (#[trigger] old(self).entries@[i]).count
                    < usize::MAX,
        ensures
            final(self).well_formed(),
            ({
                let i = key_place(texts(old(self).keys@), key@);
                if i < old(self).keys@.len() {
                    &&& final(self).keys == old(self).keys
                    &&& final(self).entries@ == old(self).entries@.update(
                        i,
                        seen_again(old(self).entries@[i], fitness, mean),
                    )
                } else {
                    &&& final(self).keys@ == old(self).keys@.push(key)
                    &&& final(self).entries@ == old(self).entries@.push(
                        seen_once(fitness, param_count),
                    )
                }
            }),
    {
        proof {
            place_is_right(texts(self.keys@), key@);
        }
        match self.find(key.as_str()) {
            Some(i) => {
                let mut e = self.entries[i];
                e.update(fitness, mean);
                self.entries.set(i, e);
            },
            None => {
                let ghost before = self.keys@;
                self.keys.push(key);
                self.entries.push(Robustness::new(fitness, param_count));
                proof {
                    assert forall|i: int, j: int| 0 <= i < j < self.keys@.len() implies (
                    #[trigger] self.keys@[i])@ != (#[trigger] self.keys@[j])@ by {
                        if j == before.len() {
                            assert(texts(before)[i] == self.keys@[i]@);
                        }
                    }
                }
            },
        }
    }
}

// ── The export ───────────────────────────────────────────────────────────

/// The numbers of a measure over the appearances of a topology, as text.
pub struct SpreadTexts {
    pub mean: String,
    pub sd: String,
    pub min: String,
    pub max: String,
}

/// The columns of the export.
pub open spec fn export_columns(with_loss: bool) -> Seq<Seq<char>> {
    seq!["topo_id"@, "appearances"@, "fit_mean"@, "fit_sd"@, "fit_min"@, "fit_max"@] + (
    if with_loss {
        seq!["loss_mean"@, "loss_sd"@, "loss_min"@, "loss_max"@]
    } else {
        Seq::empty()
    }) + seq!["params"@]
}

/// The first line of the export; the losses have columns only if some topology
/// has one.
pub fn export_header(with_loss: bool) -> (r: String)
    ensures
        r@ == csv_line(export_columns(with_loss)),
{
    let mut cells: Vec<String> = Vec::new();
    push_text(&mut cells, "topo_id");
    push_text(&mut cells, "appearances");
    push_text(&mut cells, "fit_mean");
    push_text(&mut cells, "fit_sd");
    push_text(&mut cells, "fit_min");
    push_text(&mut cells, "fit_max");
    if with_loss {
        push_text(&mut cells, "loss_mean");
        push_text(&mut cells, "loss_sd");
        push_text(&mut cells, "loss_min");
        push_text(&mut cells, "loss_max");
    }
    push_text(&mut cells, "params");
    assert(texts(cells@) =~= export_columns(with_loss));
    make_line(&cells)
}

pub open spec fn spread_cells(s: SpreadTexts) -> Seq<Seq<char>> {
    seq![s.mean@, s.sd@, s.min@, s.max@]
}

/// The cells of a topology.
pub open spec fn export_cells(
    id: Seq<char>,
    count: usize,
    fitness: SpreadTexts,
    loss: Option<SpreadTexts>,
    params: usize,
) -> Seq<Seq<char>> {
    seq![id, decimal_text(count as nat)] + spread_cells(fitness) + (match loss {
        Some(l) => spread_cells(l),
        None => Seq::empty(),
    }) + seq![decimal_text(params as nat)]
}

/// The line of a topology.
pub fn export_row(
    id: &str,
    count: usize,
    fitness: &SpreadTexts,
    loss: &Option<SpreadTexts>,
    params: usize,
) -> (r: String)
    ensures
        r@ == csv_line(export_cells(id@, count, *fitness, *loss, params)),
{
    let mut cells: Vec<String> = Vec::new();
    push_text(&mut cells, id);
    push_owned(&mut cells, decimal(count as u64));
    push_spread(&mut cells, fitness);
    if let Some(l) = loss {
        push_spread(&mut cells, l);
    }
    push_owned(&mut cells, decimal(params as u64));
    assert(texts(cells@) =~= export_cells(id@, count, *fitness, *loss, params));
    make_line(&cells)
}

fn push_spread(cells: &mut Vec<String>, s: &SpreadTexts)
    ensures
        texts(final(cells)@) == texts(old(cells)@) + spread_cells(*s),
{
    push_text(cells, s.mean.as_str());
    push_text(cells, s.sd.as_str());
    push_text(cells, s.min.as_str());
    push_text(cells, s.max.as_str());
    assert(texts(cells@) =~= texts(old(cells)@) + spread_cells(*s));
}

/// Every line of an export has as many cells as its header.
pub proof fn export_lines_align(
    id: Seq<char>,
    count: usize,
    fitness: SpreadTexts,
    loss: Option<SpreadTexts>,
    params: usize,
)
    ensures
        export_cells(id, count, fitness, loss, params).len() == export_columns(loss is Some).len(),
{
}

/// An entry bounds what was seen: each appearance counts once, widens the bounds
/// just so far that they hold it, and never narrows them.
pub proof fn an_entry_bounds_what_was_seen(e: Robustness, fitness: Score, mean: Score)
    requires
        e.count < usize::MAX,
        !fitness.nan(),
        !e.min_fitness.nan(),
        !e.max_fitness.nan(),
    ensures
        ({
            let r = seen_again(e, fitness, mean);
            &&& r.count == e.count + 1
            &&& r.mean == mean && r.param_count == e.param_count
            &&& r.min_fitness.key() <= e.min_fitness.key() && r.min_fitness.key() <= fitness.key()
            &&& r.max_fitness.key() >= e.max_fitness.key() && r.max_fitness.key() >= fitness.key()
            &&& r.min_fitness == e.min_fitness || r.min_fitness == fitness
            &&& r.max_fitness == e.max_fitness || r.max_fitness == fitness
        }),
        seen_once(fitness, e.param_count).count == 1,
        seen_once(fitness, e.param_count).min_fitness == fitness,
        seen_once(fitness, e.param_count).max_fitness == fitness,
        seen_once(fitness, e.param_count).mean == fitness,
{
}

/// The report names every topology once, those seen most often first, and among
/// those seen as often the one with the greater mean.
pub proof fn the_report_names_the_most_seen_first(entries: Seq<Robustness>, i: int, j: int)
    requires
        0 <= i < j < entries.len(),
        forall|k: int| 0 <= k < entries.len() ==> !(#[trigger] entries[k]).mean.nan(),
    ensures
        ({
            let r = report_order(entries);
            &&& r.len() == entries.len()
            &&& r.to_multiset() == entries.to_multiset()
            &&& r[i].count >= r[j].count
            &&& r[i].count == r[j].count ==> r[i].mean.key() >= r[j].mean.key()
        }),
{
    reports_are_in_order(entries, i, j);
    the_report_is_whole(entries);
    let r = report_order(entries);
    broadcast use vstd::seq_lib::group_to_multiset_ensures;

    assert(r.contains(r[i]) && r.contains(r[j]));
    assert(r.to_multiset().count(r[i]) > 0 && r.to_multiset().count(r[j]) > 0);
    assert(entries.contains(r[i]) && entries.contains(r[j]));
    let a = choose|a: int| 0 <= a < entries.len() && entries[a] == r[i];
    let b = choose|b: int| 0 <= b < entries.len() && entries[b] == r[j];
    assert(!entries[a].mean.nan() && !entries[b].mean.nan());
}

proof fn the_report_is_whole(entries: Seq<Robustness>)
    ensures
        report_order(entries).len() == entries.len(),
        report_order(entries).to_multiset() == entries.to_multiset(),
    decreases entries.len(),
{
    broadcast use vstd::seq_lib::group_to_multiset_ensures;

    if entries.len() > 0 {
        let front = entries.drop_last();
        let rest = report_order(front);
        let e = entries.last();
        the_report_is_whole(front);
        report_slot_is_inside(rest, e);
        assert(rest.insert(report_slot(rest, e), e).to_multiset() =~= rest.to_multiset().insert(e));
        assert(front.push(e) =~= entries);
    }
}

/// A topology is found at the first place that has its key, and counts as new
/// exactly if no place has.
pub proof fn a_key_is_at_its_first_place(keys: Seq<Seq<char>>, key: Seq<char>, k: int)
    ensures
        key_place(keys, key) == keys.len() <==> !keys.contains(key),
        key_place(keys, key) < keys.len() ==> keys[key_place(keys, key)] == key,
        0 <= k < key_place(keys, key) ==> keys[k] != key,
        0 <= key_place(keys, key) <= keys.len(),
    decreases keys.len(),
{
    place_is_right(keys, key);
    if keys.len() > 0 {
        let front = keys.drop_last();
        place_is_right(front, key);
        a_key_is_at_its_first_place(front, key, k);
        if 0 <= k < front.len() {
            assert(keys[k] == front[k]);
        }
        if key_place(keys, key) < keys.len() {
            assert(keys.contains(keys[key_place(keys, key)]));
        }
    }
}

/// Every cell of an export stands under the column it belongs to.
pub proof fn export_cells_fill_their_columns(
    id: Seq<char>,
    count: usize,
    fitness: SpreadTexts,
    loss: Option<SpreadTexts>,
    params: usize,
)
    ensures
        ({
            let c = export_columns(loss is Some);
            let e = export_cells(id, count, fitness, loss, params);
            let last = c.len() - 1;
            &&& c[0] == "topo_id"@ && e[0] == id
            &&& c[1] == "appearances"@ && e[1] == decimal_text(count as nat)
            &&& c[2] == "fit_mean"@ && e[2] == fitness.mean@
            &&& c[3] == "fit_sd"@ && e[3] == fitness.sd@
            &&& c[4] == "fit_min"@ && e[4] == fitness.min@
            &&& c[5] == "fit_max"@ && e[5] == fitness.max@
            &&& c[last] == "params"@ && e[last] == decimal_text(params as nat)
            &&& loss is None ==> last == 6
            &&& loss matches Some(l) ==> {
                &&& last == 10
                &&& c[6] == "loss_mean"@ && e[6] == l.mean@
                &&& c[7] == "loss_sd"@ && e[7] == l.sd@
                &&& c[8] == "loss_min"@ && e[8] == l.min@
                &&& c[9] == "loss_max"@ && e[9] == l.max@
            }
        }),
{
}

} // verus!
