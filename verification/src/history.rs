//! The history of a run: one line per net and step, one per evolution event.
//!
//! Both kinds of lines share one table. The first column tells them apart; an
//! event leaves the columns of a measurement empty. Numbers with a fraction
//! arrive as text.

use vstd::prelude::*;

use crate::net::Net;
use crate::text::{
    csv_field, csv_field_text, decimal, decimal_text, join, joined_text, optional_decimal,
    optional_decimal_text, texts,
};

verus! {

/// A line of the table.
pub open spec fn csv_line(cells: Seq<Seq<char>>) -> Seq<char> {
    joined_text(cells, ","@) + "\n"@
}

pub(crate) fn make_line(cells: &Vec<String>) -> (r: String)
    ensures
        r@ == csv_line(texts(cells@)),
{
    let mut out = join(cells, ",");
    out.append("\n");
    out
}

/// `n` empty cells.
pub open spec fn blanks(n: nat) -> Seq<Seq<char>> {
    Seq::new(n, |i: int| Seq::<char>::empty())
}

fn push_blanks(cells: &mut Vec<String>, n: usize)
    ensures
        texts(final(cells)@) == texts(old(cells)@) + blanks(n as nat),
{
    let ghost front = texts(cells@);
    let mut i: usize = 0;
    assert(front =~= front + blanks(0));
    while i < n
        invariant
            i <= n,
            texts(cells@) == front + blanks(i as nat),
        decreases n - i,
    {
        push_owned(cells, String::new());
        assert(texts(cells@) =~= front + blanks((i + 1) as nat));
        i = i + 1;
    }
}

fn push_all(cells: &mut Vec<String>, more: &Vec<String>)
    ensures
        texts(final(cells)@) == texts(old(cells)@) + texts(more@),
{
    let ghost front = texts(cells@);
    let mut i: usize = 0;
    assert(front =~= front + texts(more@).take(0));
    while i < more.len()
        invariant
            i <= more@.len(),
            texts(cells@) == front + texts(more@).take(i as int),
        decreases more@.len() - i,
    {
        push_owned(cells, more[i].clone());
        assert(texts(cells@) =~= front + texts(more@).take(i + 1));
        i = i + 1;
    }
    assert(texts(more@).take(more@.len() as int) =~= texts(more@));
}

pub(crate) fn push_text(cells: &mut Vec<String>, s: &str)
    ensures
        texts(final(cells)@) == texts(old(cells)@).push(s@),
{
    cells.push(String::from_str(s));
    assert(texts(cells@) =~= texts(old(cells)@).push(s@));
}

pub(crate) fn push_owned(cells: &mut Vec<String>, s: String)
    ensures
        texts(final(cells)@) == texts(old(cells)@).push(s@),
{
    cells.push(s);
    assert(texts(cells@) =~= texts(old(cells)@).push(s@));
}

// ── Header ───────────────────────────────────────────────────────────────

/// The columns every line begins with.
pub open spec fn measure_columns() -> Seq<Seq<char>> {
    seq![
        "type"@,
        "step"@,
        "hash"@,
        "net_seed"@,
        "origin"@,
        "entered_at_step"@,
        "train_loss"@,
        "eval_loss"@,
        "fitness"@,
    ]
}

/// The columns of an event.
pub open spec fn event_columns() -> Seq<Seq<char>> {
    seq![
        "branch"@,
        "attempt"@,
        "outcome"@,
        "gate_index"@,
        "child_fitness"@,
        "bar"@,
        "victim"@,
        "victim_net_seed"@,
        "pop_size"@,
    ]
}

/// All columns of a run whose informative metrics have these labels.
pub open spec fn columns(labels: Seq<Seq<char>>) -> Seq<Seq<char>> {
    measure_columns() + labels + event_columns()
}

/// The first line of the file.
pub fn header_line(labels: &Vec<String>) -> (r: String)
    ensures
        r@ == csv_line(columns(texts(labels@))),
{
    let mut cells: Vec<String> = Vec::new();
    push_text(&mut cells, "type");
    push_text(&mut cells, "step");
    push_text(&mut cells, "hash");
    push_text(&mut cells, "net_seed");
    push_text(&mut cells, "origin");
    push_text(&mut cells, "entered_at_step");
    push_text(&mut cells, "train_loss");
    push_text(&mut cells, "eval_loss");
    push_text(&mut cells, "fitness");
    assert(texts(cells@) =~= measure_columns());
    push_all(&mut cells, labels);
    push_text(&mut cells, "branch");
    push_text(&mut cells, "attempt");
    push_text(&mut cells, "outcome");
    push_text(&mut cells, "gate_index");
    push_text(&mut cells, "child_fitness");
    push_text(&mut cells, "bar");
    push_text(&mut cells, "victim");
    push_text(&mut cells, "victim_net_seed");
    push_text(&mut cells, "pop_size");
    assert(texts(cells@) =~= columns(texts(labels@)));
    make_line(&cells)
}

// ── Measurements ─────────────────────────────────────────────────────────

/// The numbers of a measurement, as text.
pub struct MetricTexts {
    pub train_loss: String,
    pub eval_loss: Option<String>,
    pub fitness: String,
    pub informative: Vec<String>,
}

/// Where a net comes from, or nothing.
pub open spec fn origin_text(net: Net) -> Seq<char> {
    match net.created_from {
        Some(o) => o@,
        None => ""@,
    }
}

/// The cells of a measurement.
pub open spec fn metric_cells(step: usize, net: Net, m: MetricTexts) -> Seq<Seq<char>> {
    seq![
        "metric"@,
        decimal_text(step as nat),
        net.hash@,
        decimal_text(net.net_seed as nat),
        csv_field_text(origin_text(net)),
        decimal_text(net.entered_at_step as nat),
        m.train_loss@,
        match m.eval_loss {
            Some(e) => e@,
            None => "nan"@,
        },
        m.fitness@,
    ] + texts(m.informative@)
}

/// The line of a net's measurement.
pub fn metric_row(step: usize, net: &Net, m: &MetricTexts) -> (r: String)
    ensures
        r@ == csv_line(metric_cells(step, *net, *m)),
{
    let mut cells: Vec<String> = Vec::new();
    push_text(&mut cells, "metric");
    push_owned(&mut cells, decimal(step as u64));
    push_text(&mut cells, net.hash.as_str());
    push_owned(&mut cells, decimal(net.net_seed as u64));
    match &net.created_from {
        Some(o) => {
            push_owned(&mut cells, csv_field(o.as_str()));
        },
        None => {
            push_owned(&mut cells, csv_field(""));
        },
    }
    push_owned(&mut cells, decimal(net.entered_at_step as u64));
    push_text(&mut cells, m.train_loss.as_str());
    match &m.eval_loss {
        Some(e) => {
            push_text(&mut cells, e.as_str());
        },
        None => {
            push_text(&mut cells, "nan");
        },
    }
    push_text(&mut cells, m.fitness.as_str());
    push_all(&mut cells, &m.informative);
    assert(texts(cells@) =~= metric_cells(step, *net, *m));
    make_line(&cells)
}

// ── Events ───────────────────────────────────────────────────────────────

/// One attempt to change the population.
pub struct Attempt {
    pub step: usize,
    /// What was tried: a crossover, a mutation or a pruning.
    pub branch: String,
    /// The number of the try, counted from 1; 0 for a pruning.
    pub attempt: usize,
    pub child_hash: Option<String>,
    pub child_net_seed: Option<usize>,
    pub origin: String,
    pub outcome: String,
    /// Which checkpoint a child failed at.
    pub gate_index: Option<usize>,
    pub child_fitness: Option<String>,
    pub bar: Option<String>,
    pub victim: Option<String>,
    pub victim_net_seed: Option<usize>,
}

/// A text, or nothing.
pub open spec fn optional_text(s: Option<String>) -> Seq<char> {
    match s {
        Some(t) => t@,
        None => Seq::empty(),
    }
}

/// The cells of an event of a run with `metrics` informative metrics.
pub open spec fn attempt_cells(a: Attempt, metrics: nat, live: usize) -> Seq<Seq<char>> {
    seq![
        "attempt"@,
        decimal_text(a.step as nat),
        optional_text(a.child_hash),
        optional_decimal_text(a.child_net_seed),
        csv_field_text(a.origin@),
    ] + blanks(4 + metrics) + seq![
        "\""@ + a.branch@ + "\""@,
        decimal_text(a.attempt as nat),
        a.outcome@,
        optional_decimal_text(a.gate_index),
        optional_text(a.child_fitness),
        optional_text(a.bar),
        optional_text(a.victim),
        optional_decimal_text(a.victim_net_seed),
        decimal_text(live as nat),
    ]
}

fn push_optional(cells: &mut Vec<String>, s: &Option<String>)
    ensures
        texts(final(cells)@) == texts(old(cells)@).push(optional_text(*s)),
{
    match s {
        Some(t) => {
            push_text(cells, t.as_str());
        },
        None => {
            push_owned(cells, String::new());
        },
    }
}

/// The line of an event; `live` is the size of the population.
pub fn attempt_row(a: &Attempt, metrics: usize, live: usize) -> (r: String)
    requires
        metrics <= usize::MAX - 4,
    ensures
        r@ == csv_line(attempt_cells(*a, metrics as nat, live)),
{
    let mut cells: Vec<String> = Vec::new();
    push_text(&mut cells, "attempt");
    push_owned(&mut cells, decimal(a.step as u64));
    push_optional(&mut cells, &a.child_hash);
    push_owned(&mut cells, optional_decimal(a.child_net_seed));
    push_owned(&mut cells, csv_field(a.origin.as_str()));
    push_blanks(&mut cells, 4 + metrics);
    let mut branch = String::from_str("\"");
    branch.append(a.branch.as_str());
    branch.append("\"");
    push_owned(&mut cells, branch);
    push_owned(&mut cells, decimal(a.attempt as u64));
    push_text(&mut cells, a.outcome.as_str());
    push_owned(&mut cells, optional_decimal(a.gate_index));
    push_optional(&mut cells, &a.child_fitness);
    push_optional(&mut cells, &a.bar);
    push_optional(&mut cells, &a.victim);
    push_owned(&mut cells, optional_decimal(a.victim_net_seed));
    push_owned(&mut cells, decimal(live as u64));
    assert(texts(cells@) =~= attempt_cells(*a, metrics as nat, live));
    make_line(&cells)
}

/// The event of a crossover child that repeats a live topology.
pub open spec fn is_duplicate_event(a: Attempt, step: usize, attempt: usize) -> bool {
    &&& a.step == step
    &&& a.branch@ == "crossover"@
    &&& a.attempt == attempt
    &&& a.origin@ == "duplicate-discarded"@
    &&& a.outcome@ == "rejected_duplicate"@
    &&& a.child_hash is None
    &&& a.child_net_seed is None
    &&& a.gate_index is None
    &&& a.child_fitness is None
    &&& a.bar is None
    &&& a.victim is None
    &&& a.victim_net_seed is None
}

/// The event of a crossover child that fell short at checkpoint `gate_index`.
pub open spec fn is_shortfall_event(
    a: Attempt,
    step: usize,
    attempt: usize,
    child: Net,
    gate_index: usize,
    child_fitness: Seq<char>,
    bar: Seq<char>,
) -> bool {
    &&& a.step == step
    &&& a.branch@ == "crossover"@
    &&& a.attempt == attempt
    &&& optional_text(a.child_hash) == child.hash@
    &&& a.child_net_seed == Some(child.net_seed)
    &&& a.origin@ == origin_text(child)
    &&& a.outcome@ == "rejected_gate"@
    &&& a.gate_index == Some(gate_index)
    &&& optional_text(a.child_fitness) == child_fitness
    &&& optional_text(a.bar) == bar
    &&& a.victim is None
    &&& a.victim_net_seed is None
}

/// The event of a child that joins, in the place of a victim if there is one.
/// An immigrant is the first try of its roll.
pub open spec fn is_insertion_event(
    a: Attempt,
    step: usize,
    immigrant: bool,
    attempt: usize,
    child: Net,
    child_fitness: Seq<char>,
    victim: Seq<char>,
    victim_net_seed: Option<usize>,
) -> bool {
    &&& a.step == step
    &&& a.branch@ == (if immigrant {
        "mutation"@
    } else {
        "crossover"@
    })
    &&& a.attempt == (if immigrant {
        1
    } else {
        attempt
    })
    &&& optional_text(a.child_hash) == child.hash@
    &&& a.child_net_seed == Some(child.net_seed)
    &&& a.origin@ == origin_text(child)
    &&& a.outcome@ == "inserted"@
    &&& a.gate_index is None
    &&& optional_text(a.child_fitness) == child_fitness
    &&& a.bar is None
    &&& optional_text(a.victim) == victim
    &&& a.victim_net_seed == victim_net_seed
}

/// The event of a net that the pruner takes out.
pub open spec fn is_pruning_event(
    a: Attempt,
    step: usize,
    victim: Seq<char>,
    victim_net_seed: Option<usize>,
) -> bool {
    &&& a.step == step
    &&& a.branch@ == "pruner"@
    &&& a.attempt == 0
    &&& a.origin@ == "pruned"@
    &&& a.outcome@ == "pruned"@
    &&& a.child_hash is None
    &&& a.child_net_seed is None
    &&& a.gate_index is None
    &&& a.child_fitness is None
    &&& a.bar is None
    &&& optional_text(a.victim) == victim
    &&& a.victim_net_seed == victim_net_seed
}

impl Attempt {
    /// A crossover child that repeats a live topology.
    pub fn duplicate(step: usize, attempt: usize) -> (r: Attempt)
        ensures
            is_duplicate_event(r, step, attempt),
    {
        Attempt {
            step,
            branch: String::from_str("crossover"),
            attempt,
            child_hash: None,
            child_net_seed: None,
            origin: String::from_str("duplicate-discarded"),
            outcome: String::from_str("rejected_duplicate"),
            gate_index: None,
            child_fitness: None,
            bar: None,
            victim: None,
            victim_net_seed: None,
        }
    }

    /// A crossover child that fell short at checkpoint `gate_index`.
    pub fn fell_short(
        step: usize,
        attempt: usize,
        child: &Net,
        gate_index: usize,
        child_fitness: &str,
        bar: &str,
    ) -> (r: Attempt)
        ensures
            is_shortfall_event(r, step, attempt, *child, gate_index, child_fitness@, bar@),
    {
        Attempt {
            step,
            branch: String::from_str("crossover"),
            attempt,
            child_hash: Some(child.hash.clone()),
            child_net_seed: Some(child.net_seed),
            origin: origin_of(child),
            outcome: String::from_str("rejected_gate"),
            gate_index: Some(gate_index),
            child_fitness: Some(String::from_str(child_fitness)),
            bar: Some(String::from_str(bar)),
            victim: None,
            victim_net_seed: None,
        }
    }

    /// A child that joins the population, in the place of a victim if there is
    /// one.
    pub fn inserted(
        step: usize,
        immigrant: bool,
        attempt: usize,
        child: &Net,
        child_fitness: &Option<String>,
        victim: &Option<String>,
        victim_net_seed: Option<usize>,
    ) -> (r: Attempt)
        ensures
            is_insertion_event(
                r,
                step,
                immigrant,
                attempt,
                *child,
                optional_text(*child_fitness),
                optional_text(*victim),
                victim_net_seed,
            ),
    {
        Attempt {
            step,
            branch: String::from_str(
                if immigrant {
                    "mutation"
                } else {
                    "crossover"
                },
            ),
            attempt: if immigrant {
                1
            } else {
                attempt
            },
            child_hash: Some(child.hash.clone()),
            child_net_seed: Some(child.net_seed),
            origin: origin_of(child),
            outcome: String::from_str("inserted"),
            gate_index: None,
            child_fitness: copy_of(child_fitness),
            bar: None,
            victim: copy_of(victim),
            victim_net_seed,
        }
    }

    /// A net that the pruner takes out.
    pub fn pruned(step: usize, victim: &str, victim_net_seed: Option<usize>) -> (r: Attempt)
        ensures
            is_pruning_event(r, step, victim@, victim_net_seed),
    {
        Attempt {
            step,
            branch: String::from_str("pruner"),
            attempt: 0,
            child_hash: None,
            child_net_seed: None,
            origin: String::from_str("pruned"),
            outcome: String::from_str("pruned"),
            gate_index: None,
            child_fitness: None,
            bar: None,
            victim: Some(String::from_str(victim)),
            victim_net_seed,
        }
    }
}

fn copy_of(s: &Option<String>) -> (r: Option<String>)
    ensures
        optional_text(r) == optional_text(*s),
{
    match s {
        Some(t) => Some(t.clone()),
        None => None,
    }
}

fn origin_of(net: &Net) -> (r: String)
    ensures
        r@ == origin_text(*net),
{
    match &net.created_from {
        Some(o) => o.clone(),
        None => String::from_str(""),
    }
}

// ── The buffer ───────────────────────────────────────────────────────────

/// The lines that wait to be written.
pub struct History {
    /// Whether the run keeps a history at all.
    pub export: bool,
    /// The labels of the informative metrics.
    pub labels: Vec<String>,
    pub buffer: String,
}

/// The lines of the first `n` nets that have a measurement.
pub open spec fn metric_lines(
    step: usize,
    nets: Seq<Net>,
    numbers: Seq<MetricTexts>,
    n: nat,
) -> Seq<char>
    decreases n,
{
    if n == 0 {
        Seq::empty()
    } else {
        let front = metric_lines(step, nets, numbers, (n - 1) as nat);
        if nets[n - 1].last_metrics is Some {
            front + csv_line(metric_cells(step, nets[n - 1], numbers[n - 1]))
        } else {
            front
        }
    }
}

impl History {
    pub fn new(export: bool, labels: Vec<String>) -> (r: History)
        ensures
            r.export == export,
            r.labels == labels,
            r.buffer@ == Seq::<char>::empty(),
    {
        History { export, labels, buffer: String::new() }
    }

    /// Appends a line for every net that has a measurement.
    pub fn append_metrics(&mut self, step: usize, nets: &Vec<Net>, numbers: &Vec<MetricTexts>)
        requires
            nets@.len() == numbers@.len(),
        ensures
            final(self).export == old(self).export,
            final(self).labels == old(self).labels,
            final(self).buffer@ == (if old(self).export {
                old(self).buffer@ + metric_lines(step, nets@, numbers@, nets@.len())
            } else {
                old(self).buffer@
            }),
    {
        if !self.export {
            return;
        }
        let ghost front = self.buffer@;
        let mut i: usize = 0;
        assert(front =~= front + metric_lines(step, nets@, numbers@, 0));
        while i < nets.len()
            invariant
                i <= nets@.len(),
                nets@.len() == numbers@.len(),
                self.export == old(self).export,
                self.labels == old(self).labels,
                self.buffer@ == front + metric_lines(step, nets@, numbers@, i as nat),
            decreases nets@.len() - i,
        {
            if nets[i].last_metrics.is_some() {
                let row = metric_row(step, &nets[i], &numbers[i]);
                self.buffer.append(row.as_str());
            }
            assert(self.buffer@ =~= front + metric_lines(step, nets@, numbers@, (i + 1) as nat));
            i = i + 1;
        }
    }

    /// Appends the line of an event.
    pub fn record_attempt(&mut self, a: &Attempt, live: usize)
        requires
            old(self).labels@.len() <= usize::MAX - 4,
        ensures
            final(self).export == old(self).export,
            final(self).labels == old(self).labels,
            final(self).buffer@ == (if old(self).export {
                old(self).buffer@ + csv_line(attempt_cells(*a, old(self).labels@.len(), live))
            } else {
                old(self).buffer@
            }),
    {
        if self.export {
            let metrics: usize = self.labels.len();
            let row = attempt_row(a, metrics, live);
            self.buffer.append(row.as_str());
        }
    }

    /// Hands out what has to be appended to the file and forgets it: the lines
    /// that wait, behind the header if the file does not exist yet. There is
    /// nothing to write if the run keeps no history or no line waits.
    pub fn flush(&mut self, file_exists: bool) -> (r: Option<String>)
        ensures
            final(self).export == old(self).export,
            final(self).labels == old(self).labels,
            match r {
                Some(text) => {
                    &&& old(self).export && old(self).buffer@.len() > 0
                    &&& text@ == (if file_exists {
                        old(self).buffer@
                    } else {
                        csv_line(columns(texts(old(self).labels@))) + old(self).buffer@
                    })
                    &&& final(self).buffer@.len() == 0
                },
                None => {
                    &&& !old(self).export || old(self).buffer@.len() == 0
                    &&& final(self).buffer@ == old(self).buffer@
                },
            },
    {
        if !self.export || self.buffer.as_str().unicode_len() == 0 {
            return None;
        }
        let mut out = if file_exists {
            String::new()
        } else {
            header_line(&self.labels)
        };
        out.append(self.buffer.as_str());
        assert(file_exists ==> out@ =~= self.buffer@);
        self.buffer = String::new();
        Some(out)
    }
}

// ── Laws ─────────────────────────────────────────────────────────────────

/// Every cell of an event stands in its own column: the line has as many cells
/// as the header, begins in the columns both kinds share and ends in those of
/// an event, with the columns of a measurement empty between them.
pub proof fn events_align_with_the_header(a: Attempt, labels: Seq<Seq<char>>, live: usize, k: int)
    requires
        0 <= k < columns(labels).len(),
    ensures
        attempt_cells(a, labels.len(), live).len() == columns(labels).len(),
        5 <= k < 9 + labels.len() ==> attempt_cells(a, labels.len(), live)[k].len() == 0,
        columns(labels)[9 + labels.len() as int] == "branch"@,
        attempt_cells(a, labels.len(), live)[9 + labels.len() as int] == "\""@ + a.branch@ + "\""@,
        columns(labels).last() == "pop_size"@,
        attempt_cells(a, labels.len(), live).last() == decimal_text(live as nat),
{
}

/// A measurement fills the columns up to the informative metrics, and those
/// stand under their labels.
pub proof fn measurements_align_with_the_header(
    step: usize,
    net: Net,
    m: MetricTexts,
    labels: Seq<Seq<char>>,
    k: int,
)
    requires
        m.informative@.len() == labels.len(),
        0 <= k < labels.len(),
    ensures
        metric_cells(step, net, m).len() == 9 + labels.len(),
        columns(labels)[9 + k] == labels[k],
        metric_cells(step, net, m)[9 + k] == m.informative@[k]@,
{
}

/// Every cell of an event stands under the column it belongs to.
pub proof fn events_fill_their_columns(a: Attempt, labels: Seq<Seq<char>>, live: usize)
    ensures
        ({
            let c = columns(labels);
            let e = attempt_cells(a, labels.len(), live);
            let n = 9 + labels.len() as int;
            &&& c[0] == "type"@ && e[0] == "attempt"@
            &&& c[1] == "step"@ && e[1] == decimal_text(a.step as nat)
            &&& c[2] == "hash"@ && (a.child_hash matches Some(h) ==> e[2] == h@)
            &&& c[3] == "net_seed"@ && (a.child_net_seed matches Some(s) ==> e[3] == decimal_text(
                s as nat,
            ))
            &&& c[4] == "origin"@ && crate::text::csv_read(e[4]) == a.origin@
            &&& c[n] == "branch"@ && e[n] == "\""@ + a.branch@ + "\""@
            &&& c[n + 1] == "attempt"@ && e[n + 1] == decimal_text(a.attempt as nat)
            &&& c[n + 2] == "outcome"@ && e[n + 2] == a.outcome@
            &&& c[n + 3] == "gate_index"@ && (a.gate_index matches Some(g) ==> e[n + 3]
                == decimal_text(g as nat))
            &&& c[n + 4] == "child_fitness"@ && (a.child_fitness matches Some(f) ==> e[n + 4]
                == f@)
            &&& c[n + 5] == "bar"@ && (a.bar matches Some(b) ==> e[n + 5] == b@)
            &&& c[n + 6] == "victim"@ && (a.victim matches Some(v) ==> e[n + 6] == v@)
            &&& c[n + 7] == "victim_net_seed"@ && (a.victim_net_seed matches Some(s) ==> e[n + 7]
                == decimal_text(s as nat))
            &&& c[n + 8] == "pop_size"@ && e[n + 8] == decimal_text(live as nat)
            &&& c.len() == n + 9 && e.len() == n + 9
            &&& a.child_hash is None ==> e[2].len() == 0
            &&& a.child_net_seed is None ==> e[3].len() == 0
            &&& a.gate_index is None ==> e[n + 3].len() == 0
            &&& a.child_fitness is None ==> e[n + 4].len() == 0
            &&& a.bar is None ==> e[n + 5].len() == 0
            &&& a.victim is None ==> e[n + 6].len() == 0
            &&& a.victim_net_seed is None ==> e[n + 7].len() == 0
        }),
{
    crate::text::csv_field_reads_back(a.origin@);
}

/// Every cell of a measurement stands under the column it belongs to.
pub proof fn measurements_fill_their_columns(
    step: usize,
    net: Net,
    m: MetricTexts,
    labels: Seq<Seq<char>>,
)
    ensures
        ({
            let c = columns(labels);
            let e = metric_cells(step, net, m);
            &&& c[0] == "type"@ && e[0] == "metric"@
            &&& c[1] == "step"@ && e[1] == decimal_text(step as nat)
            &&& c[2] == "hash"@ && e[2] == net.hash@
            &&& c[3] == "net_seed"@ && e[3] == decimal_text(net.net_seed as nat)
            &&& c[4] == "origin"@ && (net.created_from matches Some(o) ==> crate::text::csv_read(
                e[4],
            ) == o@)
            &&& c[5] == "entered_at_step"@ && e[5] == decimal_text(net.entered_at_step as nat)
            &&& c[6] == "train_loss"@ && e[6] == m.train_loss@
            &&& c[7] == "eval_loss"@ && (m.eval_loss matches Some(l) ==> e[7] == l@)
            &&& m.eval_loss is None ==> e[7] == "nan"@
            &&& c[8] == "fitness"@ && e[8] == m.fitness@
        }),
{
    crate::text::csv_field_reads_back(origin_text(net));
}

/// Every net with a measurement has one line and a net without has none, in the
/// order of the nets: the lines begin with those of any smaller number of nets,
/// and one net more adds its own.
pub proof fn every_measured_net_has_a_line(
    step: usize,
    nets: Seq<Net>,
    numbers: Seq<MetricTexts>,
    i: nat,
    n: nat,
)
    requires
        i < n <= nets.len(),
    ensures
        metric_lines(step, nets, numbers, i).is_prefix_of(metric_lines(step, nets, numbers, n)),
        nets[i as int].last_metrics is Some ==> metric_lines(step, nets, numbers, i + 1)
            == metric_lines(step, nets, numbers, i) + csv_line(
            metric_cells(step, nets[i as int], numbers[i as int]),
        ),
        nets[i as int].last_metrics is None ==> metric_lines(step, nets, numbers, i + 1)
            == metric_lines(step, nets, numbers, i),
        metric_lines(step, nets, numbers, 0).len() == 0,
    decreases n,
{
    if n > i + 1 {
        every_measured_net_has_a_line(step, nets, numbers, i, (n - 1) as nat);
    }
}

/// The four kinds of events tell apart what happened, and none is taken for
/// another: a child that joined names itself and its victim, one that fell short
/// itself and its bar, a pruned net itself alone, and a repeated one nobody.
pub proof fn events_tell_what_happened(
    a: Attempt,
    step: usize,
    attempt: usize,
    child: Net,
    gate_index: usize,
    fitness: Seq<char>,
    bar: Seq<char>,
    victim: Seq<char>,
    victim_net_seed: Option<usize>,
)
    requires
        child.hash@.len() > 0,
        victim.len() > 0,
        fitness.len() > 0,
        bar.len() > 0,
    ensures
        is_insertion_event(a, step, false, attempt, child, fitness, victim, victim_net_seed) ==> {
            &&& a.step == step && a.branch@ == "crossover"@ && a.attempt == attempt
            &&& a.outcome@ == "inserted"@
            &&& a.child_hash is Some && a.child_hash->0@ == child.hash@
            &&& a.child_net_seed == Some(child.net_seed)
            &&& a.child_fitness is Some && a.child_fitness->0@ == fitness
            &&& a.victim is Some && a.victim->0@ == victim
            &&& a.victim_net_seed == victim_net_seed
            &&& a.bar is None && a.gate_index is None
        },
        is_insertion_event(a, step, true, attempt, child, fitness, victim, victim_net_seed) ==> {
            &&& a.step == step && a.branch@ == "mutation"@ && a.attempt == 1
            &&& a.outcome@ == "inserted"@
            &&& a.child_hash is Some && a.child_hash->0@ == child.hash@
            &&& a.child_net_seed == Some(child.net_seed)
            &&& a.victim is Some && a.victim->0@ == victim
            &&& a.victim_net_seed == victim_net_seed
        },
        is_shortfall_event(a, step, attempt, child, gate_index, fitness, bar) ==> {
            &&& a.step == step && a.branch@ == "crossover"@ && a.attempt == attempt
            &&& a.outcome@ == "rejected_gate"@
            &&& a.child_hash is Some && a.child_hash->0@ == child.hash@
            &&& a.child_net_seed == Some(child.net_seed)
            &&& a.gate_index == Some(gate_index)
            &&& a.child_fitness is Some && a.child_fitness->0@ == fitness
            &&& a.bar is Some && a.bar->0@ == bar
            &&& a.victim is None && a.victim_net_seed is None
        },
        is_pruning_event(a, step, victim, victim_net_seed) ==> {
            &&& a.step == step && a.branch@ == "pruner"@ && a.outcome@ == "pruned"@
            &&& a.victim is Some && a.victim->0@ == victim
            &&& a.victim_net_seed == victim_net_seed
            &&& a.child_hash is None && a.child_net_seed is None && a.child_fitness is None
        },
        is_duplicate_event(a, step, attempt) ==> {
            &&& a.step == step && a.branch@ == "crossover"@ && a.attempt == attempt
            &&& a.outcome@ == "rejected_duplicate"@
            &&& a.child_hash is None && a.victim is None && a.victim_net_seed is None
        },
{
}

} // verus!
