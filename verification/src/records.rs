//! The files a generational run leaves behind: one per generation, and the
//! envelope of the whole run.

use vstd::prelude::*;

use crate::config::{DimRange, TopologyOptions};
use crate::json::{
    array_says, as_read, copy_all, depth, field, key_is_found,
    members_are_ordered, number_field, number_value, object_says, optional_number, ordered, pairs, plain,
    parsed_json, pretty_text, put, reads_as, values, Json, JsonView, Member,
};
use crate::resume::{get_number_text, number_text, optional_view};
use crate::score::Direction;
use crate::seeds::{derive_seed, derived_seed};
use crate::text::{decimal, decimal_text, text_below, text_order_is_total};

verus! {

// ── One generation ───────────────────────────────────────────────────────

/// What is written down of an individual. Measured numbers come as the values
/// they are written as; null stands for what was not measured.
#[derive(Debug)]
pub struct IndividualMetrics {
    pub seed: usize,
    pub dropout_prob: Json,
    pub fitness: Json,
    pub loss: Json,
    pub params: usize,
    pub train_losses: Vec<Json>,
    pub eval_losses: Vec<Json>,
    pub topo_hash: String,
    pub topology: String,
}

/// The statistics of a generation, as the values they are written as.
#[derive(Debug)]
pub struct StatValues {
    pub best_score: Json,
    pub best_loss: Json,
    pub avg_score: Json,
    pub avg_loss: Json,
    pub avg_params: Json,
}

/// The record of individual number `i`.
pub open spec fn metrics_value(i: int, ind: IndividualMetrics) -> JsonView {
    JsonView::Object(
        seq![
            ("dropout_prob"@, ind.dropout_prob@),
            ("eval_losses"@, JsonView::Array(values(ind.eval_losses@))),
            ("fitness"@, ind.fitness@),
            ("idx"@, number_value(i as nat)),
            ("loss"@, ind.loss@),
            ("params"@, number_value(ind.params as nat)),
            ("seed"@, number_value(ind.seed as nat)),
            ("topo_hash"@, JsonView::Text(ind.topo_hash@)),
            ("topology"@, JsonView::Text(ind.topology@)),
            ("train_losses"@, JsonView::Array(values(ind.train_losses@))),
        ],
    )
}

/// The records of a population.
pub open spec fn metrics_values(inds: Seq<IndividualMetrics>) -> Seq<JsonView> {
    inds.map(|i: int, ind: IndividualMetrics| metrics_value(i, ind))
}

/// The record of the statistics.
pub open spec fn stats_value(s: StatValues) -> JsonView {
    JsonView::Object(
        seq![
            ("avg_loss"@, s.avg_loss@),
            ("avg_params"@, s.avg_params@),
            ("avg_score"@, s.avg_score@),
            ("best_loss"@, s.best_loss@),
            ("best_score"@, s.best_score@),
        ],
    )
}

/// The record of a generation.
pub open spec fn generation_value(
    run_seed: u64,
    generation: usize,
    unique_topos: usize,
    stats: StatValues,
    inds: Seq<IndividualMetrics>,
) -> JsonView {
    JsonView::Object(
        seq![
            ("gen_seed"@, number_value(derived_seed(run_seed, generation) as nat)),
            ("generation"@, number_value(generation as nat)),
            ("individuals"@, JsonView::Array(metrics_values(inds))),
            ("stats"@, stats_value(stats)),
            ("unique_topos"@, number_value(unique_topos as nat)),
        ],
    )
}

fn array(items: &Vec<Json>) -> (r: Json)
    ensures
        r@ == JsonView::Array(values(items@)),
{
    let out = copy_all(items);
    proof {
        array_says(out);
    }
    Json::Array(out)
}

fn make_metrics(i: usize, ind: &IndividualMetrics) -> (r: Json)
    ensures
        r@ == metrics_value(i as int, *ind),
{
    let mut m: Vec<Member> = Vec::new();
    put(&mut m, "dropout_prob", ind.dropout_prob.copy());
    put(&mut m, "eval_losses", array(&ind.eval_losses));
    put(&mut m, "fitness", ind.fitness.copy());
    put(&mut m, "idx", Json::number(i as u64));
    put(&mut m, "loss", ind.loss.copy());
    put(&mut m, "params", Json::number(ind.params as u64));
    put(&mut m, "seed", Json::number(ind.seed as u64));
    put(&mut m, "topo_hash", Json::string(ind.topo_hash.as_str()));
    put(&mut m, "topology", Json::string(ind.topology.as_str()));
    put(&mut m, "train_losses", array(&ind.train_losses));
    proof {
        object_says(m);
        assert(pairs(m@) =~= metrics_value(i as int, *ind)->Object_0);
    }
    Json::Object(m)
}

fn make_stats(s: &StatValues) -> (r: Json)
    ensures
        r@ == stats_value(*s),
{
    let mut m: Vec<Member> = Vec::new();
    put(&mut m, "avg_loss", s.avg_loss.copy());
    put(&mut m, "avg_params", s.avg_params.copy());
    put(&mut m, "avg_score", s.avg_score.copy());
    put(&mut m, "best_loss", s.best_loss.copy());
    put(&mut m, "best_score", s.best_score.copy());
    proof {
        object_says(m);
        assert(pairs(m@) =~= stats_value(*s)->Object_0);
    }
    Json::Object(m)
}

/// The record of a generation: every individual with its metrics and its
/// topology, the statistics, and the seed the generation was trained with.
pub fn make_generation(
    run_seed: u64,
    generation: usize,
    unique_topos: usize,
    stats: &StatValues,
    inds: &Vec<IndividualMetrics>,
) -> (r: Json)
    ensures
        r@ == generation_value(run_seed, generation, unique_topos, *stats, inds@),
{
    let mut items: Vec<Json> = Vec::new();
    let mut i: usize = 0;
    while i < inds.len()
        invariant
            i <= inds@.len(),
            values(items@) =~= metrics_values(inds@).take(i as int),
        decreases inds@.len() - i,
    {
        let ghost before = items@;
        items.push(make_metrics(i, &inds[i]));
        assert(values(items@) =~= values(before).push(metrics_value(i as int, inds@[i as int])));
        i = i + 1;
    }
    proof {
        array_says(items);
        assert(values(items@) =~= metrics_values(inds@));
    }
    let mut m: Vec<Member> = Vec::new();
    put(&mut m, "gen_seed", Json::number(derive_seed(run_seed, generation)));
    put(&mut m, "generation", Json::number(generation as u64));
    put(&mut m, "individuals", Json::Array(items));
    put(&mut m, "stats", make_stats(stats));
    put(&mut m, "unique_topos", Json::number(unique_topos as u64));
    proof {
        object_says(m);
        assert(pairs(m@) =~= generation_value(
            run_seed,
            generation,
            unique_topos,
            *stats,
            inds@,
        )->Object_0);
    }
    Json::Object(m)
}

/// Every value of a list has its keys in order.
pub open spec fn all_ordered(items: Seq<Json>) -> bool {
    forall|i: int| 0 <= i < items.len() ==> ordered((#[trigger] items[i])@)
}

/// The values that an individual's record takes over have their keys in order.
pub open spec fn metrics_ordered(ind: IndividualMetrics) -> bool {
    &&& ordered(ind.dropout_prob@)
    &&& ordered(ind.fitness@)
    &&& ordered(ind.loss@)
    &&& all_ordered(ind.train_losses@)
    &&& all_ordered(ind.eval_losses@)
}

/// The values that the statistics take over have their keys in order.
pub open spec fn stats_ordered(s: StatValues) -> bool {
    &&& ordered(s.best_score@)
    &&& ordered(s.best_loss@)
    &&& ordered(s.avg_score@)
    &&& ordered(s.avg_loss@)
    &&& ordered(s.avg_params@)
}

proof fn list_is_ordered(items: Seq<Json>)
    ensures
        ordered(JsonView::Array(values(items))) <==> all_ordered(items),
{
    let v = values(items);
    crate::json::items_are_ordered(v);
    if ordered(JsonView::Array(v)) {
        assert forall|i: int| 0 <= i < items.len() implies ordered((#[trigger] items[i])@) by {
            assert(ordered(v[i]));
        }
    }
    if all_ordered(items) {
        assert forall|i: int| 0 <= i < v.len() implies ordered(#[trigger] v[i]) by {
            assert(ordered(items[i]@));
        }
    }
}

proof fn metrics_are_ordered(i: int, ind: IndividualMetrics)
    ensures
        ordered(metrics_value(i, ind)) <==> metrics_ordered(ind),
{
    let m = metrics_value(i, ind)->Object_0;
    reveal_strlit("dropout_prob");
    reveal_strlit("eval_losses");
    reveal_strlit("fitness");
    reveal_strlit("idx");
    reveal_strlit("loss");
    reveal_strlit("params");
    reveal_strlit("seed");
    reveal_strlit("topo_hash");
    reveal_strlit("topology");
    reveal_strlit("train_losses");
    reveal_with_fuel(text_below, 8);
    assert(text_below(m[0].0, m[1].0));
    assert(text_below(m[1].0, m[2].0));
    assert(text_below(m[2].0, m[3].0));
    assert(text_below(m[3].0, m[4].0));
    assert(text_below(m[4].0, m[5].0));
    assert(text_below(m[5].0, m[6].0));
    assert(text_below(m[6].0, m[7].0));
    assert(text_below(m[7].0, m[8].0));
    assert(text_below(m[8].0, m[9].0));
    members_are_ordered(m);
    list_is_ordered(ind.train_losses@);
    list_is_ordered(ind.eval_losses@);
    if ordered(metrics_value(i, ind)) {
        assert(ordered(m[0].1) && ordered(m[1].1) && ordered(m[2].1) && ordered(m[4].1)
            && ordered(m[9].1));
    }
}

proof fn stats_are_ordered(s: StatValues)
    ensures
        ordered(stats_value(s)) <==> stats_ordered(s),
{
    let m = stats_value(s)->Object_0;
    reveal_strlit("avg_loss");
    reveal_strlit("avg_params");
    reveal_strlit("avg_score");
    reveal_strlit("best_loss");
    reveal_strlit("best_score");
    reveal_with_fuel(text_below, 8);
    assert(text_below(m[0].0, m[1].0));
    assert(text_below(m[1].0, m[2].0));
    assert(text_below(m[2].0, m[3].0));
    assert(text_below(m[3].0, m[4].0));
    members_are_ordered(m);
    if ordered(stats_value(s)) {
        assert(ordered(m[0].1) && ordered(m[1].1) && ordered(m[2].1) && ordered(m[3].1)
            && ordered(m[4].1));
    }
}

proof fn generation_is_ordered(
    run_seed: u64,
    generation: usize,
    unique_topos: usize,
    stats: StatValues,
    inds: Seq<IndividualMetrics>,
)
    ensures
        ordered(generation_value(run_seed, generation, unique_topos, stats, inds)) <==> {
            &&& stats_ordered(stats)
            &&& forall|i: int| 0 <= i < inds.len() ==> metrics_ordered(#[trigger] inds[i])
        },
{
    let v = generation_value(run_seed, generation, unique_topos, stats, inds);
    let m = v->Object_0;
    let items = metrics_values(inds);
    reveal_strlit("gen_seed");
    reveal_strlit("generation");
    reveal_strlit("individuals");
    reveal_strlit("stats");
    reveal_strlit("unique_topos");
    reveal_with_fuel(text_below, 8);
    assert(text_below(m[0].0, m[1].0));
    assert(text_below(m[1].0, m[2].0));
    assert(text_below(m[2].0, m[3].0));
    assert(text_below(m[3].0, m[4].0));
    members_are_ordered(m);
    stats_are_ordered(stats);
    crate::json::items_are_ordered(items);
    assert forall|i: int| 0 <= i < inds.len() implies (ordered(#[trigger] items[i])
        <==> metrics_ordered(inds[i])) by {
        metrics_are_ordered(i, inds[i]);
    }
    if ordered(v) {
        assert(ordered(m[2].1) && ordered(m[3].1));
        assert forall|i: int| 0 <= i < inds.len() implies metrics_ordered(#[trigger] inds[i]) by {
            assert(ordered(items[i]));
        }
    } else if stats_ordered(stats) && forall|i: int|
        0 <= i < inds.len() ==> metrics_ordered(#[trigger] inds[i]) {
        assert forall|i: int| 0 <= i < items.len() implies ordered(#[trigger] items[i]) by {
            assert(metrics_ordered(inds[i]));
        }
        assert(ordered(m[2].1));
    }
}

/// The text of the record of a generation. None if a value that it takes over
/// has its keys out of order.
pub fn generation_json(
    run_seed: u64,
    generation: usize,
    unique_topos: usize,
    stats: &StatValues,
    inds: &Vec<IndividualMetrics>,
) -> (r: Option<String>)
    ensures
        r is Some <==> {
            &&& stats_ordered(*stats)
            &&& forall|i: int| 0 <= i < inds@.len() ==> metrics_ordered(#[trigger] inds@[i])
        },
        r matches Some(t) ==> t@ == pretty_text(
            as_read(generation_value(run_seed, generation, unique_topos, *stats, inds@)),
        ),
{
    proof {
        generation_is_ordered(run_seed, generation, unique_topos, *stats, inds@);
    }
    make_generation(run_seed, generation, unique_topos, stats, inds).to_json()
}

// ── The history of a run ─────────────────────────────────────────────────

/// What the history of a run keeps of a generation. Measured numbers come as
/// the values they are written as.
#[derive(Debug)]
pub struct HistoryValues {
    pub generation: usize,
    pub best_score: Json,
    pub best_loss: Json,
    pub worst_score: Json,
    pub worst_loss: Json,
    pub avg_score: Json,
    pub avg_loss: Json,
    pub best_params: usize,
    pub avg_params: Json,
    pub unique_topos: usize,
}

/// A generation in the history.
pub open spec fn past_value(h: HistoryValues) -> JsonView {
    JsonView::Object(
        seq![
            ("avg_loss"@, h.avg_loss@),
            ("avg_params"@, h.avg_params@),
            ("avg_score"@, h.avg_score@),
            ("best_loss"@, h.best_loss@),
            ("best_params"@, number_value(h.best_params as nat)),
            ("best_score"@, h.best_score@),
            ("generation"@, number_value(h.generation as nat)),
            ("unique_topos"@, number_value(h.unique_topos as nat)),
            ("worst_loss"@, h.worst_loss@),
            ("worst_score"@, h.worst_score@),
        ],
    )
}

/// Makes the entry of a generation in the history.
pub fn make_past(h: &HistoryValues) -> (r: Json)
    ensures
        r@ == past_value(*h),
{
    let mut m: Vec<Member> = Vec::new();
    put(&mut m, "avg_loss", h.avg_loss.copy());
    put(&mut m, "avg_params", h.avg_params.copy());
    put(&mut m, "avg_score", h.avg_score.copy());
    put(&mut m, "best_loss", h.best_loss.copy());
    put(&mut m, "best_params", Json::number(h.best_params as u64));
    put(&mut m, "best_score", h.best_score.copy());
    put(&mut m, "generation", Json::number(h.generation as u64));
    put(&mut m, "unique_topos", Json::number(h.unique_topos as u64));
    put(&mut m, "worst_loss", h.worst_loss.copy());
    put(&mut m, "worst_score", h.worst_score.copy());
    proof {
        object_says(m);
        assert(pairs(m@) =~= past_value(*h)->Object_0);
    }
    Json::Object(m)
}

/// What is kept of a topology that was seen. Measured numbers come as the values
/// they are written as.
#[derive(Debug)]
pub struct SeenValues {
    pub count: usize,
    pub min_fitness: Json,
    pub max_fitness: Json,
    pub mean: Json,
    /// The sum of the squared distances from the mean.
    pub m2: Json,
    pub param_count: usize,
    pub topology: String,
}

/// A topology in the report of a run.
pub open spec fn seen_value(s: SeenValues) -> JsonView {
    JsonView::Object(
        seq![
            ("count"@, number_value(s.count as nat)),
            ("m2"@, s.m2@),
            ("max_fitness"@, s.max_fitness@),
            ("mean"@, s.mean@),
            ("min_fitness"@, s.min_fitness@),
            ("param_count"@, number_value(s.param_count as nat)),
            ("topology_json"@, JsonView::Text(s.topology@)),
        ],
    )
}

/// Makes the entry of a topology in the report of a run.
pub fn make_seen(s: &SeenValues) -> (r: Json)
    ensures
        r@ == seen_value(*s),
{
    let mut m: Vec<Member> = Vec::new();
    put(&mut m, "count", Json::number(s.count as u64));
    put(&mut m, "m2", s.m2.copy());
    put(&mut m, "max_fitness", s.max_fitness.copy());
    put(&mut m, "mean", s.mean.copy());
    put(&mut m, "min_fitness", s.min_fitness.copy());
    put(&mut m, "param_count", Json::number(s.param_count as u64));
    put(&mut m, "topology_json", Json::string(s.topology.as_str()));
    proof {
        object_says(m);
        assert(pairs(m@) =~= seen_value(*s)->Object_0);
    }
    Json::Object(m)
}

// ── The whole run ────────────────────────────────────────────────────────

/// What the envelope of a run says of it. The options, the history and the
/// robustness report come as the values they are written as.
#[derive(Debug)]
pub struct RunEnvelope {
    pub run_id: String,
    pub run_seed: u64,
    pub generation: usize,
    pub pop_size: usize,
    pub fitness_label: String,
    pub direction: Direction,
    pub options: Json,
    pub topology: TopologyOptions,
    pub hidden_dim_pool: DimRange,
    pub hidden_dim_stride: usize,
    pub history: Vec<Json>,
    pub robustness: Json,
}

/// The name of a direction.
pub open spec fn direction_name(d: Direction) -> Seq<char> {
    match d {
        Direction::Minimize => "Minimize"@,
        Direction::Maximize => "Maximize"@,
    }
}

/// A range, both ends in it.
pub open spec fn range_text(r: DimRange) -> Seq<char> {
    decimal_text(r.start as nat) + "..="@ + decimal_text(r.end as nat)
}

/// The history of a run; null if none was kept.
pub open spec fn history_value(history: Seq<Json>) -> JsonView {
    if history.len() == 0 {
        JsonView::Null
    } else {
        JsonView::Array(values(history))
    }
}

/// The topology template of a run.
pub open spec fn template_value(
    t: TopologyOptions,
    pool: DimRange,
    stride: usize,
) -> JsonView {
    JsonView::Object(
        seq![
            ("hidden_dim_pool"@, JsonView::Text(range_text(pool))),
            ("hidden_dim_stride"@, number_value(stride as nat)),
            ("input_dim"@, optional_number(t.input_dim)),
            ("max_hidden_inputs_per_node"@, optional_number(t.max_hidden_inputs_per_node)),
            ("max_hidden_num_nodes"@, optional_number(t.max_hidden_num_nodes)),
            ("max_hidden_outputs_per_node"@, optional_number(t.max_hidden_outputs_per_node)),
            ("min_hidden_inputs_per_node"@, optional_number(t.min_hidden_inputs_per_node)),
            ("min_hidden_num_nodes"@, optional_number(t.min_hidden_num_nodes)),
            ("min_hidden_outputs_per_node"@, optional_number(t.min_hidden_outputs_per_node)),
            ("output_dim"@, optional_number(t.output_dim)),
        ],
    )
}

/// The envelope of a run.
pub open spec fn envelope_value(e: RunEnvelope) -> JsonView {
    JsonView::Object(
        seq![
            ("fitness_direction"@, JsonView::Text(direction_name(e.direction))),
            ("fitness_label"@, JsonView::Text(e.fitness_label@)),
            ("generation"@, number_value(e.generation as nat)),
            ("history"@, history_value(e.history@)),
            ("input_dim"@, optional_number(e.topology.input_dim)),
            ("options"@, e.options@),
            ("output_dim"@, optional_number(e.topology.output_dim)),
            ("pop_size"@, number_value(e.pop_size as nat)),
            ("robustness"@, e.robustness@),
            ("run_id"@, JsonView::Text(e.run_id@)),
            ("run_seed"@, number_value(e.run_seed as nat)),
            (
                "topology_options"@,
                template_value(e.topology, e.hidden_dim_pool, e.hidden_dim_stride),
            ),
        ],
    )
}

fn make_template(t: &TopologyOptions, pool: DimRange, stride: usize) -> (r: Json)
    ensures
        r@ == template_value(*t, pool, stride),
{
    let mut range = decimal(pool.start as u64);
    range.append("..=");
    range.append(decimal(pool.end as u64).as_str());
    let mut m: Vec<Member> = Vec::new();
    put(&mut m, "hidden_dim_pool", Json::Text(range));
    put(&mut m, "hidden_dim_stride", Json::number(stride as u64));
    put(&mut m, "input_dim", Json::maybe_number(t.input_dim));
    put(&mut m, "max_hidden_inputs_per_node", Json::maybe_number(t.max_hidden_inputs_per_node));
    put(&mut m, "max_hidden_num_nodes", Json::maybe_number(t.max_hidden_num_nodes));
    put(&mut m, "max_hidden_outputs_per_node", Json::maybe_number(t.max_hidden_outputs_per_node));
    put(&mut m, "min_hidden_inputs_per_node", Json::maybe_number(t.min_hidden_inputs_per_node));
    put(&mut m, "min_hidden_num_nodes", Json::maybe_number(t.min_hidden_num_nodes));
    put(&mut m, "min_hidden_outputs_per_node", Json::maybe_number(t.min_hidden_outputs_per_node));
    put(&mut m, "output_dim", Json::maybe_number(t.output_dim));
    proof {
        object_says(m);
        assert(pairs(m@) =~= template_value(*t, pool, stride)->Object_0);
    }
    Json::Object(m)
}

impl RunEnvelope {
    /// The envelope as it is written.
    pub fn build_envelope(&self) -> (r: Json)
        ensures
            r@ == envelope_value(*self),
    {
        let history = if self.history.len() == 0 {
            Json::Null
        } else {
            array(&self.history)
        };
        let mut m: Vec<Member> = Vec::new();
        put(
            &mut m,
            "fitness_direction",
            Json::string(
                match self.direction {
                    Direction::Minimize => "Minimize",
                    Direction::Maximize => "Maximize",
                },
            ),
        );
        put(&mut m, "fitness_label", Json::string(self.fitness_label.as_str()));
        put(&mut m, "generation", Json::number(self.generation as u64));
        put(&mut m, "history", history);
        put(&mut m, "input_dim", Json::maybe_number(self.topology.input_dim));
        put(&mut m, "options", self.options.copy());
        put(&mut m, "output_dim", Json::maybe_number(self.topology.output_dim));
        put(&mut m, "pop_size", Json::number(self.pop_size as u64));
        put(&mut m, "robustness", self.robustness.copy());
        put(&mut m, "run_id", Json::string(self.run_id.as_str()));
        put(&mut m, "run_seed", Json::number(self.run_seed));
        put(
            &mut m,
            "topology_options",
            make_template(&self.topology, self.hidden_dim_pool, self.hidden_dim_stride),
        );
        proof {
            object_says(m);
            assert(pairs(m@) =~= envelope_value(*self)->Object_0);
        }
        Json::Object(m)
    }
}

/// The values that an envelope takes over have their keys in order.
pub open spec fn envelope_ordered(e: RunEnvelope) -> bool {
    &&& ordered(e.options@)
    &&& ordered(e.robustness@)
    &&& all_ordered(e.history@)
}

proof fn template_is_ordered(t: TopologyOptions, pool: DimRange, stride: usize)
    ensures
        ordered(template_value(t, pool, stride)),
{
    let m = template_value(t, pool, stride)->Object_0;
    reveal_strlit("hidden_dim_pool");
    reveal_strlit("hidden_dim_stride");
    reveal_strlit("input_dim");
    reveal_strlit("max_hidden_inputs_per_node");
    reveal_strlit("max_hidden_num_nodes");
    reveal_strlit("max_hidden_outputs_per_node");
    reveal_strlit("min_hidden_inputs_per_node");
    reveal_strlit("min_hidden_num_nodes");
    reveal_strlit("min_hidden_outputs_per_node");
    reveal_strlit("output_dim");
    reveal_with_fuel(text_below, 14);
    assert(text_below(m[0].0, m[1].0));
    assert(text_below(m[1].0, m[2].0));
    assert(text_below(m[2].0, m[3].0));
    assert(text_below(m[3].0, m[4].0));
    assert(text_below(m[4].0, m[5].0));
    assert(text_below(m[5].0, m[6].0));
    assert(text_below(m[6].0, m[7].0));
    assert(text_below(m[7].0, m[8].0));
    assert(text_below(m[8].0, m[9].0));
    members_are_ordered(m);
}

proof fn envelope_is_ordered(e: RunEnvelope)
    ensures
        ordered(envelope_value(e)) <==> envelope_ordered(e),
{
    let m = envelope_value(e)->Object_0;
    reveal_strlit("fitness_direction");
    reveal_strlit("fitness_label");
    reveal_strlit("generation");
    reveal_strlit("history");
    reveal_strlit("input_dim");
    reveal_strlit("options");
    reveal_strlit("output_dim");
    reveal_strlit("pop_size");
    reveal_strlit("robustness");
    reveal_strlit("run_id");
    reveal_strlit("run_seed");
    reveal_strlit("topology_options");
    reveal_with_fuel(text_below, 10);
    assert(text_below(m[0].0, m[1].0));
    assert(text_below(m[1].0, m[2].0));
    assert(text_below(m[2].0, m[3].0));
    assert(text_below(m[3].0, m[4].0));
    assert(text_below(m[4].0, m[5].0));
    assert(text_below(m[5].0, m[6].0));
    assert(text_below(m[6].0, m[7].0));
    assert(text_below(m[7].0, m[8].0));
    assert(text_below(m[8].0, m[9].0));
    assert(text_below(m[9].0, m[10].0));
    assert(text_below(m[10].0, m[11].0));
    members_are_ordered(m);
    list_is_ordered(e.history@);
    template_is_ordered(e.topology, e.hidden_dim_pool, e.hidden_dim_stride);
    if ordered(envelope_value(e)) {
        assert(ordered(m[3].1) && ordered(m[5].1) && ordered(m[8].1));
    }
}

impl RunEnvelope {
    /// The text of the envelope. None if a value that it takes over has its keys
    /// out of order.
    pub fn to_json(&self) -> (r: Option<String>)
        ensures
            r is Some <==> envelope_ordered(*self),
            r matches Some(t) ==> t@ == pretty_text(as_read(envelope_value(*self))),
            r matches Some(t) ==> plain(envelope_value(*self)) && depth(envelope_value(*self))
                < 128 ==> reads_as(t@, envelope_value(*self)),
    {
        proof {
            envelope_is_ordered(*self);
        }
        self.build_envelope().to_json()
    }
}

// ── A finished run ───────────────────────────────────────────────────────

/// The list under a key of what a text says; empty if the text is no JSON or has
/// no such list.
pub open spec fn past_list(v: Result<JsonView, Seq<char>>, key: Seq<char>) -> Seq<JsonView> {
    match v {
        Ok(v) => match field(v, key) {
            Some(JsonView::Array(items)) => items,
            _ => Seq::empty(),
        },
        Err(_) => Seq::empty(),
    }
}

fn list_under(v: &Json, key: &str) -> (r: Vec<Json>)
    ensures
        values(r@) == (match field(v@, key@) {
            Some(JsonView::Array(items)) => items,
            _ => Seq::empty(),
        }),
{
    let none: Vec<Json> = Vec::new();
    assert(values(none@) =~= Seq::empty());
    match v.get(key) {
        Some(x) => match x {
            Json::Array(items) => {
                proof {
                    array_says(*items);
                }
                copy_all(items)
            },
            _ => none,
        },
        None => none,
    }
}

/// What the report of a finished run says of a topology; the measured numbers
/// are texts.
#[derive(Debug)]
pub struct SeenTexts {
    pub count: usize,
    pub min_fitness: String,
    pub max_fitness: String,
    pub mean: String,
    pub m2: String,
    pub param_count: usize,
    pub topology: String,
}

/// The whole number under a key, if it fits.
pub open spec fn size_field(v: JsonView, key: Seq<char>) -> Option<usize> {
    match number_field(v, key) {
        Some(n) => if n <= usize::MAX {
            Some(n as usize)
        } else {
            None
        },
        None => None,
    }
}

/// The text under a key.
pub open spec fn text_field(v: JsonView, key: Seq<char>) -> Option<Seq<char>> {
    match field(v, key) {
        Some(JsonView::Text(t)) => Some(t),
        _ => None,
    }
}

fn get_size(v: &Json, key: &str) -> (r: Option<usize>)
    ensures
        r == size_field(v@, key@),
{
    match v.get_number(key) {
        Some(n) => if n <= usize::MAX as u64 {
            Some(n as usize)
        } else {
            None
        },
        None => None,
    }
}

fn get_text(v: &Json, key: &str) -> (r: Option<String>)
    ensures
        optional_view(r) == text_field(v@, key@),
{
    match v.get(key) {
        Some(x) => match x {
            Json::Text(t) => Some(t.clone()),
            _ => None,
        },
        None => None,
    }
}

/// Whether an entry of the report says all there is to say of a topology.
pub open spec fn is_seen(v: JsonView) -> bool {
    &&& size_field(v, "count"@) is Some
    &&& number_text(v, "min_fitness"@) is Some
    &&& number_text(v, "max_fitness"@) is Some
    &&& number_text(v, "mean"@) is Some
    &&& number_text(v, "m2"@) is Some
    &&& size_field(v, "param_count"@) is Some
    &&& text_field(v, "topology_json"@) is Some
}

/// What was read is what the entry says.
pub open spec fn seen_as(s: SeenTexts, v: JsonView) -> bool {
    &&& size_field(v, "count"@) == Some(s.count)
    &&& number_text(v, "min_fitness"@) == Some(s.min_fitness@)
    &&& number_text(v, "max_fitness"@) == Some(s.max_fitness@)
    &&& number_text(v, "mean"@) == Some(s.mean@)
    &&& number_text(v, "m2"@) == Some(s.m2@)
    &&& size_field(v, "param_count"@) == Some(s.param_count)
    &&& text_field(v, "topology_json"@) == Some(s.topology@)
}

/// Reads an entry of the report; none if something is missing.
pub fn read_seen(v: &Json) -> (r: Option<SeenTexts>)
    ensures
        r is Some <==> is_seen(v@),
        r matches Some(s) ==> seen_as(s, v@),
{
    match (
        get_size(v, "count"),
        get_number_text(v, "min_fitness"),
        get_number_text(v, "max_fitness"),
        get_number_text(v, "mean"),
        get_number_text(v, "m2"),
        get_size(v, "param_count"),
        get_text(v, "topology_json"),
    ) {
        (
            Some(count),
            Some(min_fitness),
            Some(max_fitness),
            Some(mean),
            Some(m2),
            Some(param_count),
            Some(topology),
        ) => Some(
            SeenTexts { count, min_fitness, max_fitness, mean, m2, param_count, topology },
        ),
        _ => None,
    }
}

/// What the history of a finished run says of a generation; the measured
/// numbers are texts.
#[derive(Debug)]
pub struct PastTexts {
    pub generation: usize,
    pub best_score: String,
    pub best_loss: Option<String>,
    pub worst_score: String,
    pub worst_loss: Option<String>,
    pub avg_score: String,
    pub avg_loss: Option<String>,
    pub best_params: usize,
    pub avg_params: String,
    pub unique_topos: usize,
}

/// A number may stand under a key; null, or no such key, says that there is
/// none.
pub open spec fn may_hold_number(v: JsonView, key: Seq<char>) -> bool {
    match field(v, key) {
        Some(JsonView::Number(_)) => true,
        Some(JsonView::Null) => true,
        Some(_) => false,
        None => true,
    }
}

fn allows_number(v: &Json, key: &str) -> (r: bool)
    ensures
        r == may_hold_number(v@, key@),
{
    match v.get(key) {
        Some(x) => match x {
            Json::Number(_) => true,
            Json::Null => true,
            _ => false,
        },
        None => true,
    }
}

/// Whether an entry of the history is the record of a generation: its counts
/// and its scores are there, and its losses are numbers where they are there.
pub open spec fn is_past(v: JsonView) -> bool {
    &&& size_field(v, "generation"@) is Some
    &&& number_text(v, "best_score"@) is Some
    &&& may_hold_number(v, "best_loss"@)
    &&& number_text(v, "worst_score"@) is Some
    &&& may_hold_number(v, "worst_loss"@)
    &&& number_text(v, "avg_score"@) is Some
    &&& may_hold_number(v, "avg_loss"@)
    &&& size_field(v, "best_params"@) is Some
    &&& number_text(v, "avg_params"@) is Some
    &&& size_field(v, "unique_topos"@) is Some
}

/// What was read is what the entry says.
pub open spec fn past_as(p: PastTexts, v: JsonView) -> bool {
    &&& size_field(v, "generation"@) == Some(p.generation)
    &&& number_text(v, "best_score"@) == Some(p.best_score@)
    &&& number_text(v, "best_loss"@) == optional_view(p.best_loss)
    &&& number_text(v, "worst_score"@) == Some(p.worst_score@)
    &&& number_text(v, "worst_loss"@) == optional_view(p.worst_loss)
    &&& number_text(v, "avg_score"@) == Some(p.avg_score@)
    &&& number_text(v, "avg_loss"@) == optional_view(p.avg_loss)
    &&& size_field(v, "best_params"@) == Some(p.best_params)
    &&& number_text(v, "avg_params"@) == Some(p.avg_params@)
    &&& size_field(v, "unique_topos"@) == Some(p.unique_topos)
}

/// Reads an entry of the history; none if it is no record of a generation.
pub fn read_past(v: &Json) -> (r: Option<PastTexts>)
    ensures
        r is Some <==> is_past(v@),
        r matches Some(p) ==> past_as(p, v@),
{
    if !allows_number(v, "best_loss") || !allows_number(v, "worst_loss") || !allows_number(
        v,
        "avg_loss",
    ) {
        return None;
    }
    match (
        get_size(v, "generation"),
        get_number_text(v, "best_score"),
        get_number_text(v, "worst_score"),
        get_number_text(v, "avg_score"),
        get_size(v, "best_params"),
        get_number_text(v, "avg_params"),
        get_size(v, "unique_topos"),
    ) {
        (
            Some(generation),
            Some(best_score),
            Some(worst_score),
            Some(avg_score),
            Some(best_params),
            Some(avg_params),
            Some(unique_topos),
        ) => Some(
            PastTexts {
                generation,
                best_score,
                best_loss: get_number_text(v, "best_loss"),
                worst_score,
                worst_loss: get_number_text(v, "worst_loss"),
                avg_score,
                avg_loss: get_number_text(v, "avg_loss"),
                best_params,
                avg_params,
                unique_topos,
            },
        ),
        _ => None,
    }
}

/// The history in what the envelope of a finished run says; empty unless every
/// entry of it is the record of a generation.
pub open spec fn past_history(v: Result<JsonView, Seq<char>>) -> Seq<JsonView> {
    let items = past_list(v, "history"@);
    if forall|i: int| 0 <= i < items.len() ==> is_past(#[trigger] items[i]) {
        items
    } else {
        Seq::empty()
    }
}

/// The report of the topologies in what the envelope of a finished run says;
/// empty unless every entry of it says all there is to say of a topology.
pub open spec fn past_report(v: Result<JsonView, Seq<char>>) -> Seq<JsonView> {
    let items = past_list(v, "robustness"@);
    if forall|i: int| 0 <= i < items.len() ==> is_seen(#[trigger] items[i]) {
        items
    } else {
        Seq::empty()
    }
}

fn all_past(items: &Vec<Json>) -> (r: bool)
    ensures
        r == (forall|i: int|
            0 <= i < items@.len() ==> is_past(#[trigger] values(items@)[i])),
{
    let mut i: usize = 0;
    while i < items.len()
        invariant
            i <= items@.len(),
            forall|k: int| 0 <= k < i ==> is_past(#[trigger] values(items@)[k]),
        decreases items@.len() - i,
    {
        if read_past(&items[i]).is_none() {
            assert(!is_past(values(items@)[i as int]));
            return false;
        }
        i = i + 1;
    }
    true
}

fn all_seen(items: &Vec<Json>) -> (r: bool)
    ensures
        r == (forall|i: int|
            0 <= i < items@.len() ==> is_seen(#[trigger] values(items@)[i])),
{
    let mut i: usize = 0;
    while i < items.len()
        invariant
            i <= items@.len(),
            forall|k: int| 0 <= k < i ==> is_seen(#[trigger] values(items@)[k]),
        decreases items@.len() - i,
    {
        if read_seen(&items[i]).is_none() {
            assert(!is_seen(values(items@)[i as int]));
            return false;
        }
        i = i + 1;
    }
    true
}

/// Takes the history and the report of the topologies back from the envelope of
/// a finished run. A text that is no JSON, or holds no such list, gives none,
/// and so does a list with an entry that is not of its kind.
pub fn load_past(raw: &str) -> (r: (Vec<Json>, Vec<Json>))
    ensures
        values(r.0@) == past_history(parsed_json(raw@)),
        values(r.1@) == past_report(parsed_json(raw@)),
{
    let none: Vec<Json> = Vec::new();
    let nothing: Vec<Json> = Vec::new();
    assert(values(none@) =~= Seq::empty());
    assert(values(nothing@) =~= Seq::empty());
    match Json::parse(raw) {
        Ok(v) => {
            let history = list_under(&v, "history");
            let report = list_under(&v, "robustness");
            let history = if all_past(&history) {
                history
            } else {
                none
            };
            let report = if all_seen(&report) {
                report
            } else {
                nothing
            };
            (history, report)
        },
        Err(_) => (none, nothing),
    }
}

/// What the history says of a generation is read back, if its scores were
/// measured.
pub proof fn generations_read_back(h: HistoryValues, p: PastTexts)
    requires
        h.best_score@ is Number,
        h.worst_score@ is Number,
        h.avg_score@ is Number,
        h.avg_params@ is Number,
        h.best_loss@ is Number || h.best_loss@ is Null,
        h.worst_loss@ is Number || h.worst_loss@ is Null,
        h.avg_loss@ is Number || h.avg_loss@ is Null,
    ensures
        is_past(past_value(h)),
        past_as(p, past_value(h)) ==> {
            &&& p.generation == h.generation
            &&& JsonView::Number(p.best_score@) == h.best_score@
            &&& loss_as(p.best_loss, h.best_loss@)
            &&& JsonView::Number(p.worst_score@) == h.worst_score@
            &&& loss_as(p.worst_loss, h.worst_loss@)
            &&& JsonView::Number(p.avg_score@) == h.avg_score@
            &&& loss_as(p.avg_loss, h.avg_loss@)
            &&& p.best_params == h.best_params
            &&& JsonView::Number(p.avg_params@) == h.avg_params@
            &&& p.unique_topos == h.unique_topos
        },
{
    let m = past_value(h)->Object_0;
    reveal_strlit("avg_loss");
    reveal_strlit("avg_params");
    reveal_strlit("avg_score");
    reveal_strlit("best_loss");
    reveal_strlit("best_params");
    reveal_strlit("best_score");
    reveal_strlit("generation");
    reveal_strlit("unique_topos");
    reveal_strlit("worst_loss");
    reveal_strlit("worst_score");
    reveal_with_fuel(text_below, 8);
    assert(text_below(m[0].0, m[1].0));
    assert(text_below(m[1].0, m[2].0));
    assert(text_below(m[2].0, m[3].0));
    assert(text_below(m[3].0, m[4].0));
    assert(text_below(m[4].0, m[5].0));
    assert(text_below(m[5].0, m[6].0));
    assert(text_below(m[6].0, m[7].0));
    assert(text_below(m[7].0, m[8].0));
    assert(text_below(m[8].0, m[9].0));
    members_are_ordered(m);
    assert forall|i: int, j: int| 0 <= i < j < m.len() implies (#[trigger] m[i]).0 != (
    #[trigger] m[j]).0 by {
        text_order_is_total(m[i].0, m[j].0);
    }
    key_is_found(m, "avg_loss"@, 0);
    key_is_found(m, "avg_params"@, 1);
    key_is_found(m, "avg_score"@, 2);
    key_is_found(m, "best_loss"@, 3);
    key_is_found(m, "best_params"@, 4);
    key_is_found(m, "best_score"@, 5);
    key_is_found(m, "generation"@, 6);
    key_is_found(m, "unique_topos"@, 7);
    key_is_found(m, "worst_loss"@, 8);
    key_is_found(m, "worst_score"@, 9);
    crate::json::number_is_plain(h.generation as u64);
    crate::json::number_is_plain(h.best_params as u64);
    crate::json::number_is_plain(h.unique_topos as u64);
}

/// A loss is the number that was written, and none where null was.
pub open spec fn loss_as(loss: Option<String>, v: JsonView) -> bool {
    match loss {
        Some(t) => v == JsonView::Number(t@),
        None => v is Null,
    }
}

/// What is written of a topology is read back, if it was measured.
pub proof fn seen_topologies_read_back(s: SeenValues, r: SeenTexts)
    requires
        s.min_fitness@ is Number,
        s.max_fitness@ is Number,
        s.mean@ is Number,
        s.m2@ is Number,
    ensures
        is_seen(seen_value(s)),
        seen_as(r, seen_value(s)) ==> {
            &&& r.count == s.count
            &&& JsonView::Number(r.min_fitness@) == s.min_fitness@
            &&& JsonView::Number(r.max_fitness@) == s.max_fitness@
            &&& JsonView::Number(r.mean@) == s.mean@
            &&& JsonView::Number(r.m2@) == s.m2@
            &&& r.param_count == s.param_count
            &&& r.topology@ == s.topology@
        },
{
    let m = seen_value(s)->Object_0;
    reveal_strlit("count");
    reveal_strlit("m2");
    reveal_strlit("max_fitness");
    reveal_strlit("mean");
    reveal_strlit("min_fitness");
    reveal_strlit("param_count");
    reveal_strlit("topology_json");
    assert("max_fitness"@[1] == 'a' && "min_fitness"@[1] == 'i');
    assert("count"@.len() == 5 && "m2"@.len() == 2 && "mean"@.len() == 4);
    assert("max_fitness"@.len() == 11 && "min_fitness"@.len() == 11);
    assert("param_count"@[0] == 'p' && "max_fitness"@[0] == 'm' && "min_fitness"@[0] == 'm');
    key_is_found(m, "count"@, 0);
    key_is_found(m, "m2"@, 1);
    key_is_found(m, "max_fitness"@, 2);
    key_is_found(m, "mean"@, 3);
    key_is_found(m, "min_fitness"@, 4);
    key_is_found(m, "param_count"@, 5);
    key_is_found(m, "topology_json"@, 6);
    crate::json::number_is_plain(s.count as u64);
    crate::json::number_is_plain(s.param_count as u64);
}

/// What the envelope of a run is read as, its past is in it: the history it was
/// written with, if that is one of generations, and the report, if that is a list
/// of topologies.
pub proof fn the_past_reads_back(e: RunEnvelope, raw: Seq<char>)
    requires
        reads_as(raw, envelope_value(e)),
    ensures
        past_history(parsed_json(raw)) == (if forall|i: int|
            0 <= i < e.history@.len() ==> is_past(#[trigger] values(e.history@)[i]) {
            values(e.history@)
        } else {
            Seq::empty()
        }),
        e.robustness@ matches JsonView::Array(items) ==> past_report(parsed_json(raw)) == (
        if forall|i: int| 0 <= i < items.len() ==> is_seen(#[trigger] items[i]) {
            items
        } else {
            Seq::empty()
        }),
{
    let m = envelope_value(e)->Object_0;
    reveal_strlit("fitness_direction");
    reveal_strlit("fitness_label");
    reveal_strlit("generation");
    reveal_strlit("history");
    reveal_strlit("input_dim");
    reveal_strlit("options");
    reveal_strlit("output_dim");
    reveal_strlit("pop_size");
    reveal_strlit("robustness");
    assert forall|k: int| 0 <= k < 3 implies (#[trigger] m[k]).0 != "history"@ by {
        assert(m[0].0.len() != 7 && m[1].0.len() != 7 && m[2].0.len() != 7);
    }
    key_is_found(m, "history"@, 3);
    assert forall|k: int| 0 <= k < 8 implies (#[trigger] m[k]).0 != "robustness"@ by {
        assert(m[0].0[0] != 'r' && m[1].0[0] != 'r' && m[2].0[0] != 'r' && m[3].0[0] != 'r');
        assert(m[4].0[0] != 'r' && m[5].0[0] != 'r' && m[6].0[0] != 'r' && m[7].0[0] != 'r');
        assert("robustness"@[0] == 'r');
    }
    key_is_found(m, "robustness"@, 8);
    assert(values(Seq::<Json>::empty()) =~= Seq::empty());
    assert(e.history@.len() == 0 ==> e.history@ =~= Seq::empty());
}

// ── The shapes of a dataset ──────────────────────────────────────────────

/// A shape as a value.
pub open spec fn shape_values(shape: Seq<u64>) -> Seq<JsonView> {
    shape.map_values(|d: u64| number_value(d as nat))
}

/// What is written beside the tensors of a dataset.
pub open spec fn meta_value(inputs: Seq<u64>, targets: Seq<u64>) -> JsonView {
    JsonView::Object(
        seq![
            ("inputs_shape"@, JsonView::Array(shape_values(inputs))),
            ("targets_shape"@, JsonView::Array(shape_values(targets))),
        ],
    )
}

fn make_shape(shape: &Vec<u64>) -> (r: Json)
    ensures
        r@ == JsonView::Array(shape_values(shape@)),
{
    let mut items: Vec<Json> = Vec::new();
    let mut i: usize = 0;
    while i < shape.len()
        invariant
            i <= shape@.len(),
            values(items@) =~= shape_values(shape@).take(i as int),
        decreases shape@.len() - i,
    {
        let ghost before = items@;
        items.push(Json::number(shape[i]));
        assert(values(items@) =~= values(before).push(number_value(shape@[i as int] as nat)));
        i = i + 1;
    }
    proof {
        array_says(items);
        assert(values(items@) =~= shape_values(shape@));
    }
    Json::Array(items)
}

proof fn shapes_are_plain(shape: Seq<u64>)
    ensures
        plain(JsonView::Array(shape_values(shape))),
        depth(JsonView::Array(shape_values(shape))) <= 1,
{
    let v = JsonView::Array(shape_values(shape));
    assert forall|i: int| 0 <= i < shape.len() implies plain(
        #[trigger] shape_values(shape)[i],
    ) && crate::json::part_depth(v, i) == 0 by {
        crate::json::number_is_plain(shape[i]);
    }
    crate::json::parts_bound_depth(v, shape.len(), 0);
}

/// The text that is written beside the tensors of a dataset: their shapes.
pub fn dataset_meta(inputs_shape: &Vec<u64>, targets_shape: &Vec<u64>) -> (r: String)
    ensures
        r@ == pretty_text(meta_value(inputs_shape@, targets_shape@)),
        reads_as(r@, meta_value(inputs_shape@, targets_shape@)),
{
    let mut m: Vec<Member> = Vec::new();
    put(&mut m, "inputs_shape", make_shape(inputs_shape));
    put(&mut m, "targets_shape", make_shape(targets_shape));
    proof {
        let v = meta_value(inputs_shape@, targets_shape@);
        object_says(m);
        assert(pairs(m@) =~= v->Object_0);
        shapes_are_plain(inputs_shape@);
        shapes_are_plain(targets_shape@);
        reveal_strlit("inputs_shape");
        reveal_strlit("targets_shape");
        assert(text_below(v->Object_0[0].0, v->Object_0[1].0));
        assert(crate::json::part_depth(v, 0) <= 1 && crate::json::part_depth(v, 1) <= 1);
        crate::json::parts_bound_depth(v, 2, 1);
    }
    Json::Object(m).pretty()
}

// ── What the files say ───────────────────────────────────────────────────

/// The record of an individual says everything that was written down of it,
/// each under its own name.
pub proof fn an_individual_is_written_down(i: int, ind: IndividualMetrics)
    ensures
        ({
            let m = metrics_value(i, ind)->Object_0;
            &&& metrics_value(i, ind) is Object
            &&& m.len() == 10
            &&& m.contains(("dropout_prob"@, ind.dropout_prob@))
            &&& m.contains(("eval_losses"@, JsonView::Array(values(ind.eval_losses@))))
            &&& m.contains(("fitness"@, ind.fitness@))
            &&& m.contains(("idx"@, number_value(i as nat)))
            &&& m.contains(("loss"@, ind.loss@))
            &&& m.contains(("params"@, number_value(ind.params as nat)))
            &&& m.contains(("seed"@, number_value(ind.seed as nat)))
            &&& m.contains(("topo_hash"@, JsonView::Text(ind.topo_hash@)))
            &&& m.contains(("topology"@, JsonView::Text(ind.topology@)))
            &&& m.contains(("train_losses"@, JsonView::Array(values(ind.train_losses@))))
        }),
{
    let m = metrics_value(i, ind)->Object_0;
    assert(m[0] == ("dropout_prob"@, ind.dropout_prob@));
    assert(m[1] == ("eval_losses"@, JsonView::Array(values(ind.eval_losses@))));
    assert(m[2] == ("fitness"@, ind.fitness@));
    assert(m[3] == ("idx"@, number_value(i as nat)));
    assert(m[4] == ("loss"@, ind.loss@));
    assert(m[5] == ("params"@, number_value(ind.params as nat)));
    assert(m[6] == ("seed"@, number_value(ind.seed as nat)));
    assert(m[7] == ("topo_hash"@, JsonView::Text(ind.topo_hash@)));
    assert(m[8] == ("topology"@, JsonView::Text(ind.topology@)));
    assert(m[9] == ("train_losses"@, JsonView::Array(values(ind.train_losses@))));
}

/// The record of the statistics says each under its own name.
pub proof fn statistics_are_written_down(s: StatValues)
    ensures
        ({
            let m = stats_value(s)->Object_0;
            &&& stats_value(s) is Object
            &&& m.len() == 5
            &&& m.contains(("avg_loss"@, s.avg_loss@))
            &&& m.contains(("avg_params"@, s.avg_params@))
            &&& m.contains(("avg_score"@, s.avg_score@))
            &&& m.contains(("best_loss"@, s.best_loss@))
            &&& m.contains(("best_score"@, s.best_score@))
        }),
{
    let m = stats_value(s)->Object_0;
    assert(m[0] == ("avg_loss"@, s.avg_loss@));
    assert(m[1] == ("avg_params"@, s.avg_params@));
    assert(m[2] == ("avg_score"@, s.avg_score@));
    assert(m[3] == ("best_loss"@, s.best_loss@));
    assert(m[4] == ("best_score"@, s.best_score@));
}

/// The record of a generation holds one record for every individual, in order
/// and numbered from 0, beside the statistics and the seed of the generation.
pub proof fn a_generation_is_written_down(
    run_seed: u64,
    generation: usize,
    unique_topos: usize,
    stats: StatValues,
    inds: Seq<IndividualMetrics>,
)
    ensures
        ({
            let v = generation_value(run_seed, generation, unique_topos, stats, inds);
            let m = v->Object_0;
            &&& v is Object
            &&& m.len() == 5
            &&& m.contains(("gen_seed"@, number_value(derived_seed(run_seed, generation) as nat)))
            &&& m.contains(("generation"@, number_value(generation as nat)))
            &&& m.contains(("unique_topos"@, number_value(unique_topos as nat)))
            &&& m.contains(("stats"@, stats_value(stats)))
            &&& m.contains(
                (
                    "individuals"@,
                    JsonView::Array(
                        Seq::new(inds.len(), |k: int| metrics_value(k, inds[k])),
                    ),
                ),
            )
        }),
{
    let m = generation_value(run_seed, generation, unique_topos, stats, inds)->Object_0;
    assert(m[0] == ("gen_seed"@, number_value(derived_seed(run_seed, generation) as nat)));
    assert(m[1] == ("generation"@, number_value(generation as nat)));
    assert(metrics_values(inds) =~= Seq::new(inds.len(), |k: int| metrics_value(k, inds[k])));
    assert(m[2] == ("individuals"@, JsonView::Array(metrics_values(inds))));
    assert(m[3] == ("stats"@, stats_value(stats)));
    assert(m[4] == ("unique_topos"@, number_value(unique_topos as nat)));
}

/// The envelope of a run says what the run was about, each under its own name,
/// and its template does so for the topologies.
pub proof fn an_envelope_is_written_down(e: RunEnvelope)
    ensures
        ({
            let m = envelope_value(e)->Object_0;
            &&& envelope_value(e) is Object
            &&& m.len() == 12
            &&& m.contains(("fitness_label"@, JsonView::Text(e.fitness_label@)))
            &&& m.contains(("generation"@, number_value(e.generation as nat)))
            &&& m.contains(("input_dim"@, optional_number(e.topology.input_dim)))
            &&& m.contains(("options"@, e.options@))
            &&& m.contains(("output_dim"@, optional_number(e.topology.output_dim)))
            &&& m.contains(("pop_size"@, number_value(e.pop_size as nat)))
            &&& m.contains(("robustness"@, e.robustness@))
            &&& m.contains(("run_id"@, JsonView::Text(e.run_id@)))
            &&& m.contains(("run_seed"@, number_value(e.run_seed as nat)))
            &&& m.contains(
                (
                    "fitness_direction"@,
                    JsonView::Text(
                        match e.direction {
                            Direction::Minimize => "Minimize"@,
                            Direction::Maximize => "Maximize"@,
                        },
                    ),
                ),
            )
            &&& e.history@.len() == 0 ==> m.contains(("history"@, JsonView::Null))
            &&& e.history@.len() > 0 ==> m.contains(
                ("history"@, JsonView::Array(values(e.history@))),
            )
            &&& m.contains(
                (
                    "topology_options"@,
                    template_value(e.topology, e.hidden_dim_pool, e.hidden_dim_stride),
                ),
            )
        }),
        ({
            let t = template_value(e.topology, e.hidden_dim_pool, e.hidden_dim_stride)->Object_0;
            &&& template_value(e.topology, e.hidden_dim_pool, e.hidden_dim_stride) is Object
            &&& t.len() == 10
            &&& t.contains(
                (
                    "hidden_dim_pool"@,
                    JsonView::Text(
                        decimal_text(e.hidden_dim_pool.start as nat) + "..="@ + decimal_text(
                            e.hidden_dim_pool.end as nat,
                        ),
                    ),
                ),
            )
            &&& t.contains(("hidden_dim_stride"@, number_value(e.hidden_dim_stride as nat)))
            &&& t.contains(("input_dim"@, optional_number(e.topology.input_dim)))
            &&& t.contains(("max_hidden_inputs_per_node"@, optional_number(e.topology.max_hidden_inputs_per_node)))
            &&& t.contains(("max_hidden_num_nodes"@, optional_number(e.topology.max_hidden_num_nodes)))
            &&& t.contains(("max_hidden_outputs_per_node"@, optional_number(e.topology.max_hidden_outputs_per_node)))
            &&& t.contains(("min_hidden_inputs_per_node"@, optional_number(e.topology.min_hidden_inputs_per_node)))
            &&& t.contains(("min_hidden_num_nodes"@, optional_number(e.topology.min_hidden_num_nodes)))
            &&& t.contains(("min_hidden_outputs_per_node"@, optional_number(e.topology.min_hidden_outputs_per_node)))
            &&& t.contains(("output_dim"@, optional_number(e.topology.output_dim)))
        }),
{
    let m = envelope_value(e)->Object_0;
    let t = template_value(e.topology, e.hidden_dim_pool, e.hidden_dim_stride)->Object_0;
    assert(m[0] == ("fitness_direction"@, JsonView::Text(direction_name(e.direction))));
    assert(m[1] == ("fitness_label"@, JsonView::Text(e.fitness_label@)));
    assert(m[2] == ("generation"@, number_value(e.generation as nat)));
    assert(m[3] == ("history"@, history_value(e.history@)));
    assert(m[4] == ("input_dim"@, optional_number(e.topology.input_dim)));
    assert(m[5] == ("options"@, e.options@));
    assert(m[6] == ("output_dim"@, optional_number(e.topology.output_dim)));
    assert(m[7] == ("pop_size"@, number_value(e.pop_size as nat)));
    assert(m[8] == ("robustness"@, e.robustness@));
    assert(m[9] == ("run_id"@, JsonView::Text(e.run_id@)));
    assert(m[10] == ("run_seed"@, number_value(e.run_seed as nat)));
    assert(m[11].1 == template_value(e.topology, e.hidden_dim_pool, e.hidden_dim_stride));
    assert(t[0] == ("hidden_dim_pool"@, JsonView::Text(range_text(e.hidden_dim_pool))));
    assert(t[1] == ("hidden_dim_stride"@, number_value(e.hidden_dim_stride as nat)));
    assert(t[2] == ("input_dim"@, optional_number(e.topology.input_dim)));
    assert(t[3] == ("max_hidden_inputs_per_node"@, optional_number(e.topology.max_hidden_inputs_per_node)));
    assert(t[4] == ("max_hidden_num_nodes"@, optional_number(e.topology.max_hidden_num_nodes)));
    assert(t[5] == ("max_hidden_outputs_per_node"@, optional_number(e.topology.max_hidden_outputs_per_node)));
    assert(t[6] == ("min_hidden_inputs_per_node"@, optional_number(e.topology.min_hidden_inputs_per_node)));
    assert(t[7] == ("min_hidden_num_nodes"@, optional_number(e.topology.min_hidden_num_nodes)));
    assert(t[8] == ("min_hidden_outputs_per_node"@, optional_number(e.topology.min_hidden_outputs_per_node)));
    assert(t[9] == ("output_dim"@, optional_number(e.topology.output_dim)));
}

/// A field holds a number.
pub open spec fn has_number(v: JsonView, key: Seq<char>) -> bool {
    field(v, key) is Some && field(v, key)->0 is Number
}

/// A field holds a whole number that fits the machine.
pub open spec fn has_count(v: JsonView, key: Seq<char>) -> bool {
    field(v, key) is Some && (crate::json::whole_number(field(v, key)->0) matches Some(n) && n
        <= usize::MAX)
}

/// A field is missing, empty or a number.
pub open spec fn lacks_or_has_number(v: JsonView, key: Seq<char>) -> bool {
    field(v, key) is None || field(v, key)->0 is Null || field(v, key)->0 is Number
}

/// What makes a record of a generation: its counts and scores, all of them; a
/// loss may be missing but is nothing else than a number. What makes an entry of
/// the report: its counts, its numbers and its topology, all of them.
pub proof fn records_are_whole(v: JsonView)
    ensures
        is_past(v) <==> {
            &&& has_count(v, "generation"@)
            &&& has_count(v, "best_params"@)
            &&& has_count(v, "unique_topos"@)
            &&& has_number(v, "best_score"@)
            &&& has_number(v, "worst_score"@)
            &&& has_number(v, "avg_score"@)
            &&& has_number(v, "avg_params"@)
            &&& lacks_or_has_number(v, "best_loss"@)
            &&& lacks_or_has_number(v, "worst_loss"@)
            &&& lacks_or_has_number(v, "avg_loss"@)
        },
        is_seen(v) <==> {
            &&& has_count(v, "count"@)
            &&& has_count(v, "param_count"@)
            &&& has_number(v, "min_fitness"@)
            &&& has_number(v, "max_fitness"@)
            &&& has_number(v, "mean"@)
            &&& has_number(v, "m2"@)
            &&& field(v, "topology_json"@) is Some && field(v, "topology_json"@)->0 is Text
        },
{
}

/// Beside a dataset stand the shapes of its tensors, number by number.
pub proof fn shapes_are_written_down(inputs: Seq<u64>, targets: Seq<u64>)
    ensures
        ({
            let m = meta_value(inputs, targets)->Object_0;
            &&& meta_value(inputs, targets) is Object
            &&& m.len() == 2
            &&& m.contains(
                (
                    "inputs_shape"@,
                    JsonView::Array(
                        Seq::new(inputs.len(), |i: int| number_value(inputs[i] as nat)),
                    ),
                ),
            )
            &&& m.contains(
                (
                    "targets_shape"@,
                    JsonView::Array(
                        Seq::new(targets.len(), |i: int| number_value(targets[i] as nat)),
                    ),
                ),
            )
        }),
{
    let m = meta_value(inputs, targets)->Object_0;
    assert(shape_values(inputs) =~= Seq::new(
        inputs.len(),
        |i: int| number_value(inputs[i] as nat),
    ));
    assert(shape_values(targets) =~= Seq::new(
        targets.len(),
        |i: int| number_value(targets[i] as nat),
    ));
    assert(m[0] == ("inputs_shape"@, JsonView::Array(shape_values(inputs))));
    assert(m[1] == ("targets_shape"@, JsonView::Array(shape_values(targets))));
}

} // verus!
