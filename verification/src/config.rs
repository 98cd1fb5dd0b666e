//! The knobs of a step race, and the builder that sets them.

use vstd::prelude::*;

use crate::labels::{
    parse_activation, parse_combine, parse_crossover_op, parse_standardize, Activation, CombineOp,
    CrossoverOp, LogLevel, StandardizeOp,
};
use crate::score::Score;

verus! {

/// Why a race stopped.
#[derive(Clone, Copy, Debug, PartialEq, Eq, Structural)]
pub enum StopReason {
    MaxSteps,
    TargetScore,
    /// A stop policy of the caller asked for it.
    CustomStop,
    /// The user asked for it; the step in flight was abandoned.
    Interrupted,
}

/// How many recent fitness values a ranking averages over, by default.
pub const SMOOTHING_WINDOW: usize = 10;

/// Steps between population checkpoints, by default.
pub const DEFAULT_CHECKPOINT_EVERY: usize = 10;

/// The bit pattern of the single-precision number 0.5.
pub const ONE_HALF: u32 = 0x3f00_0000;

/// The bit pattern of the single-precision number nearest to 0.2.
pub const ONE_FIFTH: u32 = 0x3e4c_cccd;

/// How strict the checkpoint gate is for a crossover child.
#[derive(Clone, Copy, Debug, PartialEq, Eq, Structural)]
pub enum CrossoverGate {
    /// Beat the population mean at every checkpoint.
    Hard,
    /// Beat the mean of the checkpoint means.
    Soft,
}

impl Default for CrossoverGate {
    fn default() -> (r: CrossoverGate)
        ensures
            r == CrossoverGate::Hard,
    {
        CrossoverGate::Hard
    }
}

/// Who is evicted when a crossover child takes a slot.
#[derive(Clone, Copy, Debug, PartialEq, Eq, Structural)]
pub enum CrossCullPolicy {
    /// The worst net by smoothed fitness.
    Worst,
    /// A uniformly drawn net.
    Random,
}

impl Default for CrossCullPolicy {
    fn default() -> (r: CrossCullPolicy)
        ensures
            r == CrossCullPolicy::Worst,
    {
        CrossCullPolicy::Worst
    }
}

/// Who is evicted when a random immigrant takes a slot.
#[derive(Clone, Copy, Debug, PartialEq, Eq, Structural)]
pub enum MutationCullPolicy {
    /// A roulette in which the worst net weighs most.
    InverseFitness,
    /// The worst net by smoothed fitness.
    Worst,
    /// A uniformly drawn net.
    Random,
}

impl Default for MutationCullPolicy {
    fn default() -> (r: MutationCullPolicy)
        ensures
            r == MutationCullPolicy::InverseFitness,
    {
        MutationCullPolicy::InverseFitness
    }
}

/// The training paradigm of a run.
#[derive(Clone, Copy, Debug, PartialEq, Eq, Structural)]
pub enum RunMode {
    Tabular,
    OneCImage,
    ThreeCImage,
    Nlp,
    Rl,
}

impl Default for RunMode {
    fn default() -> (r: RunMode)
        ensures
            r == RunMode::Tabular,
    {
        RunMode::Tabular
    }
}

/// What the pruner does with the survivors.
#[derive(Clone, Copy, Debug, PartialEq, Eq, Structural)]
pub enum PopPrunerMethod {
    /// Keep only the elites and train them alone.
    Hard,
}

impl Default for PopPrunerMethod {
    fn default() -> (r: PopPrunerMethod)
        ensures
            r == PopPrunerMethod::Hard,
    {
        PopPrunerMethod::Hard
    }
}

/// The phase after the stop: cull to the elites, train them `steps` more steps.
#[derive(Clone, Copy, Debug, PartialEq, Eq, Structural)]
pub struct PopPruner {
    pub method: PopPrunerMethod,
    pub steps: usize,
}

impl Default for PopPruner {
    fn default() -> (r: PopPruner)
        ensures
            r == (PopPruner { method: PopPrunerMethod::Hard, steps: 0 }),
    {
        PopPruner { method: PopPrunerMethod::Hard, steps: 0 }
    }
}

/// An inclusive range of dimensions.
#[derive(Clone, Copy, Debug, PartialEq, Eq, Structural)]
pub struct DimRange {
    pub start: usize,
    pub end: usize,
}

/// What a run pins of the topology template; what is unset keeps the
/// template's own value.
#[derive(Clone, Copy, Debug, PartialEq, Eq, Structural)]
pub struct TopologyOptions {
    pub topology_seed: Option<usize>,
    pub min_hidden_num_nodes: Option<usize>,
    pub max_hidden_num_nodes: Option<usize>,
    pub min_hidden_inputs_per_node: Option<usize>,
    pub max_hidden_inputs_per_node: Option<usize>,
    pub min_hidden_outputs_per_node: Option<usize>,
    pub max_hidden_outputs_per_node: Option<usize>,
    pub input_dim: Option<usize>,
    pub output_dim: Option<usize>,
    pub dropout_prob: Option<Score>,
}

impl TopologyOptions {
    /// Nothing pinned.
    pub open spec fn unset_spec() -> TopologyOptions {
        TopologyOptions {
            topology_seed: None,
            min_hidden_num_nodes: None,
            max_hidden_num_nodes: None,
            min_hidden_inputs_per_node: None,
            max_hidden_inputs_per_node: None,
            min_hidden_outputs_per_node: None,
            max_hidden_outputs_per_node: None,
            input_dim: None,
            output_dim: None,
            dropout_prob: None,
        }
    }

    /// Nothing pinned.
    pub fn unset() -> (r: TopologyOptions)
        ensures
            r == Self::unset_spec(),
    {
        TopologyOptions {
            topology_seed: None,
            min_hidden_num_nodes: None,
            max_hidden_num_nodes: None,
            min_hidden_inputs_per_node: None,
            max_hidden_inputs_per_node: None,
            min_hidden_outputs_per_node: None,
            max_hidden_outputs_per_node: None,
            input_dim: None,
            output_dim: None,
            dropout_prob: None,
        }
    }
}

/// A read-only view of the race, for the caller's stop policy.
#[derive(Clone, Copy, Debug, PartialEq, Eq, Structural)]
pub struct RaceSnapshot {
    pub live_count: usize,
    pub step: usize,
    pub best_smoothed_fitness: Score,
    pub worst_smoothed_fitness: Score,
    pub mean_smoothed_fitness: Score,
    pub culls: usize,
    pub elapsed_seconds: u64,
}

/// The knobs of a step race.
#[derive(Debug)]
pub struct RaceConfig {
    /// Number of live nets in the population.
    pub pop_size: usize,
    /// Steps between population checkpoints.
    pub checkpoint_every: usize,
    /// Independent crossover rolls per step.
    pub crossover_rolls: usize,
    /// Independent mutation rolls per step.
    pub mutate_rolls: usize,
    /// Checkpoint gate strictness for crossover children.
    pub crossover_gate: CrossoverGate,
    /// How often a crossover roll tries again after a rejected child.
    pub crossover_retries: usize,
    /// Who a surviving crossover child evicts.
    pub crossover_cull_policy: CrossCullPolicy,
    /// Who a firing mutation roll evicts.
    pub mutation_cull_policy: MutationCullPolicy,
    /// How many of the best nets no cull may touch.
    pub elite_count: usize,
    /// Whether elites skip training and carry their last measurement.
    pub freeze_elites: bool,
    /// Tolerance of the regression guard; no guard if unset.
    pub regression_tol: Option<Score>,
    /// Immigrants always start at the current clock, without catch-up.
    pub immigrant_fresh_start: bool,
    /// How many recent fitness values a ranking averages over.
    pub smoothing_window: usize,
    /// Whether an immigrant of a run without a data stream catches up.
    pub mutation_catch_up: bool,
    /// Whether a crossover child of a run without a data stream catches up.
    pub crossover_catch_up: bool,
    /// Reserved for nets that rejoin the group.
    pub run_pop_catch_up: bool,
    /// Whether an elite that loses its crown gets a fresh optimizer state.
    pub dethrone_reset_optimizer_state: bool,
    /// Crossover operator labels; empty stands for both.
    pub crossover_ops_pool: Vec<String>,
    /// Step budget.
    pub max_steps: Option<usize>,
    /// Fitness at which to stop.
    pub max_target_fitness: Option<Score>,
    /// Range that hidden dimensions are drawn from.
    pub hidden_dim_pool: Option<DimRange>,
    /// Stride within that range.
    pub hidden_dim_stride: usize,
    /// Combine-operator labels; empty stands for all.
    pub combine_op_pool: Vec<String>,
    /// Activation labels; empty stands for all.
    pub activation_pool: Vec<String>,
    /// Standardize-operator labels; empty stands for all.
    pub standardize_op_pool: Vec<String>,
    /// What the run pins of the topology template.
    pub topology_options: TopologyOptions,
    /// Probability that a crossover roll fires.
    pub crossover_prob: Score,
    /// Probability that a mutation roll fires.
    pub mutate_prob: Score,
    /// Per-step log verbosity.
    pub log_level: LogLevel,
    /// Labels of the informative metrics.
    pub metrics: Vec<String>,
    /// The training paradigm.
    pub mode: RunMode,
    /// Whether the event log is written.
    pub csv_export: bool,
    /// Whether the event log is flushed after every step.
    pub history_flush_each: bool,
    /// Whether the topologies of the elites are saved at stop.
    pub elite_save_topology: bool,
    /// Whether the weights of the elites are saved at stop.
    pub elite_save_safetensors: bool,
    /// Whether the topology of the worst net is saved at stop.
    pub worst_save_topology: bool,
    /// Whether the weights of the worst net are saved at stop.
    pub worst_save_safetensors: bool,
    /// What happens after the stop; none ends the run.
    pub pop_pruner: Option<PopPruner>,
    /// Human label of the experiment.
    pub run_name: Option<String>,
}

impl RaceConfig {
    /// At most one of the two stop criteria is set.
    pub open spec fn single_stop(self) -> bool {
        !(self.max_steps is Some && self.max_target_fitness is Some)
    }

    /// What every run needs of its knobs: a cadence of at least one step.
    pub open spec fn runnable(self) -> bool {
        self.checkpoint_every >= 1
    }

    /// The fitness is smoothed over at least one step.
    pub open spec fn smoothing(self) -> bool {
        self.smoothing_window >= 1
    }

    /// The defaults: small, for a quick test, with no stop criterion active.
    pub open spec fn is_default(self) -> bool {
        &&& self.pop_size == 5
        &&& self.checkpoint_every == DEFAULT_CHECKPOINT_EVERY
        &&& self.crossover_rolls == 1
        &&& self.mutate_rolls == 1
        &&& self.crossover_gate == CrossoverGate::Hard
        &&& self.crossover_retries == 0
        &&& self.crossover_cull_policy == CrossCullPolicy::Worst
        &&& self.mutation_cull_policy == MutationCullPolicy::InverseFitness
        &&& self.elite_count == 1
        &&& self.freeze_elites
        &&& self.regression_tol is None
        &&& !self.immigrant_fresh_start
        &&& self.smoothing_window == SMOOTHING_WINDOW
        &&& !self.mutation_catch_up
        &&& self.crossover_catch_up
        &&& !self.run_pop_catch_up
        &&& self.dethrone_reset_optimizer_state
        &&& self.crossover_ops_pool@.len() == 0
        &&& self.max_steps is None
        &&& self.max_target_fitness is None
        &&& self.hidden_dim_pool == (Some(DimRange { start: 4, end: 8 }))
        &&& self.hidden_dim_stride == 16
        &&& self.combine_op_pool@.len() == 0
        &&& self.activation_pool@.len() == 0
        &&& self.standardize_op_pool@.len() == 0
        &&& self.topology_options == TopologyOptions::unset_spec()
        &&& self.crossover_prob == (Score { bits: ONE_HALF })
        &&& self.mutate_prob == (Score { bits: ONE_FIFTH })
        &&& self.log_level == LogLevel::Summ
        &&& self.metrics@.len() == 0
        &&& self.mode == RunMode::Tabular
        &&& self.csv_export
        &&& !self.history_flush_each
        &&& self.elite_save_topology
        &&& self.elite_save_safetensors
        &&& !self.worst_save_topology
        &&& !self.worst_save_safetensors
        &&& self.pop_pruner is None
        &&& self.run_name is None
    }

    /// Small defaults for a quick test; no stop criterion is active.
    pub fn defaults() -> (r: RaceConfig)
        ensures
            r.is_default(),
            r.runnable(),
            r.smoothing(),
            r.single_stop(),
    {
        RaceConfig {
            pop_size: 5,
            checkpoint_every: DEFAULT_CHECKPOINT_EVERY,
            crossover_rolls: 1,
            mutate_rolls: 1,
            crossover_gate: CrossoverGate::Hard,
            crossover_retries: 0,
            crossover_cull_policy: CrossCullPolicy::Worst,
            mutation_cull_policy: MutationCullPolicy::InverseFitness,
            elite_count: 1,
            freeze_elites: true,
            regression_tol: None,
            immigrant_fresh_start: false,
            smoothing_window: SMOOTHING_WINDOW,
            mutation_catch_up: false,
            crossover_catch_up: true,
            run_pop_catch_up: false,
            dethrone_reset_optimizer_state: true,
            crossover_ops_pool: Vec::new(),
            max_steps: None,
            max_target_fitness: None,
            hidden_dim_pool: Some(DimRange { start: 4, end: 8 }),
            hidden_dim_stride: 16,
            combine_op_pool: Vec::new(),
            activation_pool: Vec::new(),
            standardize_op_pool: Vec::new(),
            topology_options: TopologyOptions::unset(),
            crossover_prob: Score { bits: ONE_HALF },
            mutate_prob: Score { bits: ONE_FIFTH },
            log_level: LogLevel::Summ,
            metrics: Vec::new(),
            mode: RunMode::Tabular,
            csv_export: true,
            history_flush_each: false,
            elite_save_topology: true,
            elite_save_safetensors: true,
            worst_save_topology: false,
            worst_save_safetensors: false,
            pop_pruner: None,
            run_name: None,
        }
    }

    /// A builder that starts from the defaults.
    pub fn builder() -> (r: RaceConfigBuilder)
        ensures
            r.well_formed(),
            r.pending() is None,
            r.config().is_default(),
    {
        RaceConfigBuilder { cfg: RaceConfig::defaults(), pending_pruner: None }
    }

    /// Resolves the crossover operator pool: the configured labels, or both
    /// operators if none is configured. The first unknown label is an error.
    pub fn resolved_crossover_ops(&self) -> (r: Result<Vec<CrossoverOp>, String>)
        ensures
            self.crossover_ops_pool@.len() == 0 ==> r is Ok && r->Ok_0@ == seq![
                CrossoverOp::OnePoint,
                CrossoverOp::Uniform,
            ],
            self.crossover_ops_pool@.len() > 0 ==> match r {
                Ok(ops) => ops@.len() == self.crossover_ops_pool@.len() && forall|i: int|
                    0 <= i < ops@.len() ==> crate::labels::crossover_op_named(
                        crate::labels::lowercase_text(#[trigger] self.crossover_ops_pool@[i]@),
                    ) == Some(ops@[i]),
                Err(e) => exists|i: int|
                    0 <= i < self.crossover_ops_pool@.len() && crossover_pool_fails_at(
                        self.crossover_ops_pool@,
                        i,
                    ) && e@ == crate::labels::unknown_text(
                        "unknown crossover op"@,
                        crate::labels::lowercase_text(#[trigger] self.crossover_ops_pool@[i]@),
                        " (use \"one_point\" or \"uniform\")"@,
                    ),
            },
    {
        if self.crossover_ops_pool.len() == 0 {
            let mut both: Vec<CrossoverOp> = Vec::new();
            both.push(CrossoverOp::OnePoint);
            both.push(CrossoverOp::Uniform);
            assert(both@ =~= seq![CrossoverOp::OnePoint, CrossoverOp::Uniform]);
            return Ok(both);
        }
        let pool = &self.crossover_ops_pool;
        let mut ops: Vec<CrossoverOp> = Vec::new();
        let mut i: usize = 0;
        while i < pool.len()
            invariant
                i <= pool@.len(),
                pool@ == self.crossover_ops_pool@,
                pool@.len() > 0,
                ops@.len() == i,
                forall|j: int|
                    0 <= j < i ==> crate::labels::crossover_op_named(
                        crate::labels::lowercase_text(#[trigger] pool@[j]@),
                    ) == Some(ops@[j]),
            decreases pool@.len() - i,
        {
            match parse_crossover_op(pool[i].as_str()) {
                Ok(op) => {
                    ops.push(op);
                },
                Err(e) => {
                    assert(crossover_pool_fails_at(pool@, i as int));
                    return Err(e);
                },
            }
            i = i + 1;
        }
        Ok(ops)
    }


    /// Resolves the activation pool: the configured labels, or `all` if none is
    /// configured. The first unknown label is an error.
    pub fn resolved_activation_pool(&self, all: Vec<Activation>) -> (r: Result<Vec<Activation>, String>)
        ensures
            self.activation_pool@.len() == 0 ==> r == Ok::<Vec<Activation>, String>(all),
            self.activation_pool@.len() > 0 ==> match r {
                Ok(ops) => ops@.len() == self.activation_pool@.len() && forall|i: int|
                    0 <= i < ops@.len() ==> (#[trigger] ops@[i]).named(
                        crate::labels::lowercase_text(self.activation_pool@[i]@),
                    ),
                Err(e) => exists|i: int|
                    0 <= i < self.activation_pool@.len() && activation_pool_fails_at(
                        self.activation_pool@,
                        i,
                    ) && e@ == crate::labels::unknown_text(
                        "unknown activation"@,
                        crate::labels::lowercase_text(#[trigger] self.activation_pool@[i]@),
                        ""@,
                    ),
            },
    {
        if self.activation_pool.len() == 0 {
            return Ok(all);
        }
        let pool = &self.activation_pool;
        let mut ops: Vec<Activation> = Vec::new();
        let mut i: usize = 0;
        while i < pool.len()
            invariant
                i <= pool@.len(),
                pool@ == self.activation_pool@,
                pool@.len() > 0,
                ops@.len() == i,
                forall|j: int|
                    0 <= j < i ==> (#[trigger] ops@[j]).named(
                        crate::labels::lowercase_text(pool@[j]@),
                    ),
            decreases pool@.len() - i,
        {
            match parse_activation(pool[i].as_str()) {
                Ok(op) => {
                    ops.push(op);
                },
                Err(e) => {
                    assert forall|j: int| 0 <= j < i implies activation_known(#[trigger] pool@[j]) by {
                        assert(ops@[j].named(crate::labels::lowercase_text(pool@[j]@)));
                    }
                    assert(activation_pool_fails_at(pool@, i as int));
                    return Err(e);
                },
            }
            i = i + 1;
        }
        Ok(ops)
    }


    /// Resolves the combine pool: the configured labels, or `all` if none is
    /// configured. The first unknown label is an error.
    pub fn resolved_combine_pool(&self, all: Vec<CombineOp>) -> (r: Result<Vec<CombineOp>, String>)
        ensures
            self.combine_op_pool@.len() == 0 ==> r == Ok::<Vec<CombineOp>, String>(all),
            self.combine_op_pool@.len() > 0 ==> match r {
                Ok(ops) => ops@.len() == self.combine_op_pool@.len() && forall|i: int|
                    0 <= i < ops@.len() ==> (#[trigger] ops@[i]).named(
                        crate::labels::lowercase_text(self.combine_op_pool@[i]@),
                    ),
                Err(e) => exists|i: int|
                    0 <= i < self.combine_op_pool@.len() && combine_pool_fails_at(
                        self.combine_op_pool@,
                        i,
                    ) && e@ == crate::labels::unknown_text(
                        "unknown combine op"@,
                        crate::labels::lowercase_text(#[trigger] self.combine_op_pool@[i]@),
                        ""@,
                    ),
            },
    {
        if self.combine_op_pool.len() == 0 {
            return Ok(all);
        }
        let pool = &self.combine_op_pool;
        let mut ops: Vec<CombineOp> = Vec::new();
        let mut i: usize = 0;
        while i < pool.len()
            invariant
                i <= pool@.len(),
                pool@ == self.combine_op_pool@,
                pool@.len() > 0,
                ops@.len() == i,
                forall|j: int|
                    0 <= j < i ==> (#[trigger] ops@[j]).named(
                        crate::labels::lowercase_text(pool@[j]@),
                    ),
            decreases pool@.len() - i,
        {
            match parse_combine(pool[i].as_str()) {
                Ok(op) => {
                    ops.push(op);
                },
                Err(e) => {
                    assert forall|j: int| 0 <= j < i implies combine_known(#[trigger] pool@[j]) by {
                        assert(ops@[j].named(crate::labels::lowercase_text(pool@[j]@)));
                    }
                    assert(combine_pool_fails_at(pool@, i as int));
                    return Err(e);
                },
            }
            i = i + 1;
        }
        Ok(ops)
    }


    /// Resolves the standardize pool: the configured labels, or `all` if none is
    /// configured. The first unknown label is an error.
    pub fn resolved_standardize_pool(&self, all: Vec<StandardizeOp>) -> (r: Result<Vec<StandardizeOp>, String>)
        ensures
            self.standardize_op_pool@.len() == 0 ==> r == Ok::<Vec<StandardizeOp>, String>(all),
            self.standardize_op_pool@.len() > 0 ==> match r {
                Ok(ops) => ops@.len() == self.standardize_op_pool@.len() && forall|i: int|
                    0 <= i < ops@.len() ==> (#[trigger] ops@[i]).named(
                        crate::labels::lowercase_text(self.standardize_op_pool@[i]@),
                    ),
                Err(e) => exists|i: int|
                    0 <= i < self.standardize_op_pool@.len() && standardize_pool_fails_at(
                        self.standardize_op_pool@,
                        i,
                    ) && e@ == crate::labels::unknown_text(
                        "unknown standardize op"@,
                        crate::labels::lowercase_text(#[trigger] self.standardize_op_pool@[i]@),
                        ""@,
                    ),
            },
    {
        if self.standardize_op_pool.len() == 0 {
            return Ok(all);
        }
        let pool = &self.standardize_op_pool;
        let mut ops: Vec<StandardizeOp> = Vec::new();
        let mut i: usize = 0;
        while i < pool.len()
            invariant
                i <= pool@.len(),
                pool@ == self.standardize_op_pool@,
                pool@.len() > 0,
                ops@.len() == i,
                forall|j: int|
                    0 <= j < i ==> (#[trigger] ops@[j]).named(
                        crate::labels::lowercase_text(pool@[j]@),
                    ),
            decreases pool@.len() - i,
        {
            match parse_standardize(pool[i].as_str()) {
                Ok(op) => {
                    ops.push(op);
                },
                Err(e) => {
                    assert forall|j: int| 0 <= j < i implies standardize_known(#[trigger] pool@[j]) by {
                        assert(ops@[j].named(crate::labels::lowercase_text(pool@[j]@)));
                    }
                    assert(standardize_pool_fails_at(pool@, i as int));
                    return Err(e);
                },
            }
            i = i + 1;
        }
        Ok(ops)
    }


    /// How many times a crossover roll may generate and gate a child: once,
    /// and once more per configured retry.
    pub open spec fn crossover_attempts_spec(self) -> nat {
        if self.crossover_retries == usize::MAX {
            usize::MAX as nat
        } else {
            (self.crossover_retries + 1) as nat
        }
    }

    pub fn crossover_attempts(&self) -> (r: usize)
        ensures
            r == self.crossover_attempts_spec(),
            r >= 1,
    {
        if self.crossover_retries == usize::MAX {
            usize::MAX
        } else {
            self.crossover_retries + 1
        }
    }

    /// Whether an immigrant is trained up to the current clock before it
    /// joins. With a shared data stream it always is, unless it was told to
    /// start fresh; without one, only if asked to.
    pub open spec fn immigrant_catches_up_spec(self) -> bool {
        !self.immigrant_fresh_start && (self.mode != RunMode::Rl || self.mutation_catch_up)
    }

    pub fn immigrant_catches_up(&self) -> (r: bool)
        ensures
            r == self.immigrant_catches_up_spec(),
    {
        !self.immigrant_fresh_start && (self.mode != RunMode::Rl || self.mutation_catch_up)
    }

    /// Whether a crossover child is trained up to the current clock and held
    /// to the checkpoint gate before it joins.
    pub open spec fn crossover_catches_up_spec(self) -> bool {
        self.mode != RunMode::Rl || self.crossover_catch_up
    }

    pub fn crossover_catches_up(&self) -> (r: bool)
        ensures
            r == self.crossover_catches_up_spec(),
    {
        self.mode != RunMode::Rl || self.crossover_catch_up
    }
}

/// `pool[i]` is the first label of the pool that names no crossover operator.
pub open spec fn crossover_pool_fails_at(pool: Seq<String>, i: int) -> bool {
    &&& crate::labels::crossover_op_named(crate::labels::lowercase_text(pool[i]@)) is None
    &&& forall|j: int|
        0 <= j < i ==> crate::labels::crossover_op_named(
            crate::labels::lowercase_text(#[trigger] pool[j]@),
        ) is Some
}


/// Whether a configured label names some activation operator.
pub open spec fn activation_known(label: String) -> bool {
    exists|op: Activation| op.named(crate::labels::lowercase_text(label@))
}

/// `pool[i]` is the first label of the pool that names no activation operator.
pub open spec fn activation_pool_fails_at(pool: Seq<String>, i: int) -> bool {
    &&& !activation_known(pool[i])
    &&& forall|j: int| 0 <= j < i ==> activation_known(#[trigger] pool[j])
}


/// Whether a configured label names some combine operator.
pub open spec fn combine_known(label: String) -> bool {
    exists|op: CombineOp| op.named(crate::labels::lowercase_text(label@))
}

/// `pool[i]` is the first label of the pool that names no combine operator.
pub open spec fn combine_pool_fails_at(pool: Seq<String>, i: int) -> bool {
    &&& !combine_known(pool[i])
    &&& forall|j: int| 0 <= j < i ==> combine_known(#[trigger] pool[j])
}


/// Whether a configured label names some standardize operator.
pub open spec fn standardize_known(label: String) -> bool {
    exists|op: StandardizeOp| op.named(crate::labels::lowercase_text(label@))
}

/// `pool[i]` is the first label of the pool that names no standardize operator.
pub open spec fn standardize_pool_fails_at(pool: Seq<String>, i: int) -> bool {
    &&& !standardize_known(pool[i])
    &&& forall|j: int| 0 <= j < i ==> standardize_known(#[trigger] pool[j])
}


/// Sets the knobs one by one, starting from the defaults.
#[derive(Debug)]
pub struct RaceConfigBuilder {
    cfg: RaceConfig,
    /// Pruner knobs that were set while the pruner was off.
    pending_pruner: Option<PopPruner>,
}

/// `n`, but at least one.
pub open spec fn at_least_one_spec(n: usize) -> usize {
    if n == 0 {
        1
    } else {
        n
    }
}

fn at_least_one(n: usize) -> (r: usize)
    ensures
        r == at_least_one_spec(n),
{
    if n == 0 {
        1
    } else {
        n
    }
}

impl RaceConfigBuilder {
    /// The config as set so far.
    pub closed spec fn config(self) -> RaceConfig {
        self.cfg
    }

    /// The pruner knobs that wait for the pruner to be switched on.
    pub closed spec fn pending(self) -> Option<PopPruner> {
        self.pending_pruner
    }

    /// What every sequence of setters keeps: one stop criterion at most, and
    /// the clamped knobs at least one.
    pub open spec fn well_formed(self) -> bool {
        &&& self.config().single_stop()
        &&& self.config().runnable()
        &&& self.config().smoothing()
    }


    pub fn set_run_pop_size(self, n: usize) -> (r: RaceConfigBuilder)
        ensures
            r.config() == (RaceConfig { pop_size: n, ..self.config() }),
            r.pending() == self.pending(),
    {
        let mut out = self;
        out.cfg.pop_size = n;
        out
    }


    pub fn set_run_checkpoint_every(self, n: usize) -> (r: RaceConfigBuilder)
        ensures
            r.config() == (RaceConfig { checkpoint_every: at_least_one_spec(n), ..self.config() }),
            r.pending() == self.pending(),
    {
        let mut out = self;
        out.cfg.checkpoint_every = at_least_one(n);
        out
    }


    pub fn set_crossover_rolls(self, n: usize) -> (r: RaceConfigBuilder)
        ensures
            r.config() == (RaceConfig { crossover_rolls: n, ..self.config() }),
            r.pending() == self.pending(),
    {
        let mut out = self;
        out.cfg.crossover_rolls = n;
        out
    }


    pub fn set_mutate_rolls(self, n: usize) -> (r: RaceConfigBuilder)
        ensures
            r.config() == (RaceConfig { mutate_rolls: n, ..self.config() }),
            r.pending() == self.pending(),
    {
        let mut out = self;
        out.cfg.mutate_rolls = n;
        out
    }


    pub fn set_crossover_gate(self, mode: CrossoverGate) -> (r: RaceConfigBuilder)
        ensures
            r.config() == (RaceConfig { crossover_gate: mode, ..self.config() }),
            r.pending() == self.pending(),
    {
        let mut out = self;
        out.cfg.crossover_gate = mode;
        out
    }


    pub fn set_crossover_retries(self, n: usize) -> (r: RaceConfigBuilder)
        ensures
            r.config() == (RaceConfig { crossover_retries: n, ..self.config() }),
            r.pending() == self.pending(),
    {
        let mut out = self;
        out.cfg.crossover_retries = n;
        out
    }


    pub fn set_crossover_cull_policy(self, policy: CrossCullPolicy) -> (r: RaceConfigBuilder)
        ensures
            r.config() == (RaceConfig { crossover_cull_policy: policy, ..self.config() }),
            r.pending() == self.pending(),
    {
        let mut out = self;
        out.cfg.crossover_cull_policy = policy;
        out
    }


    pub fn set_mutation_cull_policy(self, policy: MutationCullPolicy) -> (r: RaceConfigBuilder)
        ensures
            r.config() == (RaceConfig { mutation_cull_policy: policy, ..self.config() }),
            r.pending() == self.pending(),
    {
        let mut out = self;
        out.cfg.mutation_cull_policy = policy;
        out
    }


    pub fn set_elite_count(self, n: usize) -> (r: RaceConfigBuilder)
        ensures
            r.config() == (RaceConfig { elite_count: at_least_one_spec(n), ..self.config() }),
            r.pending() == self.pending(),
    {
        let mut out = self;
        out.cfg.elite_count = at_least_one(n);
        out
    }


    pub fn set_elite_freeze(self, yes: bool) -> (r: RaceConfigBuilder)
        ensures
            r.config() == (RaceConfig { freeze_elites: yes, ..self.config() }),
            r.pending() == self.pending(),
    {
        let mut out = self;
        out.cfg.freeze_elites = yes;
        out
    }


    pub fn set_mutation_catch_up(self, yes: bool) -> (r: RaceConfigBuilder)
        ensures
            r.config() == (RaceConfig { mutation_catch_up: yes, ..self.config() }),
            r.pending() == self.pending(),
    {
        let mut out = self;
        out.cfg.mutation_catch_up = yes;
        out
    }


    pub fn set_crossover_catch_up(self, yes: bool) -> (r: RaceConfigBuilder)
        ensures
            r.config() == (RaceConfig { crossover_catch_up: yes, ..self.config() }),
            r.pending() == self.pending(),
    {
        let mut out = self;
        out.cfg.crossover_catch_up = yes;
        out
    }


    pub fn set_run_pop_catch_up(self, yes: bool) -> (r: RaceConfigBuilder)
        ensures
            r.config() == (RaceConfig { run_pop_catch_up: yes, ..self.config() }),
            r.pending() == self.pending(),
    {
        let mut out = self;
        out.cfg.run_pop_catch_up = yes;
        out
    }


    pub fn set_dethrone_reset_optimizer_state(self, yes: bool) -> (r: RaceConfigBuilder)
        ensures
            r.config() == (RaceConfig { dethrone_reset_optimizer_state: yes, ..self.config() }),
            r.pending() == self.pending(),
    {
        let mut out = self;
        out.cfg.dethrone_reset_optimizer_state = yes;
        out
    }


    pub fn set_run_smoothing_window(self, k: usize) -> (r: RaceConfigBuilder)
        ensures
            r.config() == (RaceConfig { smoothing_window: at_least_one_spec(k), ..self.config() }),
            r.pending() == self.pending(),
    {
        let mut out = self;
        out.cfg.smoothing_window = at_least_one(k);
        out
    }


    pub fn set_crossover_ops_pool(self, ops: Vec<String>) -> (r: RaceConfigBuilder)
        ensures
            r.config() == (RaceConfig { crossover_ops_pool: ops, ..self.config() }),
            r.pending() == self.pending(),
    {
        let mut out = self;
        out.cfg.crossover_ops_pool = ops;
        out
    }


    pub fn set_topology_hidden_dim_stride(self, n: usize) -> (r: RaceConfigBuilder)
        ensures
            r.config() == (RaceConfig { hidden_dim_stride: n, ..self.config() }),
            r.pending() == self.pending(),
    {
        let mut out = self;
        out.cfg.hidden_dim_stride = n;
        out
    }


    pub fn set_topology_combine_op_pool(self, pool: Vec<String>) -> (r: RaceConfigBuilder)
        ensures
            r.config() == (RaceConfig { combine_op_pool: pool, ..self.config() }),
            r.pending() == self.pending(),
    {
        let mut out = self;
        out.cfg.combine_op_pool = pool;
        out
    }


    pub fn set_topology_activation_pool(self, pool: Vec<String>) -> (r: RaceConfigBuilder)
        ensures
            r.config() == (RaceConfig { activation_pool: pool, ..self.config() }),
            r.pending() == self.pending(),
    {
        let mut out = self;
        out.cfg.activation_pool = pool;
        out
    }


    pub fn set_topology_standardize_op_pool(self, pool: Vec<String>) -> (r: RaceConfigBuilder)
        ensures
            r.config() == (RaceConfig { standardize_op_pool: pool, ..self.config() }),
            r.pending() == self.pending(),
    {
        let mut out = self;
        out.cfg.standardize_op_pool = pool;
        out
    }


    pub fn set_crossover_prob(self, v: Score) -> (r: RaceConfigBuilder)
        ensures
            r.config() == (RaceConfig { crossover_prob: v, ..self.config() }),
            r.pending() == self.pending(),
    {
        let mut out = self;
        out.cfg.crossover_prob = v;
        out
    }


    pub fn set_mutate_prob(self, v: Score) -> (r: RaceConfigBuilder)
        ensures
            r.config() == (RaceConfig { mutate_prob: v, ..self.config() }),
            r.pending() == self.pending(),
    {
        let mut out = self;
        out.cfg.mutate_prob = v;
        out
    }


    pub fn set_run_metrics(self, metrics: Vec<String>) -> (r: RaceConfigBuilder)
        ensures
            r.config() == (RaceConfig { metrics: metrics, ..self.config() }),
            r.pending() == self.pending(),
    {
        let mut out = self;
        out.cfg.metrics = metrics;
        out
    }


    pub fn set_run_log_level(self, level: LogLevel) -> (r: RaceConfigBuilder)
        ensures
            r.config() == (RaceConfig { log_level: level, ..self.config() }),
            r.pending() == self.pending(),
    {
        let mut out = self;
        out.cfg.log_level = level;
        out
    }


    pub fn set_run_mode(self, mode: RunMode) -> (r: RaceConfigBuilder)
        ensures
            r.config() == (RaceConfig { mode: mode, ..self.config() }),
            r.pending() == self.pending(),
    {
        let mut out = self;
        out.cfg.mode = mode;
        out
    }


    pub fn set_run_csv_export(self, enabled: bool) -> (r: RaceConfigBuilder)
        ensures
            r.config() == (RaceConfig { csv_export: enabled, ..self.config() }),
            r.pending() == self.pending(),
    {
        let mut out = self;
        out.cfg.csv_export = enabled;
        out
    }


    pub fn set_elite_save_topology(self, enabled: bool) -> (r: RaceConfigBuilder)
        ensures
            r.config() == (RaceConfig { elite_save_topology: enabled, ..self.config() }),
            r.pending() == self.pending(),
    {
        let mut out = self;
        out.cfg.elite_save_topology = enabled;
        out
    }


    pub fn set_elite_save_safetensors(self, enabled: bool) -> (r: RaceConfigBuilder)
        ensures
            r.config() == (RaceConfig { elite_save_safetensors: enabled, ..self.config() }),
            r.pending() == self.pending(),
    {
        let mut out = self;
        out.cfg.elite_save_safetensors = enabled;
        out
    }


    pub fn set_worst_save_topology(self, enabled: bool) -> (r: RaceConfigBuilder)
        ensures
            r.config() == (RaceConfig { worst_save_topology: enabled, ..self.config() }),
            r.pending() == self.pending(),
    {
        let mut out = self;
        out.cfg.worst_save_topology = enabled;
        out
    }


    pub fn set_worst_save_safetensors(self, enabled: bool) -> (r: RaceConfigBuilder)
        ensures
            r.config() == (RaceConfig { worst_save_safetensors: enabled, ..self.config() }),
            r.pending() == self.pending(),
    {
        let mut out = self;
        out.cfg.worst_save_safetensors = enabled;
        out
    }


    pub fn set_topology_dropout_prob(self, p: Score) -> (r: RaceConfigBuilder)
        ensures
            r.config() == (RaceConfig {
                topology_options: TopologyOptions {
                    dropout_prob: Some(p),
                    ..self.config().topology_options
                },
                ..self.config()
            }),
            r.pending() == self.pending(),
    {
        let mut out = self;
        out.cfg.topology_options.dropout_prob = Some(p);
        out
    }


    pub fn set_topology_seed(self, seed: usize) -> (r: RaceConfigBuilder)
        ensures
            r.config() == (RaceConfig {
                topology_options: TopologyOptions {
                    topology_seed: Some(seed),
                    ..self.config().topology_options
                },
                ..self.config()
            }),
            r.pending() == self.pending(),
    {
        let mut out = self;
        out.cfg.topology_options.topology_seed = Some(seed);
        out
    }


    pub fn set_topology_min_hidden_num_nodes(self, n: usize) -> (r: RaceConfigBuilder)
        ensures
            r.config() == (RaceConfig {
                topology_options: TopologyOptions {
                    min_hidden_num_nodes: Some(n),
                    ..self.config().topology_options
                },
                ..self.config()
            }),
            r.pending() == self.pending(),
    {
        let mut out = self;
        out.cfg.topology_options.min_hidden_num_nodes = Some(n);
        out
    }


    pub fn set_topology_max_hidden_num_nodes(self, n: usize) -> (r: RaceConfigBuilder)
        ensures
            r.config() == (RaceConfig {
                topology_options: TopologyOptions {
                    max_hidden_num_nodes: Some(n),
                    ..self.config().topology_options
                },
                ..self.config()
            }),
            r.pending() == self.pending(),
    {
        let mut out = self;
        out.cfg.topology_options.max_hidden_num_nodes = Some(n);
        out
    }


    pub fn set_topology_min_inputs_per_node(self, n: usize) -> (r: RaceConfigBuilder)
        ensures
            r.config() == (RaceConfig {
                topology_options: TopologyOptions {
                    min_hidden_inputs_per_node: Some(n),
                    ..self.config().topology_options
                },
                ..self.config()
            }),
            r.pending() == self.pending(),
    {
        let mut out = self;
        out.cfg.topology_options.min_hidden_inputs_per_node = Some(n);
        out
    }


    pub fn set_topology_max_inputs_per_node(self, n: usize) -> (r: RaceConfigBuilder)
        ensures
            r.config() == (RaceConfig {
                topology_options: TopologyOptions {
                    max_hidden_inputs_per_node: Some(n),
                    ..self.config().topology_options
                },
                ..self.config()
            }),
            r.pending() == self.pending(),
    {
        let mut out = self;
        out.cfg.topology_options.max_hidden_inputs_per_node = Some(n);
        out
    }


    pub fn set_topology_min_outputs_per_node(self, n: usize) -> (r: RaceConfigBuilder)
        ensures
            r.config() == (RaceConfig {
                topology_options: TopologyOptions {
                    min_hidden_outputs_per_node: Some(n),
                    ..self.config().topology_options
                },
                ..self.config()
            }),
            r.pending() == self.pending(),
    {
        let mut out = self;
        out.cfg.topology_options.min_hidden_outputs_per_node = Some(n);
        out
    }


    pub fn set_topology_max_outputs_per_node(self, n: usize) -> (r: RaceConfigBuilder)
        ensures
            r.config() == (RaceConfig {
                topology_options: TopologyOptions {
                    max_hidden_outputs_per_node: Some(n),
                    ..self.config().topology_options
                },
                ..self.config()
            }),
            r.pending() == self.pending(),
    {
        let mut out = self;
        out.cfg.topology_options.max_hidden_outputs_per_node = Some(n);
        out
    }


    pub fn set_topology_input_dim(self, n: usize) -> (r: RaceConfigBuilder)
        ensures
            r.config() == (RaceConfig {
                topology_options: TopologyOptions {
                    input_dim: Some(n),
                    ..self.config().topology_options
                },
                ..self.config()
            }),
            r.pending() == self.pending(),
    {
        let mut out = self;
        out.cfg.topology_options.input_dim = Some(n);
        out
    }


    pub fn set_topology_output_dim(self, n: usize) -> (r: RaceConfigBuilder)
        ensures
            r.config() == (RaceConfig {
                topology_options: TopologyOptions {
                    output_dim: Some(n),
                    ..self.config().topology_options
                },
                ..self.config()
            }),
            r.pending() == self.pending(),
    {
        let mut out = self;
        out.cfg.topology_options.output_dim = Some(n);
        out
    }


    pub fn set_topology_hidden_dim_range(self, min: usize, max: usize) -> (r: RaceConfigBuilder)
        ensures
            r.config() == (RaceConfig {
                hidden_dim_pool: Some(DimRange { start: min, end: max }),
                ..self.config()
            }),
            r.pending() == self.pending(),
    {
        let mut out = self;
        out.cfg.hidden_dim_pool = Some(DimRange { start: min, end: max });
        out
    }

    pub fn set_run_name(self, name: String) -> (r: RaceConfigBuilder)
        ensures
            r.config() == (RaceConfig { run_name: Some(name), ..self.config() }),
            r.pending() == self.pending(),
    {
        let mut out = self;
        out.cfg.run_name = Some(name);
        out
    }

    /// Sets the step budget and clears the target fitness: of the two stop
    /// criteria the one that was set last holds.
    pub fn set_stop_max_steps(self, n: Option<usize>) -> (r: RaceConfigBuilder)
        ensures
            r.config() == (RaceConfig {
                max_steps: n,
                max_target_fitness: None,
                ..self.config()
            }),
            r.pending() == self.pending(),
    {
        let mut out = self;
        out.cfg.max_steps = n;
        out.cfg.max_target_fitness = None;
        out
    }

    /// Sets the target fitness and clears the step budget.
    pub fn set_stop_target_fitness(self, v: Option<Score>) -> (r: RaceConfigBuilder)
        ensures
            r.config() == (RaceConfig {
                max_steps: None,
                max_target_fitness: v,
                ..self.config()
            }),
            r.pending() == self.pending(),
    {
        let mut out = self;
        out.cfg.max_target_fitness = v;
        out.cfg.max_steps = None;
        out
    }

    /// Sets the whole pruner, switched on.
    pub fn set_pruner(self, pruner: PopPruner) -> (r: RaceConfigBuilder)
        ensures
            r.config() == (RaceConfig { pop_pruner: Some(pruner), ..self.config() }),
            r.pending() == self.pending(),
    {
        let mut out = self;
        out.cfg.pop_pruner = Some(pruner);
        out
    }

    /// Switches the pruner on, with the knobs set so far, or off.
    pub fn set_pruner_enabled(self, enabled: bool) -> (r: RaceConfigBuilder)
        ensures
            r.config() == (RaceConfig {
                pop_pruner: pruner_enabled((self.config().pop_pruner, self.pending()), enabled).0,
                ..self.config()
            }),
            r.pending() == pruner_enabled((self.config().pop_pruner, self.pending()), enabled).1,
    {
        let mut out = self;
        if enabled {
            let pruner = match out.pending_pruner {
                Some(p) => p,
                None => PopPruner { method: PopPrunerMethod::Hard, steps: 0 },
            };
            out.pending_pruner = None;
            out.cfg.pop_pruner = Some(pruner);
        } else {
            out.cfg.pop_pruner = None;
        }
        out
    }

    /// Sets the pruner method; it takes effect once the pruner is on.
    pub fn set_pruner_method(self, method: PopPrunerMethod) -> (r: RaceConfigBuilder)
        ensures
            r.config() == (RaceConfig {
                pop_pruner: pruner_method((self.config().pop_pruner, self.pending()), method).0,
                ..self.config()
            }),
            r.pending() == pruner_method((self.config().pop_pruner, self.pending()), method).1,
    {
        let mut out = self;
        match out.cfg.pop_pruner {
            Some(p) => {
                out.cfg.pop_pruner = Some(PopPruner { method, steps: p.steps });
            },
            None => {
                let steps: usize = match out.pending_pruner {
                    Some(p) => p.steps,
                    None => 0,
                };
                out.pending_pruner = Some(PopPruner { method, steps });
            },
        }
        out
    }

    /// Sets the number of solo steps; it takes effect once the pruner is on.
    pub fn set_pruner_steps(self, steps: usize) -> (r: RaceConfigBuilder)
        ensures
            r.config() == (RaceConfig {
                pop_pruner: pruner_steps((self.config().pop_pruner, self.pending()), steps).0,
                ..self.config()
            }),
            r.pending() == pruner_steps((self.config().pop_pruner, self.pending()), steps).1,
    {
        let mut out = self;
        match out.cfg.pop_pruner {
            Some(p) => {
                out.cfg.pop_pruner = Some(PopPruner { method: p.method, steps });
            },
            None => {
                let method = match out.pending_pruner {
                    Some(p) => p.method,
                    None => PopPrunerMethod::Hard,
                };
                out.pending_pruner = Some(PopPruner { method, steps });
            },
        }
        out
    }

    /// Rejects a config that has both stop criteria.
    pub fn validate_single_stop(cfg: &RaceConfig) -> (r: Result<(), String>)
        ensures
            r is Ok <==> cfg.single_stop(),
            r matches Err(e) ==> e@
                == "only one stop criteria can be used at a time: max_steps and max_target_fitness are mutually exclusive"@,
    {
        if cfg.max_steps.is_some() && cfg.max_target_fitness.is_some() {
            return Err(
                String::from_str(
                    "only one stop criteria can be used at a time: max_steps and max_target_fitness are mutually exclusive",
                ),
            );
        }
        Ok(())
    }

    /// The finished config.
    pub fn build(self) -> (r: RaceConfig)
        requires
            self.well_formed(),
        ensures
            r == self.config(),
            r.single_stop(),
            r.runnable(),
            r.smoothing(),
    {
        self.cfg
    }
}

/// The pruner of a builder: the one in the config, and the knobs that wait.
pub type PrunerDraft = (Option<PopPruner>, Option<PopPruner>);

/// The pruner that is used when nothing was said about it.
pub open spec fn plain_pruner() -> PopPruner {
    PopPruner { method: PopPrunerMethod::Hard, steps: 0 }
}

/// The draft after `set_pruner_enabled`.
pub open spec fn pruner_enabled(d: PrunerDraft, enabled: bool) -> PrunerDraft {
    if enabled {
        (Some(d.1.unwrap_or(plain_pruner())), None)
    } else {
        (None, d.1)
    }
}

/// The draft after `set_pruner_method`.
pub open spec fn pruner_method(d: PrunerDraft, method: PopPrunerMethod) -> PrunerDraft {
    match d.0 {
        Some(p) => (Some(PopPruner { method, ..p }), d.1),
        None => (None, Some(PopPruner { method, ..d.1.unwrap_or(plain_pruner()) })),
    }
}

/// The draft after `set_pruner_steps`.
pub open spec fn pruner_steps(d: PrunerDraft, steps: usize) -> PrunerDraft {
    match d.0 {
        Some(p) => (Some(PopPruner { steps, ..p }), d.1),
        None => (None, Some(PopPruner { steps, ..d.1.unwrap_or(plain_pruner()) })),
    }
}

/// Switching the pruner on before or after setting its knobs gives the same
/// pruner.
pub proof fn pruner_setters_commute(method: PopPrunerMethod, steps: usize)
    ensures
        ({
            let fresh: PrunerDraft = (None, None);
            let first = pruner_steps(
                pruner_method(pruner_enabled(fresh, true), method),
                steps,
            );
            let last = pruner_enabled(pruner_steps(pruner_method(fresh, method), steps), true);
            &&& first == last
            &&& first.0 == Some(PopPruner { method, steps })
        }),
{
}

/// Knobs that were set while the pruner is off do not switch it on.
pub proof fn pruner_knobs_alone_leave_it_off(d: PrunerDraft, method: PopPrunerMethod, steps: usize)
    requires
        d.0 is None,
    ensures
        pruner_method(d, method).0 is None,
        pruner_steps(d, steps).0 is None,
{
}

/// A crossover roll is tried once and once more for every retry.
pub proof fn every_retry_is_one_more_try(cfg: RaceConfig)
    ensures
        cfg.crossover_retries == 0 ==> cfg.crossover_attempts_spec() == 1,
        cfg.crossover_retries < usize::MAX ==> cfg.crossover_attempts_spec()
            == cfg.crossover_retries + 1,
        cfg.crossover_attempts_spec() >= 1,
{
}

/// Who catches up with the past. On data everybody does, but for an immigrant
/// that is told to start fresh; on an environment nobody does unless asked to.
pub proof fn who_catches_up(cfg: RaceConfig)
    ensures
        cfg.mode != RunMode::Rl ==> cfg.crossover_catches_up_spec(),
        cfg.mode != RunMode::Rl ==> (cfg.immigrant_catches_up_spec() <==> !cfg.immigrant_fresh_start),
        cfg.mode == RunMode::Rl ==> (cfg.crossover_catches_up_spec() <==> cfg.crossover_catch_up),
        cfg.mode == RunMode::Rl ==> (cfg.immigrant_catches_up_spec() <==> cfg.mutation_catch_up
            && !cfg.immigrant_fresh_start),
{
}

/// The pruner's knobs. The word said last counts, each knob leaves the other
/// alone, switching the pruner off takes it out, and nothing that was set while
/// it was off is lost.
pub proof fn the_last_word_on_the_pruner_counts(
    d: PrunerDraft,
    method: PopPrunerMethod,
    steps: usize,
    before: usize,
)
    ensures
        pruner_enabled(d, true).0 is Some,
        pruner_enabled(d, false).0 is None,
        d.0 matches Some(p) ==> {
            &&& pruner_steps(d, steps).0 == Some(PopPruner { steps, ..p })
            &&& pruner_method(d, method).0 == Some(PopPruner { method, ..p })
        },
        pruner_steps(pruner_steps(d, before), steps) == pruner_steps(d, steps),
        d.0 is None ==> pruner_enabled(pruner_steps(d, steps), true).0->0.steps == steps,
        d.0 is None ==> pruner_enabled(pruner_method(d, method), true).0->0.method == method,
        d.0 is None && d.1 is Some ==> pruner_enabled(pruner_steps(d, steps), true).0->0.method
            == d.1->0.method,
        d.0 is None && d.1 is Some ==> pruner_enabled(pruner_method(d, method), true).0->0.steps
            == d.1->0.steps,
        d.0 is None && d.1 is None ==> pruner_enabled(d, true).0 == Some(
            PopPruner { method: PopPrunerMethod::Hard, steps: 0 },
        ),
{
}

/// What makes a config that can be run: a cadence and a window of at least one
/// step, and no more than one stop criterion. A knob that has to be at least one
/// is kept if it is.
pub proof fn a_config_can_be_run(cfg: RaceConfig, n: usize)
    ensures
        cfg.single_stop() <==> cfg.max_steps is None || cfg.max_target_fitness is None,
        cfg.runnable() <==> cfg.checkpoint_every > 0,
        cfg.smoothing() <==> cfg.smoothing_window > 0,
        at_least_one_spec(n) >= 1,
        n >= 1 ==> at_least_one_spec(n) == n,
        at_least_one_spec(0) == 1,
{
}

} // verus!
