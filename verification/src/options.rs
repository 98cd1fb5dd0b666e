//! The options of a generational run, and the builder that checks them.

use vstd::prelude::*;

use crate::config::{DimRange, TopologyOptions};
use crate::labels::{Activation, CombineOp, StandardizeOp};
use crate::score::Score;
use crate::tensor_file::Dtype;

verus! {

// ── Methods ──────────────────────────────────────────────────────────────

/// The bits of one half in single precision.
pub const HALF: u32 = 0x3f00_0000;

/// The bits of the single nearest to seven tenths.
pub const SEVEN_TENTHS: u32 = 0x3f33_3333;

/// The bits of the single nearest to four fifths.
pub const FOUR_FIFTHS: u32 = 0x3f4c_cccd;

/// The bits of the single nearest to one fifth.
pub const ONE_FIFTH: u32 = 0x3e4c_cccd;

/// The bits of the single nearest to one tenth.
pub const ONE_TENTH: u32 = 0x3dcc_cccd;

/// The bits of one in single precision.
pub const ONE: u32 = 0x3f80_0000;

/// How the next generation is chosen.
#[derive(Clone, Copy, Debug, PartialEq, Eq, Structural)]
pub enum SelectionMethod {
    Tournament { tournament_size: usize },
}

/// How two parents are combined; each way carries how often it is tried.
#[derive(Clone, Copy, Debug, PartialEq, Eq, Structural)]
pub enum CrossoverMethod {
    /// Swap a segment behind a pivot that both parents have.
    OnePoint { action_prob: Score },
    /// Swap node by node, independently.
    Uniform { action_prob: Score, swap_prob: Score },
}

impl Default for CrossoverMethod {
    fn default() -> (r: CrossoverMethod)
        ensures
            r == (CrossoverMethod::Uniform {
                action_prob: Score { bits: SEVEN_TENTHS },
                swap_prob: Score { bits: HALF },
            }),
    {
        CrossoverMethod::Uniform {
            action_prob: Score { bits: SEVEN_TENTHS },
            swap_prob: Score { bits: HALF },
        }
    }
}

impl CrossoverMethod {
    pub open spec fn prob_of(self) -> Score {
        match self {
            CrossoverMethod::OnePoint { action_prob } => action_prob,
            CrossoverMethod::Uniform { action_prob, swap_prob } => action_prob,
        }
    }

    /// How often a pair is crossed.
    pub fn action_prob(&self) -> (r: Score)
        ensures
            r == self.prob_of(),
    {
        match self {
            CrossoverMethod::OnePoint { action_prob } => *action_prob,
            CrossoverMethod::Uniform { action_prob, .. } => *action_prob,
        }
    }
}

/// What a mutation changes; each kind carries how often it happens.
#[derive(Clone, Copy, Debug, PartialEq, Eq, Structural)]
pub enum MutationMethod {
    Activation { prob: Score },
    CombineOp { prob: Score },
    Standardize { prob: Score },
}

impl MutationMethod {
    pub open spec fn prob_of(self) -> Score {
        match self {
            MutationMethod::Activation { prob } => prob,
            MutationMethod::CombineOp { prob } => prob,
            MutationMethod::Standardize { prob } => prob,
        }
    }

    /// How often an individual is mutated.
    pub fn prob(&self) -> (r: Score)
        ensures
            r == self.prob_of(),
    {
        match self {
            MutationMethod::Activation { prob } => *prob,
            MutationMethod::CombineOp { prob } => *prob,
            MutationMethod::Standardize { prob } => *prob,
        }
    }
}

/// A probability that never lets anything happen.
pub open spec fn never(p: Score) -> bool {
    !p.nan() && p.key() <= 0
}

pub fn is_never(p: Score) -> (r: bool)
    ensures
        r == never(p),
{
    let zero = Score::zero();
    !p.is_nan() && !zero.less_than(p)
}

/// A number brought into the range from 0 to 1; a NaN stays.
pub open spec fn clamped(p: Score) -> Score {
    if !p.nan() && p.key() < 0 {
        Score { bits: 0 }
    } else if !p.nan() && p.key() > (Score { bits: ONE }).key() {
        Score { bits: ONE }
    } else {
        p
    }
}

fn clamp(p: Score) -> (r: Score)
    ensures
        r == clamped(p),
{
    let zero = Score::zero();
    let one = Score::from_bits(ONE);
    if p.less_than(zero) {
        zero
    } else if one.less_than(p) {
        one
    } else {
        p
    }
}

/// The shares of rows to train and to test on, with what their sum came to.
#[derive(Debug)]
pub struct Split {
    pub train: Score,
    pub test: Score,
    /// Whether the shares sum to one, up to rounding.
    pub sums_to_one: bool,
    /// The shares and their sum, as text.
    pub shown: String,
}

/// How every individual is trained before it is scored.
#[derive(Clone, Copy, Debug, PartialEq, Eq, Structural)]
pub struct TrainingConfig {
    pub num_epochs: usize,
    pub learning_rate: Score,
    pub grad_clip: Score,
    pub train_y_proportional: bool,
    pub test_y_proportional: bool,
    pub num_batches_train: usize,
    pub num_batches_eval: usize,
    pub batch_size_train: usize,
    pub batch_size_eval: usize,
}

/// Everything a pool can be filled with.
#[derive(Debug)]
pub struct BuiltIns {
    pub combine_ops: Vec<CombineOp>,
    pub activations: Vec<Activation>,
    pub standardize_ops: Vec<StandardizeOp>,
}

// ── Options ──────────────────────────────────────────────────────────────

/// The options of a generational run.
#[derive(Debug)]
pub struct EngineOptions {
    /// Individuals per generation; at least 2.
    pub pop_size: Option<usize>,
    /// Evolution cycles; at least 1.
    pub num_generations: Option<usize>,
    /// The base seed; random if unset.
    pub seed: Option<u64>,
    /// The template every individual is drawn from.
    pub topology_options: TopologyOptions,
    /// The hidden dimension of the template.
    pub hidden_dim: Option<usize>,
    /// The range hidden dimensions are drawn from.
    pub hidden_dim_pool: DimRange,
    /// The stride within that range.
    pub hidden_dim_stride: usize,
    /// Empty stands for all.
    pub combine_op_pool: Vec<CombineOp>,
    /// Empty stands for all.
    pub activation_pool: Vec<Activation>,
    /// Empty stands for all.
    pub standardize_op_pool: Vec<StandardizeOp>,
    /// Training batches per generation.
    pub train_num_batches: usize,
    /// Test batches per generation.
    pub test_num_batches: usize,
    /// Rows per training batch.
    pub train_batch_size: usize,
    /// Rows per test batch.
    pub test_batch_size: usize,
    /// Threads to score with; 0 leaves it open.
    pub num_threads: usize,
    /// Where runs are recorded.
    pub results_dir: String,
    /// How individuals are trained.
    pub training: TrainingConfig,
    pub selection: Option<SelectionMethod>,
    pub crossover: Option<CrossoverMethod>,
    pub mutation: MutationMethod,
    /// The element type networks compute in.
    pub dtype: Dtype,
    /// The seed of the weights.
    pub init_seed: usize,
    /// The share of hidden values dropped in training.
    pub dropout_prob: Score,
    /// Whether training batches follow the class frequencies.
    pub train_y_proportional: bool,
    /// Whether test batches follow the class frequencies.
    pub test_y_proportional: bool,
    /// Whether repeated topologies are replaced.
    pub dedup_pop_and_fill: bool,
    /// Individuals that pass a generation untouched; at least 1.
    pub elite_count: usize,
    /// Whether the statistics of every generation are kept.
    pub gens_history: bool,
    /// Files whose topologies join the first generation.
    pub prior_topology_paths: Vec<String>,
    pub train_test_split: Split,
    /// Whether training batches change from generation to generation.
    pub train_random_data: bool,
    /// Whether test batches change from generation to generation.
    pub test_random_data: bool,
    /// Whether weights start from the seed.
    pub train_fixed_coefs: bool,
    /// The run to take up again.
    pub resume_from: Option<String>,
}

impl EngineOptions {
    /// The options before anything is set.
    pub open spec fn is_default(self) -> bool {
        &&& self.pop_size is None
        &&& self.num_generations is None
        &&& self.seed is None
        &&& self.topology_options == TopologyOptions::unset_spec()
        &&& self.hidden_dim is None
        &&& self.hidden_dim_pool == (DimRange { start: 4, end: 8 })
        &&& self.hidden_dim_stride == 1usize
        &&& self.combine_op_pool@.len() == 0
        &&& self.activation_pool@.len() == 0
        &&& self.standardize_op_pool@.len() == 0
        &&& self.train_num_batches == 16usize
        &&& self.test_num_batches == 16usize
        &&& self.train_batch_size == 32usize
        &&& self.test_batch_size == 32usize
        &&& self.num_threads == 1usize
        &&& self.results_dir@ == "results"@
        &&& self.training == TrainingConfig::initial()
        &&& self.selection is None
        &&& self.crossover is None
        &&& never(self.mutation.prob_of())
        &&& self.dtype == Dtype::Float32
        &&& self.init_seed == 0usize
        &&& self.dropout_prob == (Score { bits: ONE_TENTH })
        &&& self.train_y_proportional == false
        &&& self.test_y_proportional == false
        &&& self.dedup_pop_and_fill == false
        &&& self.elite_count == 2usize
        &&& self.gens_history == false
        &&& self.prior_topology_paths@.len() == 0
        &&& self.train_test_split.train == (Score { bits: FOUR_FIFTHS })
        &&& self.train_test_split.test == (Score { bits: ONE_FIFTH })
        &&& self.train_test_split.sums_to_one
        &&& self.train_random_data == true
        &&& self.test_random_data == true
        &&& self.train_fixed_coefs == true
        &&& self.resume_from is None
    }

    /// The options before anything is set: what has to be set is unset, and the
    /// mutation never happens.
    pub fn defaults() -> (r: EngineOptions)
        ensures
            r.is_default(),
    {
        EngineOptions {
            pop_size: None,
            num_generations: None,
            seed: None,
            topology_options: TopologyOptions::unset(),
            hidden_dim: None,
            hidden_dim_pool: DimRange { start: 4, end: 8 },
            hidden_dim_stride: 1,
            combine_op_pool: Vec::new(),
            activation_pool: Vec::new(),
            standardize_op_pool: Vec::new(),
            train_num_batches: 16,
            test_num_batches: 16,
            train_batch_size: 32,
            test_batch_size: 32,
            num_threads: 1,
            results_dir: String::from_str("results"),
            training: TrainingConfig::new(),
            selection: None,
            crossover: None,
            mutation: MutationMethod::Activation { prob: Score { bits: 0 } },
            dtype: Dtype::Float32,
            init_seed: 0,
            dropout_prob: Score { bits: ONE_TENTH },
            train_y_proportional: false,
            test_y_proportional: false,
            dedup_pop_and_fill: false,
            elite_count: 2,
            gens_history: false,
            prior_topology_paths: Vec::new(),
            train_test_split: Split {
                train: Score { bits: FOUR_FIFTHS },
                test: Score { bits: ONE_FIFTH },
                sums_to_one: true,
                shown: String::new(),
            },
            train_random_data: true,
            test_random_data: true,
            train_fixed_coefs: true,
            resume_from: None,
        }
    }

    /// The template of one individual: the shared one with a seed of its own.
    pub fn derive_topology_options(&self, seed: usize) -> (r: TopologyOptions)
        ensures
            r == (TopologyOptions { topology_seed: Some(seed), ..self.topology_options }),
    {
        let mut t = self.topology_options;
        t.topology_seed = Some(seed);
        t
    }

    pub fn builder() -> (r: EngineOptionsBuilder)
        ensures
            r.inner.is_default(),
    {
        EngineOptionsBuilder { inner: EngineOptions::defaults() }
    }
}

impl TrainingConfig {
    /// One epoch, and everything else at zero: the engine fills it in.
    pub open spec fn initial() -> TrainingConfig {
        TrainingConfig {
            num_epochs: 1,
            learning_rate: Score { bits: 0 },
            grad_clip: Score { bits: 0 },
            train_y_proportional: false,
            test_y_proportional: false,
            num_batches_train: 0,
            num_batches_eval: 0,
            batch_size_train: 0,
            batch_size_eval: 0,
        }
    }

    pub fn new() -> (r: TrainingConfig)
        ensures
            r == TrainingConfig::initial(),
    {
        TrainingConfig {
            num_epochs: 1,
            learning_rate: Score { bits: 0 },
            grad_clip: Score { bits: 0 },
            train_y_proportional: false,
            test_y_proportional: false,
            num_batches_train: 0,
            num_batches_eval: 0,
            batch_size_train: 0,
            batch_size_eval: 0,
        }
    }
}

// ── The builder ──────────────────────────────────────────────────────────

/// Sets options one by one.
#[derive(Debug)]
pub struct EngineOptionsBuilder {
    pub inner: EngineOptions,
}

impl EngineOptionsBuilder {
    pub fn set_pop_size(self, n: usize) -> (r: EngineOptionsBuilder)
        ensures
            r.inner == (EngineOptions { pop_size: Some(n), ..self.inner }),
    {
        let mut out = self;
        out.inner.pop_size = Some(n);
        out
    }

    pub fn set_num_generations(self, n: usize) -> (r: EngineOptionsBuilder)
        ensures
            r.inner == (EngineOptions { num_generations: Some(n), ..self.inner }),
    {
        let mut out = self;
        out.inner.num_generations = Some(n);
        out
    }

    pub fn set_seed(self, s: Option<u64>) -> (r: EngineOptionsBuilder)
        ensures
            r.inner == (EngineOptions { seed: s, ..self.inner }),
    {
        let mut out = self;
        out.inner.seed = s;
        out
    }

    pub fn set_train_num_batches(self, n: usize) -> (r: EngineOptionsBuilder)
        ensures
            r.inner == (EngineOptions { train_num_batches: n, ..self.inner }),
    {
        let mut out = self;
        out.inner.train_num_batches = n;
        out
    }

    pub fn set_test_num_batches(self, n: usize) -> (r: EngineOptionsBuilder)
        ensures
            r.inner == (EngineOptions { test_num_batches: n, ..self.inner }),
    {
        let mut out = self;
        out.inner.test_num_batches = n;
        out
    }

    pub fn set_train_batch_size(self, n: usize) -> (r: EngineOptionsBuilder)
        ensures
            r.inner == (EngineOptions { train_batch_size: n, ..self.inner }),
    {
        let mut out = self;
        out.inner.train_batch_size = n;
        out
    }

    pub fn set_test_batch_size(self, n: usize) -> (r: EngineOptionsBuilder)
        ensures
            r.inner == (EngineOptions { test_batch_size: n, ..self.inner }),
    {
        let mut out = self;
        out.inner.test_batch_size = n;
        out
    }

    pub fn set_num_threads(self, n: usize) -> (r: EngineOptionsBuilder)
        ensures
            r.inner == (EngineOptions { num_threads: n, ..self.inner }),
    {
        let mut out = self;
        out.inner.num_threads = n;
        out
    }

    pub fn set_results_dir(self, dir: String) -> (r: EngineOptionsBuilder)
        ensures
            r.inner == (EngineOptions { results_dir: dir, ..self.inner }),
    {
        let mut out = self;
        out.inner.results_dir = dir;
        out
    }

    pub fn set_selection(self, method: SelectionMethod) -> (r: EngineOptionsBuilder)
        ensures
            r.inner == (EngineOptions { selection: Some(method), ..self.inner }),
    {
        let mut out = self;
        out.inner.selection = Some(method);
        out
    }

    pub fn set_num_epochs(self, n: usize) -> (r: EngineOptionsBuilder)
        ensures
            r.inner == (EngineOptions {
                training: (TrainingConfig { num_epochs: n, ..self.inner.training }),
                ..self.inner
            }),
    {
        let mut out = self;
        out.inner.training.num_epochs = n;
        out
    }

    pub fn set_learning_rate(self, lr: Score) -> (r: EngineOptionsBuilder)
        ensures
            r.inner == (EngineOptions {
                training: (TrainingConfig { learning_rate: lr, ..self.inner.training }),
                ..self.inner
            }),
    {
        let mut out = self;
        out.inner.training.learning_rate = lr;
        out
    }

    pub fn set_grad_clip(self, max_norm: Score) -> (r: EngineOptionsBuilder)
        ensures
            r.inner == (EngineOptions {
                training: (TrainingConfig { grad_clip: max_norm, ..self.inner.training }),
                ..self.inner
            }),
    {
        let mut out = self;
        out.inner.training.grad_clip = max_norm;
        out
    }

    /// A share outside the range from 0 to 1 is brought into it.
    pub fn set_dropout_prob(self, p: Score) -> (r: EngineOptionsBuilder)
        ensures
            r.inner == (EngineOptions { dropout_prob: clamped(p), ..self.inner }),
    {
        let mut out = self;
        out.inner.dropout_prob = clamp(p);
        out
    }

    pub fn set_train_y_proportional(self, on: bool) -> (r: EngineOptionsBuilder)
        ensures
            r.inner == (EngineOptions { train_y_proportional: on, ..self.inner }),
    {
        let mut out = self;
        out.inner.train_y_proportional = on;
        out
    }

    pub fn set_test_y_proportional(self, on: bool) -> (r: EngineOptionsBuilder)
        ensures
            r.inner == (EngineOptions { test_y_proportional: on, ..self.inner }),
    {
        let mut out = self;
        out.inner.test_y_proportional = on;
        out
    }

    pub fn set_dedup_pop_and_fill(self, on: bool) -> (r: EngineOptionsBuilder)
        ensures
            r.inner == (EngineOptions { dedup_pop_and_fill: on, ..self.inner }),
    {
        let mut out = self;
        out.inner.dedup_pop_and_fill = on;
        out
    }

    pub fn set_gens_history(self, on: bool) -> (r: EngineOptionsBuilder)
        ensures
            r.inner == (EngineOptions { gens_history: on, ..self.inner }),
    {
        let mut out = self;
        out.inner.gens_history = on;
        out
    }

    pub fn set_train_random_data(self, on: bool) -> (r: EngineOptionsBuilder)
        ensures
            r.inner == (EngineOptions { train_random_data: on, ..self.inner }),
    {
        let mut out = self;
        out.inner.train_random_data = on;
        out
    }

    pub fn set_test_random_data(self, on: bool) -> (r: EngineOptionsBuilder)
        ensures
            r.inner == (EngineOptions { test_random_data: on, ..self.inner }),
    {
        let mut out = self;
        out.inner.test_random_data = on;
        out
    }

    pub fn set_train_fixed_coefs(self, on: bool) -> (r: EngineOptionsBuilder)
        ensures
            r.inner == (EngineOptions { train_fixed_coefs: on, ..self.inner }),
    {
        let mut out = self;
        out.inner.train_fixed_coefs = on;
        out
    }

    pub fn set_crossover(self, kind: CrossoverMethod) -> (r: EngineOptionsBuilder)
        ensures
            r.inner == (EngineOptions { crossover: Some(kind), ..self.inner }),
    {
        let mut out = self;
        out.inner.crossover = Some(kind);
        out
    }

    pub fn set_mutation(self, kind: MutationMethod) -> (r: EngineOptionsBuilder)
        ensures
            r.inner == (EngineOptions { mutation: kind, ..self.inner }),
    {
        let mut out = self;
        out.inner.mutation = kind;
        out
    }

    pub fn set_elite_count(self, n: usize) -> (r: EngineOptionsBuilder)
        ensures
            r.inner == (EngineOptions { elite_count: n, ..self.inner }),
    {
        let mut out = self;
        out.inner.elite_count = n;
        out
    }

    pub fn set_train_test_split(self, split: Split) -> (r: EngineOptionsBuilder)
        ensures
            r.inner == (EngineOptions { train_test_split: split, ..self.inner }),
    {
        let mut out = self;
        out.inner.train_test_split = split;
        out
    }

    /// The run to take up again, whose population replaces the first generation.
    pub fn set_resume_from(self, dir: String) -> (r: EngineOptionsBuilder)
        ensures
            r.inner == (EngineOptions { resume_from: Some(dir), ..self.inner }),
    {
        let mut out = self;
        out.inner.resume_from = Some(dir);
        out
    }

    pub fn set_topology_options(self, t: TopologyOptions) -> (r: EngineOptionsBuilder)
        ensures
            r.inner == (EngineOptions { topology_options: t, ..self.inner }),
    {
        let mut out = self;
        out.inner.topology_options = t;
        out
    }

    pub fn set_hidden_dim(self, n: usize) -> (r: EngineOptionsBuilder)
        ensures
            r.inner == (EngineOptions { hidden_dim: Some(n), ..self.inner }),
    {
        let mut out = self;
        out.inner.hidden_dim = Some(n);
        out
    }

    pub fn set_hidden_dim_pool(self, r: DimRange) -> (b: EngineOptionsBuilder)
        ensures
            b.inner == (EngineOptions { hidden_dim_pool: r, ..self.inner }),
    {
        let mut out = self;
        out.inner.hidden_dim_pool = r;
        out
    }

    /// A stride of 0 counts as 1.
    pub fn set_hidden_dim_stride(self, s: usize) -> (r: EngineOptionsBuilder)
        ensures
            r.inner == (EngineOptions { hidden_dim_stride: (if s < 1 {
                1
            } else {
                s
            }), ..self.inner }),
    {
        let mut out = self;
        out.inner.hidden_dim_stride = if s < 1 {
            1
        } else {
            s
        };
        out
    }

    pub fn set_combine_op_pool(self, ops: Vec<CombineOp>) -> (r: EngineOptionsBuilder)
        ensures
            r.inner == (EngineOptions { combine_op_pool: ops, ..self.inner }),
    {
        let mut out = self;
        out.inner.combine_op_pool = ops;
        out
    }

    pub fn set_activation_pool(self, acts: Vec<Activation>) -> (r: EngineOptionsBuilder)
        ensures
            r.inner == (EngineOptions { activation_pool: acts, ..self.inner }),
    {
        let mut out = self;
        out.inner.activation_pool = acts;
        out
    }

    pub fn set_standardize_op_pool(self, ops: Vec<StandardizeOp>) -> (r: EngineOptionsBuilder)
        ensures
            r.inner == (EngineOptions { standardize_op_pool: ops, ..self.inner }),
    {
        let mut out = self;
        out.inner.standardize_op_pool = ops;
        out
    }

    pub fn set_min_hidden_num_nodes(self, n: usize) -> (r: EngineOptionsBuilder)
        ensures
            r.inner == (EngineOptions {
                topology_options: (TopologyOptions {
                    min_hidden_num_nodes: Some(n),
                    ..self.inner.topology_options
                }),
                ..self.inner
            }),
    {
        let mut out = self;
        out.inner.topology_options.min_hidden_num_nodes = Some(n);
        out
    }

    pub fn set_max_hidden_num_nodes(self, n: usize) -> (r: EngineOptionsBuilder)
        ensures
            r.inner == (EngineOptions {
                topology_options: (TopologyOptions {
                    max_hidden_num_nodes: Some(n),
                    ..self.inner.topology_options
                }),
                ..self.inner
            }),
    {
        let mut out = self;
        out.inner.topology_options.max_hidden_num_nodes = Some(n);
        out
    }

    pub fn set_min_hidden_inputs_per_node(self, n: usize) -> (r: EngineOptionsBuilder)
        ensures
            r.inner == (EngineOptions {
                topology_options: (TopologyOptions {
                    min_hidden_inputs_per_node: Some(n),
                    ..self.inner.topology_options
                }),
                ..self.inner
            }),
    {
        let mut out = self;
        out.inner.topology_options.min_hidden_inputs_per_node = Some(n);
        out
    }

    pub fn set_max_hidden_inputs_per_node(self, n: usize) -> (r: EngineOptionsBuilder)
        ensures
            r.inner == (EngineOptions {
                topology_options: (TopologyOptions {
                    max_hidden_inputs_per_node: Some(n),
                    ..self.inner.topology_options
                }),
                ..self.inner
            }),
    {
        let mut out = self;
        out.inner.topology_options.max_hidden_inputs_per_node = Some(n);
        out
    }

    pub fn set_min_hidden_outputs_per_node(self, n: usize) -> (r: EngineOptionsBuilder)
        ensures
            r.inner == (EngineOptions {
                topology_options: (TopologyOptions {
                    min_hidden_outputs_per_node: Some(n),
                    ..self.inner.topology_options
                }),
                ..self.inner
            }),
    {
        let mut out = self;
        out.inner.topology_options.min_hidden_outputs_per_node = Some(n);
        out
    }

    pub fn set_max_hidden_outputs_per_node(self, n: usize) -> (r: EngineOptionsBuilder)
        ensures
            r.inner == (EngineOptions {
                topology_options: (TopologyOptions {
                    max_hidden_outputs_per_node: Some(n),
                    ..self.inner.topology_options
                }),
                ..self.inner
            }),
    {
        let mut out = self;
        out.inner.topology_options.max_hidden_outputs_per_node = Some(n);
        out
    }

    pub fn set_dtype(self, d: Dtype) -> (r: EngineOptionsBuilder)
        ensures
            r.inner == (EngineOptions { dtype: d, ..self.inner }),
    {
        let mut out = self;
        out.inner.dtype = d;
        out
    }

    pub fn set_init_seed(self, seed: usize) -> (r: EngineOptionsBuilder)
        ensures
            r.inner == (EngineOptions { init_seed: seed, ..self.inner }),
    {
        let mut out = self;
        out.inner.init_seed = seed;
        out
    }

    /// Adds a file whose topology joins the first generation.
    pub fn set_prior_topology(self, path: String) -> (r: EngineOptionsBuilder)
        ensures
            r.inner == (EngineOptions {
                prior_topology_paths: r.inner.prior_topology_paths,
                ..self.inner
            }),
            r.inner.prior_topology_paths@ == self.inner.prior_topology_paths@.push(path),
    {
        let mut out = self;
        out.inner.prior_topology_paths.push(path);
        out
    }

    /// Adds files whose topologies join the first generation.
    pub fn set_prior_topologies(self, paths: Vec<String>) -> (r: EngineOptionsBuilder)
        ensures
            r.inner == (EngineOptions {
                prior_topology_paths: r.inner.prior_topology_paths,
                ..self.inner
            }),
            r.inner.prior_topology_paths@ == self.inner.prior_topology_paths@ + paths@,
    {
        let mut out = self;
        let mut more = paths;
        out.inner.prior_topology_paths.append(&mut more);
        out
    }

    /// Checks what is required and fills empty pools with everything there is.
    pub fn build(self, all: BuiltIns) -> (r: Result<EngineOptions, OptionsError>)
        ensures
            match (r, first_error(self.inner)) {
                (Ok(o), None) => o == filled(self.inner, all),
                (Err(e), Some(x)) => e == x,
                _ => false,
            },
    {
        let mut o = self.inner;
        match o.pop_size {
            None => {
                return Err(OptionsError::PopSizeMissing);
            },
            Some(n) => {
                if n < 2 {
                    return Err(OptionsError::PopSizeTooSmall);
                }
            },
        }
        match o.num_generations {
            None => {
                return Err(OptionsError::GenerationsMissing);
            },
            Some(n) => {
                if n < 1 {
                    return Err(OptionsError::NoGeneration);
                }
            },
        }
        if o.elite_count < 1 {
            return Err(OptionsError::NoElite);
        }
        if !o.train_test_split.sums_to_one {
            return Err(OptionsError::SplitSum);
        }
        if o.selection.is_none() {
            return Err(OptionsError::SelectionMissing);
        }
        if o.crossover.is_none() {
            return Err(OptionsError::CrossoverMissing);
        }
        if is_never(o.mutation.prob()) {
            return Err(OptionsError::MutationMissing);
        }
        if o.resume_from.is_some() && o.prior_topology_paths.len() > 0 {
            return Err(OptionsError::ResumeWithPriors);
        }
        if o.train_num_batches > 0 && o.train_batch_size == 0 {
            o.train_batch_size = 32;
        }
        if o.test_num_batches > 0 && o.test_batch_size == 0 {
            o.test_batch_size = 32;
        }
        if o.training.num_epochs == 0 {
            o.training.num_epochs = 1;
        }
        fill_pools(&mut o, all);
        Ok(o)
    }
}

/// Why options are refused.
#[derive(Clone, Copy, Debug, PartialEq, Eq, Structural)]
pub enum OptionsError {
    PopSizeMissing,
    PopSizeTooSmall,
    GenerationsMissing,
    NoGeneration,
    NoElite,
    SplitSum,
    SelectionMissing,
    CrossoverMissing,
    MutationMissing,
    ResumeWithPriors,
    /// Training batches without rows.
    TrainBatchSize,
    /// Test batches without rows.
    TestBatchSize,
}

/// The first thing wrong with options, in the order in which they are checked.
pub open spec fn first_error(o: EngineOptions) -> Option<OptionsError> {
    if o.pop_size is None {
        Some(OptionsError::PopSizeMissing)
    } else if o.pop_size->0 < 2 {
        Some(OptionsError::PopSizeTooSmall)
    } else if o.num_generations is None {
        Some(OptionsError::GenerationsMissing)
    } else if o.num_generations->0 < 1 {
        Some(OptionsError::NoGeneration)
    } else if o.elite_count < 1 {
        Some(OptionsError::NoElite)
    } else if !o.train_test_split.sums_to_one {
        Some(OptionsError::SplitSum)
    } else if o.selection is None {
        Some(OptionsError::SelectionMissing)
    } else if o.crossover is None {
        Some(OptionsError::CrossoverMissing)
    } else if never(o.mutation.prob_of()) {
        Some(OptionsError::MutationMissing)
    } else if o.resume_from is Some && o.prior_topology_paths@.len() > 0 {
        Some(OptionsError::ResumeWithPriors)
    } else {
        None
    }
}

/// A range, or the default one if it is empty.
pub open spec fn range_or_default(r: DimRange) -> DimRange {
    if r.start > r.end {
        DimRange { start: 4, end: 8 }
    } else {
        r
    }
}

/// Options with everything there is in place of an empty pool.
pub open spec fn pools_filled(before: EngineOptions, all: BuiltIns) -> EngineOptions {
    EngineOptions {
        hidden_dim_pool: range_or_default(before.hidden_dim_pool),
        combine_op_pool: if before.combine_op_pool@.len() == 0 {
            all.combine_ops
        } else {
            before.combine_op_pool
        },
        activation_pool: if before.activation_pool@.len() == 0 {
            all.activations
        } else {
            before.activation_pool
        },
        standardize_op_pool: if before.standardize_op_pool@.len() == 0 {
            all.standardize_ops
        } else {
            before.standardize_op_pool
        },
        ..before
    }
}

/// `n`, or `fallback` if it is 0.
pub open spec fn or_default(n: usize, fallback: usize) -> usize {
    if n == 0 {
        fallback
    } else {
        n
    }
}

/// What the builder hands out for options it accepts.
pub open spec fn filled(before: EngineOptions, all: BuiltIns) -> EngineOptions {
    EngineOptions {
        train_batch_size: if before.train_num_batches > 0 {
            or_default(before.train_batch_size, 32)
        } else {
            before.train_batch_size
        },
        test_batch_size: if before.test_num_batches > 0 {
            or_default(before.test_batch_size, 32)
        } else {
            before.test_batch_size
        },
        training: (TrainingConfig {
            num_epochs: or_default(before.training.num_epochs, 1),
            ..before.training
        }),
        ..pools_filled(before, all)
    }
}

fn fill_pools(o: &mut EngineOptions, all: BuiltIns)
    ensures
        *final(o) == pools_filled(*old(o), all),
{
    if o.hidden_dim_pool.start > o.hidden_dim_pool.end {
        o.hidden_dim_pool = DimRange { start: 4, end: 8 };
    }
    if o.combine_op_pool.len() == 0 {
        o.combine_op_pool = all.combine_ops;
    }
    if o.activation_pool.len() == 0 {
        o.activation_pool = all.activations;
    }
    if o.standardize_op_pool.len() == 0 {
        o.standardize_op_pool = all.standardize_ops;
    }
}

impl OptionsError {
    /// What the user is told; `split` is the text of a split that does not sum
    /// to one.
    pub open spec fn message_text(self, split: Seq<char>) -> Seq<char> {
        match self {
            OptionsError::PopSizeMissing => "set_pop_size() is required — must be >= 2"@,
            OptionsError::PopSizeTooSmall => "pop_size must be >= 2 (required for crossover)"@,
            OptionsError::GenerationsMissing =>
                "set_num_generations() is required — must be >= 1"@,
            OptionsError::NoGeneration =>
                "num_generations must be >= 1 (at least one evolution cycle)"@,
            OptionsError::NoElite => "elite_count must be >= 1 (at least one elite must survive)"@,
            OptionsError::SplitSum => "train_test_split must sum to 1.0, got "@ + split,
            OptionsError::SelectionMissing =>
                "set_selection() is required — choose SelectionMethod::Tournament"@,
            OptionsError::CrossoverMissing =>
                "set_crossover() is required — choose CrossoverMethod::OnePoint or Uniform"@,
            OptionsError::MutationMissing =>
                "set_mutation() is required — choose MutationMethod::Activation, CombineOp, or Standardize"@,
            OptionsError::ResumeWithPriors =>
                "set_resume_from() and set_prior_topology() are mutually exclusive — resume replaces the population, warm start injects into a fresh one"@,
            OptionsError::TrainBatchSize =>
                "train_num_batches > 0 requires train_batch_size > 0"@,
            OptionsError::TestBatchSize => "test_num_batches > 0 requires test_batch_size > 0"@,
        }
    }

    pub fn message(self, split: &str) -> (r: String)
        ensures
            r@ == self.message_text(split@),
    {
        let text: &'static str = match self {
            OptionsError::PopSizeMissing => "set_pop_size() is required — must be >= 2",
            OptionsError::PopSizeTooSmall => "pop_size must be >= 2 (required for crossover)",
            OptionsError::GenerationsMissing => "set_num_generations() is required — must be >= 1",
            OptionsError::NoGeneration =>
                "num_generations must be >= 1 (at least one evolution cycle)",
            OptionsError::NoElite => "elite_count must be >= 1 (at least one elite must survive)",
            OptionsError::SplitSum => "train_test_split must sum to 1.0, got ",
            OptionsError::SelectionMissing =>
                "set_selection() is required — choose SelectionMethod::Tournament",
            OptionsError::CrossoverMissing =>
                "set_crossover() is required — choose CrossoverMethod::OnePoint or Uniform",
            OptionsError::MutationMissing =>
                "set_mutation() is required — choose MutationMethod::Activation, CombineOp, or Standardize",
            OptionsError::ResumeWithPriors =>
                "set_resume_from() and set_prior_topology() are mutually exclusive — resume replaces the population, warm start injects into a fresh one",
            OptionsError::TrainBatchSize => "train_num_batches > 0 requires train_batch_size > 0",
            OptionsError::TestBatchSize => "test_num_batches > 0 requires test_batch_size > 0",
        };
        let mut out = String::from_str(text);
        match self {
            OptionsError::SplitSum => {
                out.append(split);
            },
            _ => {},
        }
        out
    }
}

// ── At the start of a run ────────────────────────────────────────────────

/// What is wrong with the batch budget.
pub open spec fn budget_error(o: EngineOptions) -> Option<OptionsError> {
    if o.train_num_batches > 0 && o.train_batch_size == 0 {
        Some(OptionsError::TrainBatchSize)
    } else if o.test_num_batches > 0 && o.test_batch_size == 0 {
        Some(OptionsError::TestBatchSize)
    } else {
        None
    }
}

/// Options as a run uses them: nothing is 0 that must not be, no pool is empty,
/// and the training settings follow the run's.
pub open spec fn ready(o: EngineOptions, all: BuiltIns) -> EngineOptions {
    EngineOptions {
        train_num_batches: or_default(o.train_num_batches, 16),
        test_num_batches: or_default(o.test_num_batches, 16),
        train_batch_size: or_default(o.train_batch_size, 32),
        test_batch_size: or_default(o.test_batch_size, 32),
        hidden_dim_stride: or_default(o.hidden_dim_stride, 1),
        training: (TrainingConfig {
            num_epochs: or_default(o.training.num_epochs, 1),
            train_y_proportional: o.train_y_proportional,
            test_y_proportional: o.test_y_proportional,
            num_batches_train: or_default(o.train_num_batches, 16),
            num_batches_eval: or_default(o.test_num_batches, 16),
            batch_size_train: or_default(o.train_batch_size, 32),
            batch_size_eval: or_default(o.test_batch_size, 32),
            ..o.training
        }),
        ..pools_filled(o, all)
    }
}

impl EngineOptions {
    /// Checks the batch budget and fills in what a run needs. The builder has
    /// done part of it; options made by hand have not seen it.
    pub fn validate_and_fill_options(&mut self, all: BuiltIns) -> (r: Result<(), OptionsError>)
        ensures
            match (r, budget_error(*old(self))) {
                (Ok(_), None) => *final(self) == ready(*old(self), all),
                (Err(e), Some(x)) => e == x && *final(self) == *old(self),
                _ => false,
            },
    {
        if self.train_num_batches > 0 && self.train_batch_size == 0 {
            return Err(OptionsError::TrainBatchSize);
        }
        if self.test_num_batches > 0 && self.test_batch_size == 0 {
            return Err(OptionsError::TestBatchSize);
        }
        if self.train_num_batches == 0 {
            self.train_num_batches = 16;
        }
        if self.test_num_batches == 0 {
            self.test_num_batches = 16;
        }
        if self.train_batch_size == 0 {
            self.train_batch_size = 32;
        }
        if self.test_batch_size == 0 {
            self.test_batch_size = 32;
        }
        if self.training.num_epochs == 0 {
            self.training.num_epochs = 1;
        }
        if self.hidden_dim_stride == 0 {
            self.hidden_dim_stride = 1;
        }
        fill_pools(self, all);
        self.training.train_y_proportional = self.train_y_proportional;
        self.training.test_y_proportional = self.test_y_proportional;
        self.training.num_batches_train = self.train_num_batches;
        self.training.num_batches_eval = self.test_num_batches;
        self.training.batch_size_train = self.train_batch_size;
        self.training.batch_size_eval = self.test_batch_size;
        Ok(())
    }
}

/// A run never refuses the batch budget of options the builder made.
pub proof fn built_options_have_a_budget(o: EngineOptions, built: EngineOptions, all: BuiltIns)
    requires
        first_error(o) is None,
        built == filled(o, all),
    ensures
        budget_error(built) is None,
{
}

/// Options that are ready stay as they are.
pub proof fn readiness_is_final(o: EngineOptions, all: BuiltIns, again: BuiltIns)
    requires
        budget_error(o) is None,
        all.combine_ops@.len() > 0,
        all.activations@.len() > 0,
        all.standardize_ops@.len() > 0,
    ensures
        budget_error(ready(o, all)) is None,
        ready(ready(o, all), again) == ready(o, all),
{
}

/// Run options can be drawn from: no pool is empty and the range has a stride.
pub proof fn ready_pools_hold_something(o: EngineOptions, all: BuiltIns)
    requires
        all.combine_ops@.len() > 0,
        all.activations@.len() > 0,
        all.standardize_ops@.len() > 0,
    ensures
        ({
            let r = ready(o, all);
            &&& r.combine_op_pool@.len() > 0
            &&& r.activation_pool@.len() > 0
            &&& r.standardize_op_pool@.len() > 0
            &&& r.hidden_dim_pool.start <= r.hidden_dim_pool.end
            &&& r.hidden_dim_stride > 0
        }),
{
}

/// Options are accepted exactly if there are at least two individuals and one
/// generation, an elite survives, the split is whole, a selection, a crossover
/// and a mutation that happens are chosen, and the run does not both resume and
/// start warm.
pub proof fn options_are_accepted(o: EngineOptions)
    ensures
        first_error(o) is None <==> {
            &&& o.pop_size matches Some(n) && n >= 2
            &&& o.num_generations matches Some(g) && g >= 1
            &&& o.elite_count >= 1
            &&& o.train_test_split.sums_to_one
            &&& o.selection is Some
            &&& o.crossover is Some
            &&& o.mutation.prob_of().nan() || o.mutation.prob_of().key() > 0
            &&& o.resume_from is None || o.prior_topology_paths@.len() == 0
        },
        first_error(o) matches Some(e) ==> match e {
            OptionsError::PopSizeMissing => o.pop_size is None,
            OptionsError::PopSizeTooSmall => o.pop_size is Some && o.pop_size->0 < 2,
            OptionsError::GenerationsMissing => o.num_generations is None,
            OptionsError::NoGeneration => o.num_generations == Some(0usize),
            OptionsError::NoElite => o.elite_count == 0,
            OptionsError::SplitSum => !o.train_test_split.sums_to_one,
            OptionsError::SelectionMissing => o.selection is None,
            OptionsError::CrossoverMissing => o.crossover is None,
            OptionsError::MutationMissing => !o.mutation.prob_of().nan()
                && o.mutation.prob_of().key() <= 0,
            OptionsError::ResumeWithPriors => o.resume_from is Some
                && o.prior_topology_paths@.len() > 0,
            OptionsError::TrainBatchSize => false,
            OptionsError::TestBatchSize => false,
        },
{
}

/// A run refuses a budget exactly if it asks for batches without rows.
pub proof fn a_budget_is_accepted(o: EngineOptions)
    ensures
        budget_error(o) is None <==> (o.train_num_batches == 0 || o.train_batch_size > 0) && (
        o.test_num_batches == 0 || o.test_batch_size > 0),
{
}

/// What was set is kept, and what was left open gets its default: 16 batches of
/// 32 rows, one epoch, dimensions from 4 to 8 in steps of 1, and everything there
/// is in a pool. Nothing else changes but for the copies in the training.
pub proof fn what_was_set_is_kept(o: EngineOptions, all: BuiltIns)
    ensures
        ({
            let r = ready(o, all);
            let t = r.training;
            &&& o.train_num_batches > 0 ==> r.train_num_batches == o.train_num_batches
            &&& o.train_num_batches == 0 ==> r.train_num_batches == 16
            &&& o.test_num_batches > 0 ==> r.test_num_batches == o.test_num_batches
            &&& o.test_num_batches == 0 ==> r.test_num_batches == 16
            &&& o.train_batch_size > 0 ==> r.train_batch_size == o.train_batch_size
            &&& o.train_batch_size == 0 ==> r.train_batch_size == 32
            &&& o.test_batch_size > 0 ==> r.test_batch_size == o.test_batch_size
            &&& o.test_batch_size == 0 ==> r.test_batch_size == 32
            &&& o.hidden_dim_stride > 0 ==> r.hidden_dim_stride == o.hidden_dim_stride
            &&& o.hidden_dim_stride == 0 ==> r.hidden_dim_stride == 1
            &&& o.training.num_epochs > 0 ==> t.num_epochs == o.training.num_epochs
            &&& o.training.num_epochs == 0 ==> t.num_epochs == 1
            &&& t.num_batches_train == r.train_num_batches
            &&& t.num_batches_eval == r.test_num_batches
            &&& t.batch_size_train == r.train_batch_size
            &&& t.batch_size_eval == r.test_batch_size
            &&& t.train_y_proportional == o.train_y_proportional
            &&& t.test_y_proportional == o.test_y_proportional
            &&& t.learning_rate == o.training.learning_rate
            &&& t.grad_clip == o.training.grad_clip
            &&& pools_are_kept(o, r, all)
            &&& r == (EngineOptions {
                train_num_batches: r.train_num_batches,
                test_num_batches: r.test_num_batches,
                train_batch_size: r.train_batch_size,
                test_batch_size: r.test_batch_size,
                hidden_dim_stride: r.hidden_dim_stride,
                hidden_dim_pool: r.hidden_dim_pool,
                combine_op_pool: r.combine_op_pool,
                activation_pool: r.activation_pool,
                standardize_op_pool: r.standardize_op_pool,
                training: t,
                ..o
            })
        }),
{
}

/// Pools with something in them are kept, and empty ones get everything.
pub open spec fn pools_are_kept(o: EngineOptions, r: EngineOptions, all: BuiltIns) -> bool {
    &&& o.combine_op_pool@.len() > 0 ==> r.combine_op_pool == o.combine_op_pool
    &&& o.combine_op_pool@.len() == 0 ==> r.combine_op_pool == all.combine_ops
    &&& o.activation_pool@.len() > 0 ==> r.activation_pool == o.activation_pool
    &&& o.activation_pool@.len() == 0 ==> r.activation_pool == all.activations
    &&& o.standardize_op_pool@.len() > 0 ==> r.standardize_op_pool == o.standardize_op_pool
    &&& o.standardize_op_pool@.len() == 0 ==> r.standardize_op_pool == all.standardize_ops
    &&& o.hidden_dim_pool.start <= o.hidden_dim_pool.end ==> r.hidden_dim_pool == o.hidden_dim_pool
    &&& o.hidden_dim_pool.start > o.hidden_dim_pool.end ==> r.hidden_dim_pool.start == 4
        && r.hidden_dim_pool.end == 8
}

/// The builder keeps what was set, gives 32 rows to batches that have none, and
/// fills empty pools.
pub proof fn the_builder_keeps_what_was_set(o: EngineOptions, all: BuiltIns)
    ensures
        ({
            let r = filled(o, all);
            &&& o.train_batch_size > 0 || o.train_num_batches == 0 ==> r.train_batch_size
                == o.train_batch_size
            &&& o.train_batch_size == 0 && o.train_num_batches > 0 ==> r.train_batch_size == 32
            &&& o.test_batch_size > 0 || o.test_num_batches == 0 ==> r.test_batch_size
                == o.test_batch_size
            &&& o.test_batch_size == 0 && o.test_num_batches > 0 ==> r.test_batch_size == 32
            &&& o.training.num_epochs > 0 ==> r.training == o.training
            &&& o.training.num_epochs == 0 ==> r.training == (TrainingConfig {
                num_epochs: 1,
                ..o.training
            })
            &&& pools_are_kept(o, r, all)
            &&& r == (EngineOptions {
                train_batch_size: r.train_batch_size,
                test_batch_size: r.test_batch_size,
                hidden_dim_pool: r.hidden_dim_pool,
                combine_op_pool: r.combine_op_pool,
                activation_pool: r.activation_pool,
                standardize_op_pool: r.standardize_op_pool,
                training: r.training,
                ..o
            })
        }),
{
}

/// A probability is brought into the range from 0 to 1 and left alone inside it;
/// clamping twice changes nothing more.
pub proof fn clamping_brings_into_range(p: Score)
    requires
        !p.nan(),
    ensures
        0 <= clamped(p).key() <= 0x3f80_0000,
        0 <= p.key() <= 0x3f80_0000 ==> clamped(p) == p,
        p.key() < 0 ==> clamped(p).key() == 0,
        p.key() > 0x3f80_0000 ==> clamped(p).key() == 0x3f80_0000,
        clamped(clamped(p)) == clamped(p),
        never(p) <==> clamped(p).key() == 0,
{
}

} // verus!
