//! What a caller hands in to start a race, and what it must agree on.

use vstd::prelude::*;

use crate::config::{RaceConfig, RunMode, TopologyOptions};
use crate::score::{Direction, Score};
use crate::text::{decimal, join};

verus! {

/// The batch geometry a trainer asks for.
#[derive(Clone, Copy, Debug, PartialEq, Eq, Structural)]
pub struct StreamShape {
    /// Rows per training batch.
    pub batch_size: usize,
    /// Rows per evaluation batch.
    pub eval_batch_size: usize,
}

/// The batch size of a stream that nobody shaped.
pub const DEFAULT_BATCH_SIZE: usize = 16;

/// Held-out rows of a run that records none.
pub const DEFAULT_HELD_OUT_ROWS: usize = 256;

/// The bit pattern of the single-precision number nearest to 0.2, the share of
/// rows that is held out.
pub const DEFAULT_SPLIT_RATIO: u32 = 0x3e4c_cccd;

impl StreamShape {
    /// The default shape.
    pub fn none() -> (r: StreamShape)
        ensures
            r.batch_size == 16,
            r.eval_batch_size == 16,
    {
        StreamShape { batch_size: DEFAULT_BATCH_SIZE, eval_batch_size: DEFAULT_BATCH_SIZE }
    }

    pub fn with_batch_size(self, n: usize) -> (r: StreamShape)
        ensures
            r == (StreamShape { batch_size: n, ..self }),
    {
        StreamShape { batch_size: n, eval_batch_size: self.eval_batch_size }
    }

    pub fn with_eval_batch_size(self, n: usize) -> (r: StreamShape)
        ensures
            r == (StreamShape { eval_batch_size: n, ..self }),
    {
        StreamShape { batch_size: self.batch_size, eval_batch_size: n }
    }

    /// The same size for both batches.
    pub fn uniform(n: usize) -> (r: StreamShape)
        ensures
            r.batch_size == n,
            r.eval_batch_size == n,
    {
        StreamShape { batch_size: n, eval_batch_size: n }
    }
}

/// What kind of run a spec describes.
#[derive(Clone, Copy, Debug, PartialEq, Eq, Structural)]
pub enum SpecKind {
    /// The run learns from a dataset.
    Tabular,
    /// The run learns from an environment; there is no dataset.
    Rl,
}

/// Where the fitness of a net comes from.
#[derive(Clone, Copy, Debug, PartialEq, Eq, Structural)]
pub enum FitnessSource {
    /// Computed from predictions and targets.
    Computed,
    /// Reported by the trainer.
    Reported,
}

/// Why a spec cannot be run.
#[derive(Clone, Copy, Debug, PartialEq, Eq, Structural)]
pub enum SpecError {
    /// An environment spec whose config does not say so.
    ModeNotRl,
    /// A dataset spec whose config says otherwise.
    ModeNotTabular(RunMode),
    /// An environment spec with a fitness that needs a dataset.
    ComputedWithoutData,
    /// A dataset spec whose immigrants would skip training rows.
    FreshStartWithData,
}

/// What is wrong with a spec, if anything: the first complaint in this order.
pub open spec fn spec_error(
    kind: SpecKind,
    mode: RunMode,
    fitness: FitnessSource,
    fresh_start: bool,
) -> Option<SpecError> {
    if kind == SpecKind::Rl && mode != RunMode::Rl {
        Some(SpecError::ModeNotRl)
    } else if kind == SpecKind::Tabular && mode != RunMode::Tabular {
        Some(SpecError::ModeNotTabular(mode))
    } else if kind == SpecKind::Rl && fitness == FitnessSource::Computed {
        Some(SpecError::ComputedWithoutData)
    } else if kind == SpecKind::Tabular && fresh_start {
        Some(SpecError::FreshStartWithData)
    } else {
        None
    }
}

/// Checks that the spec, its config and its fitness agree on the kind of run.
pub fn validate_spec(kind: SpecKind, cfg: &RaceConfig, fitness: FitnessSource) -> (r: Result<
    (),
    SpecError,
>)
    ensures
        match spec_error(kind, cfg.mode, fitness, cfg.immigrant_fresh_start) {
            Some(e) => r == Err::<(), SpecError>(e),
            None => r == Ok::<(), SpecError>(()),
        },
{
    if kind == SpecKind::Rl && cfg.mode != RunMode::Rl {
        return Err(SpecError::ModeNotRl);
    }
    if kind == SpecKind::Tabular && cfg.mode != RunMode::Tabular {
        return Err(SpecError::ModeNotTabular(cfg.mode));
    }
    if kind == SpecKind::Rl && fitness == FitnessSource::Computed {
        return Err(SpecError::ComputedWithoutData);
    }
    if kind == SpecKind::Tabular && cfg.immigrant_fresh_start {
        return Err(SpecError::FreshStartWithData);
    }
    Ok(())
}

/// A spec that passes describes a run whose declared mode is its kind.
pub proof fn accepted_specs_agree(
    kind: SpecKind,
    mode: RunMode,
    fitness: FitnessSource,
    fresh_start: bool,
)
    requires
        spec_error(kind, mode, fitness, fresh_start) is None,
    ensures
        kind == SpecKind::Rl <==> mode == RunMode::Rl,
        kind == SpecKind::Tabular <==> mode == RunMode::Tabular,
        mode == RunMode::Rl ==> fitness == FitnessSource::Reported,
{
}

impl RunMode {
    /// The name of the mode.
    pub open spec fn name_text(self) -> Seq<char> {
        match self {
            RunMode::Tabular => "Tabular"@,
            RunMode::OneCImage => "OneCImage"@,
            RunMode::ThreeCImage => "ThreeCImage"@,
            RunMode::Nlp => "Nlp"@,
            RunMode::Rl => "Rl"@,
        }
    }

    pub fn name(self) -> (r: &'static str)
        ensures
            r@ == self.name_text(),
    {
        match self {
            RunMode::Tabular => "Tabular",
            RunMode::OneCImage => "OneCImage",
            RunMode::ThreeCImage => "ThreeCImage",
            RunMode::Nlp => "Nlp",
            RunMode::Rl => "Rl",
        }
    }
}

impl SpecError {
    /// The text of `message`.
    pub open spec fn message_text(self) -> Seq<char> {
        match self {
            SpecError::ModeNotRl => "RunSpec::rl requires .set_run_mode(RunMode::Rl) on the config — the declared mode and the spec variant must agree"@,
            SpecError::ModeNotTabular(mode) =>
            "RunSpec::tabular (a data_dir was given) requires .set_run_mode(RunMode::Tabular) — config declares "@
                + mode.name_text()
                + " with no way to serve it; Image/NLP spec variants are future work"@,
            SpecError::ComputedWithoutData =>
            "RL spec requires Fitness::reported(direction, label) — a Computed (pred, target) scorer has no dataset to score against. The trainer must supply the fitness value in StepReport."@,
            SpecError::FreshStartWithData =>
            "set_immigrant_fresh_start(true) requires RL mode: in tabular, an immigrant that skips catch-up misses shared training data, breaking fitness comparability with the population"@,
        }
    }

    /// What to tell the caller; it names the fix.
    pub fn message(&self) -> (r: String)
        ensures
            r@ == self.message_text(),
    {
        match *self {
            SpecError::ModeNotRl => String::from_str(
                "RunSpec::rl requires .set_run_mode(RunMode::Rl) on the config — the declared mode and the spec variant must agree",
            ),
            SpecError::ModeNotTabular(mode) => {
                let mut out = String::from_str(
                    "RunSpec::tabular (a data_dir was given) requires .set_run_mode(RunMode::Tabular) — config declares ",
                );
                out.append(mode.name());
                out.append(" with no way to serve it; Image/NLP spec variants are future work");
                out
            },
            SpecError::ComputedWithoutData => String::from_str(
                "RL spec requires Fitness::reported(direction, label) — a Computed (pred, target) scorer has no dataset to score against. The trainer must supply the fitness value in StepReport.",
            ),
            SpecError::FreshStartWithData => String::from_str(
                "set_immigrant_fresh_start(true) requires RL mode: in tabular, an immigrant that skips catch-up misses shared training data, breaking fitness comparability with the population",
            ),
        }
    }
}

// ── Dimensions ───────────────────────────────────────────────────────────

/// The complaint about an input dimension that the data contradicts.
pub open spec fn input_mismatch_text(user: usize, data: usize) -> Seq<char> {
    "config.topology_options.input_dim = "@ + crate::text::decimal_text(user as nat)
        + " but data_dir has "@ + crate::text::decimal_text(data as nat)
        + " features — set to None to infer, or fix either side"@
}

/// The complaint about an output dimension that the data contradicts.
pub open spec fn output_mismatch_text(user: usize, data: usize) -> Seq<char> {
    "config.topology_options.output_dim = "@ + crate::text::decimal_text(user as nat)
        + " but data_dir has "@ + crate::text::decimal_text(data as nat)
        + " target columns — set to None to infer, or fix either side"@
}

/// Everything that is wrong with the dimensions, input first. `data` holds the
/// number of features and of target columns, where there is a dataset.
pub open spec fn dim_complaints(opts: TopologyOptions, data: Option<(usize, usize)>) -> Seq<
    Seq<char>,
> {
    match data {
        Some(d) => {
            let a = if opts.input_dim is Some && opts.input_dim->0 != d.0 {
                seq![input_mismatch_text(opts.input_dim->0, d.0)]
            } else {
                Seq::empty()
            };
            let b = if opts.output_dim is Some && opts.output_dim->0 != d.1 {
                seq![output_mismatch_text(opts.output_dim->0, d.1)]
            } else {
                Seq::empty()
            };
            a + b
        },
        None => {
            let a = if opts.input_dim is None {
                seq!["RL spec has no dataset — set set_topology_input_dim(..) explicitly"@]
            } else {
                Seq::empty()
            };
            let b = if opts.output_dim is None {
                seq!["RL spec has no dataset — set set_topology_output_dim(..) explicitly"@]
            } else {
                Seq::empty()
            };
            a + b
        },
    }
}

/// The options with both dimensions set, from the data where there is any.
pub open spec fn bound_dims(opts: TopologyOptions, data: Option<(usize, usize)>) -> TopologyOptions {
    match data {
        Some(d) => TopologyOptions { input_dim: Some(d.0), output_dim: Some(d.1), ..opts },
        None => opts,
    }
}

/// Fills the dimensions in from the data, or complains about all that do not
/// fit. Without data both must be set.
pub fn bind_dims(opts: TopologyOptions, data: Option<(usize, usize)>) -> (r: Result<
    TopologyOptions,
    String,
>)
    ensures
        r is Ok <==> dim_complaints(opts, data).len() == 0,
        r matches Ok(o) ==> o == bound_dims(opts, data) && o.input_dim is Some
            && o.output_dim is Some,
        r matches Err(e) ==> e@ == crate::text::joined_text(dim_complaints(opts, data), "; "@),
{
    let mut errors: Vec<String> = Vec::new();
    let mut out = opts;
    match data {
        Some(d) => {
            match opts.input_dim {
                Some(user) => {
                    if user != d.0 {
                        let mut e = String::from_str("config.topology_options.input_dim = ");
                        e.append(decimal(user as u64).as_str());
                        e.append(" but data_dir has ");
                        e.append(decimal(d.0 as u64).as_str());
                        e.append(" features — set to None to infer, or fix either side");
                        errors.push(e);
                    }
                },
                None => {
                    out.input_dim = Some(d.0);
                },
            }
            match opts.output_dim {
                Some(user) => {
                    if user != d.1 {
                        let mut e = String::from_str("config.topology_options.output_dim = ");
                        e.append(decimal(user as u64).as_str());
                        e.append(" but data_dir has ");
                        e.append(decimal(d.1 as u64).as_str());
                        e.append(" target columns — set to None to infer, or fix either side");
                        errors.push(e);
                    }
                },
                None => {
                    out.output_dim = Some(d.1);
                },
            }
        },
        None => {
            if opts.input_dim.is_none() {
                errors.push(
                    String::from_str(
                        "RL spec has no dataset — set set_topology_input_dim(..) explicitly",
                    ),
                );
            }
            if opts.output_dim.is_none() {
                errors.push(
                    String::from_str(
                        "RL spec has no dataset — set set_topology_output_dim(..) explicitly",
                    ),
                );
            }
        },
    }
    assert(crate::text::texts(errors@) =~= dim_complaints(opts, data));
    if errors.len() > 0 {
        Err(join(&errors, "; "))
    } else {
        Ok(out)
    }
}

/// The dimensions of an accepted spec match its data.
pub proof fn bound_dims_match_data(opts: TopologyOptions, data: (usize, usize))
    requires
        dim_complaints(opts, Some(data)).len() == 0,
    ensures
        bound_dims(opts, Some(data)).input_dim == Some(data.0),
        bound_dims(opts, Some(data)).output_dim == Some(data.1),
        opts.input_dim is Some ==> opts.input_dim == Some(data.0),
        opts.output_dim is Some ==> opts.output_dim == Some(data.1),
{
}

// ── Stream geometry ──────────────────────────────────────────────────────

/// The geometry of the shared batch stream.
#[derive(Clone, Copy, Debug, PartialEq, Eq, Structural)]
pub struct StreamGeometry {
    pub batch_size: usize,
    pub eval_batch_size: usize,
    pub held_out_rows: usize,
    /// The share of rows that is held out.
    pub split_ratio: Score,
    pub checkpoint_every: usize,
}

/// The batch sizes come from the trainer, or are the default; the split comes
/// from the run's record, or is the default. Neither is up to the config.
pub fn stream_geometry(
    shape: Option<StreamShape>,
    recorded_ratio: Option<Score>,
    recorded_rows: Option<usize>,
    checkpoint_every: usize,
) -> (r: StreamGeometry)
    ensures
        r.batch_size == (match shape {
            Some(s) => s.batch_size,
            None => DEFAULT_BATCH_SIZE,
        }),
        r.eval_batch_size == (match shape {
            Some(s) => s.eval_batch_size,
            None => DEFAULT_BATCH_SIZE,
        }),
        r.held_out_rows == (match recorded_rows {
            Some(n) => n,
            None => DEFAULT_HELD_OUT_ROWS,
        }),
        r.split_ratio == (match recorded_ratio {
            Some(x) => x,
            None => (Score { bits: DEFAULT_SPLIT_RATIO }),
        }),
        r.checkpoint_every == checkpoint_every,
{
    let s = match shape {
        Some(s) => s,
        None => StreamShape::none(),
    };
    StreamGeometry {
        batch_size: s.batch_size,
        eval_batch_size: s.eval_batch_size,
        held_out_rows: match recorded_rows {
            Some(n) => n,
            None => DEFAULT_HELD_OUT_ROWS,
        },
        split_ratio: match recorded_ratio {
            Some(x) => x,
            None => Score { bits: DEFAULT_SPLIT_RATIO },
        },
        checkpoint_every,
    }
}

/// The run-level facts stamped into every net's record.
#[derive(Debug)]
pub struct RunMetaCtx {
    pub input_dim: usize,
    pub output_dim: usize,
    /// The training batch size; none where there is no shared stream.
    pub batch_size: Option<usize>,
    pub dropout_prob: Score,
    pub fitness_label: String,
    pub direction: String,
    pub pop_size: usize,
    pub run_seed: u64,
}

impl RunMetaCtx {
    /// The facts of a run; the direction is spelled in lower case.
    pub fn new(
        dims: (usize, usize),
        batch_size: Option<usize>,
        dropout_prob: Score,
        fitness_label: String,
        direction: Direction,
        pop_size: usize,
        run_seed: u64,
    ) -> (r: RunMetaCtx)
        ensures
            r.input_dim == dims.0,
            r.output_dim == dims.1,
            r.batch_size == batch_size,
            r.dropout_prob == dropout_prob,
            r.fitness_label == fitness_label,
            r.direction@ == (match direction {
                Direction::Minimize => "minimize"@,
                Direction::Maximize => "maximize"@,
            }),
            r.pop_size == pop_size,
            r.run_seed == run_seed,
    {
        RunMetaCtx {
            input_dim: dims.0,
            output_dim: dims.1,
            batch_size,
            dropout_prob,
            fitness_label,
            direction: String::from_str(
                match direction {
                    Direction::Minimize => "minimize",
                    Direction::Maximize => "maximize",
                },
            ),
            pop_size,
            run_seed,
        }
    }
}

/// The dimensions recorded in the run header: the data's, else the template's,
/// else 0.
pub fn header_dims(opts: TopologyOptions, data: Option<(usize, usize)>) -> (r: (usize, usize))
    ensures
        r == (match data {
            Some(d) => d,
            None => (
                match opts.input_dim {
                    Some(n) => n,
                    None => 0,
                },
                match opts.output_dim {
                    Some(n) => n,
                    None => 0,
                },
            ),
        }),
{
    match data {
        Some(d) => d,
        None => (
            match opts.input_dim {
                Some(n) => n,
                None => 0,
            },
            match opts.output_dim {
                Some(n) => n,
                None => 0,
            },
        ),
    }
}

/// A spec is accepted exactly if its config declares its own kind, an environment
/// spec has its fitness reported, and a dataset spec lets no immigrant skip
/// training rows.
pub proof fn a_spec_is_accepted(
    kind: SpecKind,
    mode: RunMode,
    fitness: FitnessSource,
    fresh_start: bool,
)
    ensures
        spec_error(kind, mode, fitness, fresh_start) is None <==> match kind {
            SpecKind::Rl => mode == RunMode::Rl && fitness == FitnessSource::Reported,
            SpecKind::Tabular => mode == RunMode::Tabular && !fresh_start,
        },
        spec_error(kind, mode, fitness, fresh_start) matches Some(e) ==> match e {
            SpecError::ModeNotRl => kind == SpecKind::Rl && mode != RunMode::Rl,
            SpecError::ModeNotTabular(m) => kind == SpecKind::Tabular && m == mode && mode
                != RunMode::Tabular,
            SpecError::ComputedWithoutData => kind == SpecKind::Rl && fitness
                == FitnessSource::Computed,
            SpecError::FreshStartWithData => kind == SpecKind::Tabular && fresh_start,
        },
{
}

/// Dimensions are accepted exactly if nothing contradicts the data, and both are
/// set where there is none; there is one complaint for each that is not.
pub proof fn dimensions_are_accepted(opts: TopologyOptions, data: Option<(usize, usize)>)
    ensures
        ({
            let (input, output) = match data {
                Some(d) => (
                    opts.input_dim is None || opts.input_dim == Some(d.0),
                    opts.output_dim is None || opts.output_dim == Some(d.1),
                ),
                None => (opts.input_dim is Some, opts.output_dim is Some),
            };
            let n = |ok: bool| if ok { 0int } else { 1int };
            &&& dim_complaints(opts, data).len() == n(input) + n(output)
            &&& input && output ==> {
                let o = bound_dims(opts, data);
                &&& o.input_dim is Some && o.output_dim is Some
                &&& opts.input_dim is Some ==> o.input_dim == opts.input_dim
                &&& opts.output_dim is Some ==> o.output_dim == opts.output_dim
                &&& o == (TopologyOptions {
                    input_dim: o.input_dim,
                    output_dim: o.output_dim,
                    ..opts
                })
            }
        }),
{
}

} // verus!
