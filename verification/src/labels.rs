//! The vocabularies users type: log levels, operator names, node functions.

use vstd::prelude::*;

use crate::text::same_text;

verus! {

// ── Trimming and ASCII case ──────────────────────────────────────────────

/// The characters with the Unicode property White_Space.
pub open spec fn white_space(c: char) -> bool {
    ||| 9 <= c as u32 <= 13
    ||| c as u32 == 0x20
    ||| c as u32 == 0x85
    ||| c as u32 == 0xa0
    ||| c as u32 == 0x1680
    ||| 0x2000 <= c as u32 <= 0x200a
    ||| c as u32 == 0x2028
    ||| c as u32 == 0x2029
    ||| c as u32 == 0x202f
    ||| c as u32 == 0x205f
    ||| c as u32 == 0x3000
}

fn is_white_space(c: char) -> (r: bool)
    ensures
        r == white_space(c),
{
    let u: u32 = c as u32;
    (9 <= u && u <= 13) || u == 0x20 || u == 0x85 || u == 0xa0 || u == 0x1680 || (0x2000 <= u && u
        <= 0x200a) || u == 0x2028 || u == 0x2029 || u == 0x202f || u == 0x205f || u == 0x3000
}

/// `s` without leading white space.
pub open spec fn trimmed_start(s: Seq<char>) -> Seq<char>
    decreases s.len(),
{
    if s.len() > 0 && white_space(s[0]) {
        trimmed_start(s.skip(1))
    } else {
        s
    }
}

/// `s` without trailing white space.
pub open spec fn trimmed_end(s: Seq<char>) -> Seq<char>
    decreases s.len(),
{
    if s.len() > 0 && white_space(s.last()) {
        trimmed_end(s.drop_last())
    } else {
        s
    }
}

/// `s` without leading and trailing white space.
pub open spec fn trimmed(s: Seq<char>) -> Seq<char> {
    trimmed_end(trimmed_start(s))
}

/// An ASCII capital becomes its small letter; every other character stays.
pub open spec fn ascii_lower(c: char) -> char {
    if 'A' <= c <= 'Z' {
        (c as u32 + 32) as char
    } else {
        c
    }
}

/// `s` with ASCII capitals made small.
pub open spec fn ascii_lowered(s: Seq<char>) -> Seq<char> {
    s.map_values(|c: char| ascii_lower(c))
}

/// Whether `c` and the small letter `l` are the same up to ASCII case.
fn same_up_to_case(c: char, l: char) -> (r: bool)
    ensures
        r == (ascii_lower(c) == l),
{
    if 'A' <= c && c <= 'Z' {
        c as u32 + 32 == l as u32
    } else {
        c == l
    }
}

/// The bounds of `trimmed(s)` within `s`.
fn trim_bounds(s: &str) -> (r: (usize, usize))
    ensures
        r.0 <= r.1 <= s@.len(),
        s@.subrange(r.0 as int, r.1 as int) == trimmed(s@),
{
    let n: usize = s.unicode_len();
    let mut start: usize = 0;
    assert(s@.skip(0) =~= s@);
    while start < n && is_white_space(s.get_char(start))
        invariant
            start <= n,
            n == s@.len(),
            trimmed_start(s@.skip(start as int)) == trimmed_start(s@),
        decreases n - start,
    {
        assert(s@.skip(start as int).skip(1) =~= s@.skip(start + 1));
        start = start + 1;
    }
    assert(trimmed_start(s@) == s@.skip(start as int));
    let mut end: usize = n;
    assert(s@.subrange(start as int, n as int) =~= s@.skip(start as int));
    while end > start && is_white_space(s.get_char(end - 1))
        invariant
            start <= end <= n,
            n == s@.len(),
            trimmed_end(s@.subrange(start as int, end as int)) == trimmed(s@),
        decreases end,
    {
        assert(s@.subrange(start as int, end as int).drop_last() =~= s@.subrange(
            start as int,
            end - 1,
        ));
        end = end - 1;
    }
    (start, end)
}

/// Whether the part of `s` from `start` to `end` is `label` up to ASCII case;
/// `label` holds no capitals.
fn part_is(s: &str, start: usize, end: usize, label: &str) -> (r: bool)
    requires
        start <= end <= s@.len(),
    ensures
        r == (ascii_lowered(s@.subrange(start as int, end as int)) == label@),
{
    let ghost part = s@.subrange(start as int, end as int);
    let n: usize = label.unicode_len();
    if n != end - start {
        assert(ascii_lowered(part).len() != label@.len());
        return false;
    }
    let mut i: usize = 0;
    while i < n
        invariant
            i <= n,
            n == label@.len(),
            n == end - start,
            end <= s@.len(),
            part == s@.subrange(start as int, end as int),
            forall|j: int| 0 <= j < i ==> #[trigger] ascii_lowered(part)[j] == label@[j],
        decreases n - i,
    {
        if !same_up_to_case(s.get_char(start + i), label.get_char(i)) {
            assert(ascii_lowered(part)[i as int] != label@[i as int]);
            return false;
        }
        assert(ascii_lowered(part)[i as int] == label@[i as int]);
        i = i + 1;
    }
    assert(ascii_lowered(part) =~= label@);
    true
}

// ── Log levels ───────────────────────────────────────────────────────────

/// Per-step log verbosity.
#[derive(Clone, Copy, Debug, PartialEq, Eq, Structural)]
pub enum LogLevel {
    /// Silent per step: only the start line and the stop reason.
    Silent,
    /// One compact line per step.
    Summ,
    /// A framed table per step.
    Minimal,
}

impl Default for LogLevel {
    fn default() -> (r: LogLevel)
        ensures
            r == LogLevel::Summ,
    {
        LogLevel::Summ
    }
}

/// The level a lower-case name stands for.
pub open spec fn level_named(name: Seq<char>) -> Option<LogLevel> {
    if name == "none"@ || name == "off"@ || name == "silent"@ {
        Some(LogLevel::Silent)
    } else if name == "summ"@ || name == "summary"@ {
        Some(LogLevel::Summ)
    } else if name == "minimal"@ {
        Some(LogLevel::Minimal)
    } else {
        None
    }
}

impl LogLevel {
    /// Reads a level name, ignoring ASCII case and surrounding white space.
    pub fn parse(name: &str) -> (r: Option<LogLevel>)
        ensures
            r == level_named(ascii_lowered(trimmed(name@))),
    {
        let (start, end) = trim_bounds(name);
        if part_is(name, start, end, "none") || part_is(name, start, end, "off") || part_is(
            name,
            start,
            end,
            "silent",
        ) {
            Some(LogLevel::Silent)
        } else if part_is(name, start, end, "summ") || part_is(name, start, end, "summary") {
            Some(LogLevel::Summ)
        } else if part_is(name, start, end, "minimal") {
            Some(LogLevel::Minimal)
        } else {
            None
        }
    }

    /// The logger verbosity under which the lines of this level are visible.
    pub fn env_filter(self) -> (r: &'static str)
        ensures
            r@ == (if self == LogLevel::Summ {
                "info"@
            } else {
                "warn"@
            }),
    {
        match self {
            LogLevel::Summ => "info",
            LogLevel::Minimal | LogLevel::Silent => "warn",
        }
    }

    /// Whether per-step detail lines are printed: at every level but the
    /// silent one and the table.
    pub fn verbose_detail(self) -> (r: bool)
        ensures
            r == (self == LogLevel::Summ),
    {
        match self {
            LogLevel::Summ => true,
            LogLevel::Minimal | LogLevel::Silent => false,
        }
    }
}

// ── Unicode lower case ───────────────────────────────────────────────────

/// What `str::to_lowercase` returns: the Unicode lower-case form of a text.
pub uninterp spec fn lowercase_text(s: Seq<char>) -> Seq<char>;

/// Calls `str::to_lowercase`. The result is the lower-case form of `s`, which
/// depends on nothing but `s`; the Unicode case tables behind it are not
/// spelled out.
#[verifier::external_body]
fn lowercase(s: &str) -> (r: String)
    ensures
        r@ == lowercase_text(s@),
{
    s.to_lowercase()
}

/// `'label'` behind `what`, and `tail` behind both: the text of a complaint
/// about an unknown label.
fn unknown(what: &str, label: &str, tail: &str) -> (r: String)
    ensures
        r@ == what@ + " '"@ + label@ + "'"@ + tail@,
{
    let mut out = String::from_str(what);
    out.append(" '");
    out.append(label);
    out.append("'");
    out.append(tail);
    out
}

/// The complaint about an unknown label of the given kind.
pub open spec fn unknown_text(what: Seq<char>, label: Seq<char>, tail: Seq<char>) -> Seq<char> {
    what + " '"@ + label + "'"@ + tail
}

// ── Crossover operators ──────────────────────────────────────────────────

/// The two-parent crossover operators.
#[derive(Clone, Copy, Debug, PartialEq, Eq, Structural)]
pub enum CrossoverOp {
    /// Swap the hidden-node tail after a matching pivot node.
    OnePoint,
    /// Per-node independent swap (requires equal hidden-node counts).
    Uniform,
}

/// The operator a lower-case label stands for.
pub open spec fn crossover_op_named(label: Seq<char>) -> Option<CrossoverOp> {
    if label == "one_point"@ || label == "onepoint"@ {
        Some(CrossoverOp::OnePoint)
    } else if label == "uniform"@ {
        Some(CrossoverOp::Uniform)
    } else {
        None
    }
}

impl CrossoverOp {
    /// How many parents the operator combines.
    pub fn required_parents(&self) -> (r: usize)
        ensures
            r == 2,
    {
        match self {
            CrossoverOp::OnePoint | CrossoverOp::Uniform => 2,
        }
    }

    /// The label under which the operator is configured and logged.
    pub open spec fn label_text(self) -> Seq<char> {
        match self {
            CrossoverOp::OnePoint => "one_point"@,
            CrossoverOp::Uniform => "uniform"@,
        }
    }

    pub fn label(&self) -> (r: &'static str)
        ensures
            r@ == self.label_text(),
    {
        match self {
            CrossoverOp::OnePoint => "one_point",
            CrossoverOp::Uniform => "uniform",
        }
    }

    /// The origin recorded in the lineage of a child of this operator.
    pub open spec fn origin_text(self) -> Seq<char> {
        match self {
            CrossoverOp::OnePoint => "crossover-one-point"@,
            CrossoverOp::Uniform => "crossover-uniform"@,
        }
    }

    pub fn origin(&self) -> (r: &'static str)
        ensures
            r@ == self.origin_text(),
    {
        match self {
            CrossoverOp::OnePoint => "crossover-one-point",
            CrossoverOp::Uniform => "crossover-uniform",
        }
    }
}

/// The operator with the given lower-case label, or the complaint about it.
pub fn crossover_op_of(label: &str) -> (r: Result<CrossoverOp, String>)
    ensures
        match r {
            Ok(op) => crossover_op_named(label@) == Some(op),
            Err(e) => crossover_op_named(label@) is None && e@ == unknown_text(
                "unknown crossover op"@,
                label@,
                " (use \"one_point\" or \"uniform\")"@,
            ),
        },
{
    if same_text(label, "one_point") || same_text(label, "onepoint") {
        Ok(CrossoverOp::OnePoint)
    } else if same_text(label, "uniform") {
        Ok(CrossoverOp::Uniform)
    } else {
        Err(unknown("unknown crossover op", label, " (use \"one_point\" or \"uniform\")"))
    }
}

pub fn parse_crossover_op(s: &str) -> (r: Result<CrossoverOp, String>)
    ensures
        match r {
            Ok(op) => crossover_op_named(lowercase_text(s@)) == Some(op),
            Err(e) => crossover_op_named(lowercase_text(s@)) is None && e@ == unknown_text(
                "unknown crossover op"@,
                lowercase_text(s@),
                " (use \"one_point\" or \"uniform\")"@,
            ),
        },
{
    let label = lowercase(s);
    crossover_op_of(label.as_str())
}

// ── Activations ──────────────────────────────────────────────────────────

/// The non-linearities a node can apply.
#[derive(Clone, Copy, Debug, PartialEq, Eq, Structural)]
pub enum Activation {
    Identity,
    ReLU,
    GeLU,
    SiLU,
    SELU,
    Tanh,
    Sigmoid,
    Mish,
    LeakyReLU,
    ELU,
    GeluTanh,
    Softplus,
    HardSwish,
    HardSigmoid,
    Sin,
    Cos,
    Softmax,
    LogSoftmax,
}

impl Activation {
    /// The label under which the activation is configured and displayed.
    pub open spec fn label_text(self) -> Seq<char> {
        match self {
            Activation::Identity => "identity"@,
            Activation::ReLU => "relu"@,
            Activation::GeLU => "gelu"@,
            Activation::SiLU => "silu"@,
            Activation::SELU => "selu"@,
            Activation::Tanh => "tanh"@,
            Activation::Sigmoid => "sigmoid"@,
            Activation::Mish => "mish"@,
            Activation::LeakyReLU => "leaky_relu"@,
            Activation::ELU => "elu"@,
            Activation::GeluTanh => "gelu_tanh"@,
            Activation::Softplus => "softplus"@,
            Activation::HardSwish => "hardswish"@,
            Activation::HardSigmoid => "hardsigmoid"@,
            Activation::Sin => "sin"@,
            Activation::Cos => "cos"@,
            Activation::Softmax => "softmax"@,
            Activation::LogSoftmax => "log_softmax"@,
        }
    }

    pub fn label(&self) -> (r: &'static str)
        ensures
            r@ == self.label_text(),
    {
        match self {
            Activation::Identity => "identity",
            Activation::ReLU => "relu",
            Activation::GeLU => "gelu",
            Activation::SiLU => "silu",
            Activation::SELU => "selu",
            Activation::Tanh => "tanh",
            Activation::Sigmoid => "sigmoid",
            Activation::Mish => "mish",
            Activation::LeakyReLU => "leaky_relu",
            Activation::ELU => "elu",
            Activation::GeluTanh => "gelu_tanh",
            Activation::Softplus => "softplus",
            Activation::HardSwish => "hardswish",
            Activation::HardSigmoid => "hardsigmoid",
            Activation::Sin => "sin",
            Activation::Cos => "cos",
            Activation::Softmax => "softmax",
            Activation::LogSoftmax => "log_softmax",
        }
    }

    /// Whether `label` names this activation: its own label, or the alias
    /// `logsoftmax`.
    pub open spec fn named(self, label: Seq<char>) -> bool {
        ||| label == self.label_text()
        ||| self == Activation::LogSoftmax && label == "logsoftmax"@
    }
}

/// The activation with the given lower-case label, or the complaint about it.
pub fn activation_of(label: &str) -> (r: Result<Activation, String>)
    ensures
        match r {
            Ok(a) => a.named(label@),
            Err(e) => (forall|a: Activation| !a.named(label@)) && e@ == unknown_text(
                "unknown activation"@,
                label@,
                ""@,
            ),
        },
{
    if same_text(label, "identity") {
        Ok(Activation::Identity)
    } else if same_text(label, "relu") {
        Ok(Activation::ReLU)
    } else if same_text(label, "gelu") {
        Ok(Activation::GeLU)
    } else if same_text(label, "silu") {
        Ok(Activation::SiLU)
    } else if same_text(label, "selu") {
        Ok(Activation::SELU)
    } else if same_text(label, "tanh") {
        Ok(Activation::Tanh)
    } else if same_text(label, "sigmoid") {
        Ok(Activation::Sigmoid)
    } else if same_text(label, "mish") {
        Ok(Activation::Mish)
    } else if same_text(label, "leaky_relu") {
        Ok(Activation::LeakyReLU)
    } else if same_text(label, "elu") {
        Ok(Activation::ELU)
    } else if same_text(label, "gelu_tanh") {
        Ok(Activation::GeluTanh)
    } else if same_text(label, "softplus") {
        Ok(Activation::Softplus)
    } else if same_text(label, "hardswish") {
        Ok(Activation::HardSwish)
    } else if same_text(label, "hardsigmoid") {
        Ok(Activation::HardSigmoid)
    } else if same_text(label, "sin") {
        Ok(Activation::Sin)
    } else if same_text(label, "cos") {
        Ok(Activation::Cos)
    } else if same_text(label, "softmax") {
        Ok(Activation::Softmax)
    } else if same_text(label, "log_softmax") || same_text(label, "logsoftmax") {
        Ok(Activation::LogSoftmax)
    } else {
        Err(unknown("unknown activation", label, ""))
    }
}

/// Reads an activation label in any case.
pub fn parse_activation(s: &str) -> (r: Result<Activation, String>)
    ensures
        match r {
            Ok(a) => a.named(lowercase_text(s@)),
            Err(e) => (forall|a: Activation| !a.named(lowercase_text(s@))) && e@ == unknown_text(
                "unknown activation"@,
                lowercase_text(s@),
                ""@,
            ),
        },
{
    let label = lowercase(s);
    activation_of(label.as_str())
}

/// No two activations share a name, so a label picks at most one.
pub proof fn activation_labels_are_distinct(a: Activation, b: Activation, label: Seq<char>)
    requires
        a.named(label),
        b.named(label),
    ensures
        a == b,
{
    reveal_strlit("identity");
    reveal_strlit("relu");
    reveal_strlit("gelu");
    reveal_strlit("silu");
    reveal_strlit("selu");
    reveal_strlit("tanh");
    reveal_strlit("sigmoid");
    reveal_strlit("mish");
    reveal_strlit("leaky_relu");
    reveal_strlit("elu");
    reveal_strlit("gelu_tanh");
    reveal_strlit("softplus");
    reveal_strlit("hardswish");
    reveal_strlit("hardsigmoid");
    reveal_strlit("sin");
    reveal_strlit("cos");
    reveal_strlit("softmax");
    reveal_strlit("log_softmax");
    reveal_strlit("logsoftmax");
    let head = label.take(3);
    assert(label.take(label.len() as int) =~= label);
    assert(head[0] == label[0] && head[1] == label[1] && head[2] == label[2]);
}

// ── Combine operators ────────────────────────────────────────────────────

/// How a node merges its incoming wires.
#[derive(Clone, Copy, Debug, PartialEq, Eq, Structural)]
pub enum CombineOp {
    Add,
    Mean,
    Multiply,
    Subtract,
    Divide,
    Max,
    Min,
}

impl CombineOp {
    /// Whether `label` names this operator.
    pub open spec fn named(self, label: Seq<char>) -> bool {
        match self {
            CombineOp::Add => label == "add"@,
            CombineOp::Mean => label == "mean"@,
            CombineOp::Multiply => label == "mul"@ || label == "multiply"@,
            CombineOp::Subtract => label == "sub"@ || label == "subtract"@,
            CombineOp::Divide => label == "div"@ || label == "divide"@,
            CombineOp::Max => label == "max"@,
            CombineOp::Min => label == "min"@,
        }
    }
}

/// The combine operator with the given lower-case label, or the complaint.
pub fn combine_of(label: &str) -> (r: Result<CombineOp, String>)
    ensures
        match r {
            Ok(op) => op.named(label@),
            Err(e) => (forall|op: CombineOp| !op.named(label@)) && e@ == unknown_text(
                "unknown combine op"@,
                label@,
                ""@,
            ),
        },
{
    if same_text(label, "add") {
        Ok(CombineOp::Add)
    } else if same_text(label, "mean") {
        Ok(CombineOp::Mean)
    } else if same_text(label, "mul") || same_text(label, "multiply") {
        Ok(CombineOp::Multiply)
    } else if same_text(label, "sub") || same_text(label, "subtract") {
        Ok(CombineOp::Subtract)
    } else if same_text(label, "div") || same_text(label, "divide") {
        Ok(CombineOp::Divide)
    } else if same_text(label, "max") {
        Ok(CombineOp::Max)
    } else if same_text(label, "min") {
        Ok(CombineOp::Min)
    } else {
        Err(unknown("unknown combine op", label, ""))
    }
}

/// Reads a combine-operator label in any case.
pub fn parse_combine(s: &str) -> (r: Result<CombineOp, String>)
    ensures
        match r {
            Ok(op) => op.named(lowercase_text(s@)),
            Err(e) => (forall|op: CombineOp| !op.named(lowercase_text(s@))) && e@ == unknown_text(
                "unknown combine op"@,
                lowercase_text(s@),
                ""@,
            ),
        },
{
    let label = lowercase(s);
    combine_of(label.as_str())
}

/// A label picks at most one combine operator.
pub proof fn combine_labels_are_distinct(a: CombineOp, b: CombineOp, label: Seq<char>)
    requires
        a.named(label),
        b.named(label),
    ensures
        a == b,
{
    reveal_strlit("add");
    reveal_strlit("mean");
    reveal_strlit("mul");
    reveal_strlit("multiply");
    reveal_strlit("sub");
    reveal_strlit("subtract");
    reveal_strlit("div");
    reveal_strlit("divide");
    reveal_strlit("max");
    reveal_strlit("min");
    let head = label.take(3);
    assert(label.take(label.len() as int) =~= label);
    assert(head[0] == label[0] && head[1] == label[1] && head[2] == label[2]);
}

// ── Standardize operators ────────────────────────────────────────────────

/// How a node normalizes what it combined.
#[derive(Clone, Copy, Debug, PartialEq, Eq, Structural)]
pub enum StandardizeOp {
    Identity,
    LayerNorm,
    RmsNorm,
    InstanceNorm,
}

impl StandardizeOp {
    /// Whether `label` names this operator.
    pub open spec fn named(self, label: Seq<char>) -> bool {
        match self {
            StandardizeOp::Identity => label == "identity"@,
            StandardizeOp::LayerNorm => label == "layernorm"@,
            StandardizeOp::RmsNorm => label == "rmsnorm"@ || label == "rms_norm"@,
            StandardizeOp::InstanceNorm => label == "instancenorm"@ || label == "instance_norm"@,
        }
    }
}

/// The standardize operator with the given lower-case label, or the complaint.
pub fn standardize_of(label: &str) -> (r: Result<StandardizeOp, String>)
    ensures
        match r {
            Ok(op) => op.named(label@),
            Err(e) => (forall|op: StandardizeOp| !op.named(label@)) && e@ == unknown_text(
                "unknown standardize op"@,
                label@,
                ""@,
            ),
        },
{
    if same_text(label, "identity") {
        Ok(StandardizeOp::Identity)
    } else if same_text(label, "layernorm") {
        Ok(StandardizeOp::LayerNorm)
    } else if same_text(label, "rmsnorm") || same_text(label, "rms_norm") {
        Ok(StandardizeOp::RmsNorm)
    } else if same_text(label, "instancenorm") || same_text(label, "instance_norm") {
        Ok(StandardizeOp::InstanceNorm)
    } else {
        Err(unknown("unknown standardize op", label, ""))
    }
}

/// Reads a standardize-operator label in any case.
pub fn parse_standardize(s: &str) -> (r: Result<StandardizeOp, String>)
    ensures
        match r {
            Ok(op) => op.named(lowercase_text(s@)),
            Err(e) => (forall|op: StandardizeOp| !op.named(lowercase_text(s@))) && e@
                == unknown_text("unknown standardize op"@, lowercase_text(s@), ""@),
        },
{
    let label = lowercase(s);
    standardize_of(label.as_str())
}

/// A label picks at most one standardize operator.
pub proof fn standardize_labels_are_distinct(a: StandardizeOp, b: StandardizeOp, label: Seq<char>)
    requires
        a.named(label),
        b.named(label),
    ensures
        a == b,
{
    reveal_strlit("identity");
    reveal_strlit("layernorm");
    reveal_strlit("rmsnorm");
    reveal_strlit("rms_norm");
    reveal_strlit("instancenorm");
    reveal_strlit("instance_norm");
    let head = label.take(3);
    assert(label.take(label.len() as int) =~= label);
    assert(head[0] == label[0] && head[1] == label[1] && head[2] == label[2]);
}

/// A trimmed text lies in one piece inside the text, with nothing but white
/// space on either side of it, and begins and ends with something else.
pub proof fn trimming_takes_white_space_off(s: Seq<char>)
    ensures
        ({
            let t = trimmed(s);
            &&& t.len() > 0 ==> !white_space(t[0]) && !white_space(t.last())
            &&& exists|a: int, b: int|
                0 <= a <= b <= s.len() && t == #[trigger] s.subrange(a, b) && (forall|i: int|
                    0 <= i < a || b <= i < s.len() ==> white_space(#[trigger] s[i]))
        }),
{
    let front = trimmed_start(s);
    trimming_from_the_start(s);
    trimming_from_the_end(front);
    let a = s.len() - front.len();
    let b = a + trimmed(s).len();
    assert(trimmed(s) =~= s.subrange(a, b));
    assert forall|i: int| 0 <= i < a || b <= i < s.len() implies white_space(#[trigger] s[i]) by {
        if b <= i {
            assert(s[i] == front[i - a]);
        }
    }
    if trimmed(s).len() > 0 {
        assert(trimmed(s)[0] == front[0]);
    }
}

proof fn trimming_from_the_start(s: Seq<char>)
    ensures
        trimmed_start(s).len() <= s.len(),
        trimmed_start(s) == s.skip(s.len() - trimmed_start(s).len()),
        trimmed_start(s).len() > 0 ==> !white_space(trimmed_start(s)[0]),
        forall|i: int| 0 <= i < s.len() - trimmed_start(s).len() ==> white_space(#[trigger] s[i]),
    decreases s.len(),
{
    if s.len() > 0 && white_space(s[0]) {
        let rest = s.skip(1);
        trimming_from_the_start(rest);
        assert(trimmed_start(s) =~= s.skip(s.len() - trimmed_start(s).len()));
        assert forall|i: int| 0 <= i < s.len() - trimmed_start(s).len() implies white_space(
            #[trigger] s[i],
        ) by {
            if i > 0 {
                assert(s[i] == rest[i - 1]);
            }
        }
    } else {
        assert(s.skip(0) =~= s);
    }
}

proof fn trimming_from_the_end(s: Seq<char>)
    ensures
        trimmed_end(s).len() <= s.len(),
        trimmed_end(s) == s.take(trimmed_end(s).len() as int),
        trimmed_end(s).len() > 0 ==> !white_space(trimmed_end(s).last()),
        forall|i: int| trimmed_end(s).len() <= i < s.len() ==> white_space(#[trigger] s[i]),
    decreases s.len(),
{
    if s.len() > 0 && white_space(s.last()) {
        let rest = s.drop_last();
        trimming_from_the_end(rest);
        assert(trimmed_end(s) =~= s.take(trimmed_end(s).len() as int));
        assert forall|i: int| trimmed_end(s).len() <= i < s.len() implies white_space(
            #[trigger] s[i],
        ) by {
            if i < rest.len() {
                assert(s[i] == rest[i]);
            }
        }
    } else {
        assert(s.take(s.len() as int) =~= s);
    }
}

/// Every crossover operation is found under its own label, and under no other's.
pub proof fn crossover_labels_read_back(op: CrossoverOp, label: Seq<char>)
    ensures
        crossover_op_named(op.label_text()) == Some(op),
        crossover_op_named(label) is Some ==> (label == "one_point"@ || label == "onepoint"@
            || label == "uniform"@),
        crossover_op_named("onepoint"@) == Some(CrossoverOp::OnePoint),
{
    reveal_strlit("one_point");
    reveal_strlit("onepoint");
    reveal_strlit("uniform");
    assert("one_point"@.len() == 9 && "uniform"@.len() == 7 && "onepoint"@.len() == 8);
}

/// Lowering makes every ASCII capital small and touches nothing else; a lowered
/// text stays as it is.
pub proof fn lowering_touches_capitals_only(s: Seq<char>, i: int)
    ensures
        ascii_lowered(s).len() == s.len(),
        0 <= i < s.len() ==> {
            let c = ascii_lowered(s)[i];
            &&& !('A' <= c <= 'Z')
            &&& !('A' <= s[i] <= 'Z') ==> c == s[i]
            &&& 'A' <= s[i] <= 'Z' ==> c as u32 == s[i] as u32 + 32
        },
        ascii_lowered(ascii_lowered(s)) == ascii_lowered(s),
{
    assert forall|c: char| 'A' <= c <= 'Z' implies #[trigger] ascii_lower(c) as u32 == c as u32 + 32
        by {}
    assert(ascii_lowered(ascii_lowered(s)) =~= ascii_lowered(s));
}

/// The names of the levels: three for silence, two for the summary, one for the
/// table, and no others.
pub proof fn levels_have_their_names(name: Seq<char>)
    ensures
        level_named("none"@) == Some(LogLevel::Silent),
        level_named("off"@) == Some(LogLevel::Silent),
        level_named("silent"@) == Some(LogLevel::Silent),
        level_named("summ"@) == Some(LogLevel::Summ),
        level_named("summary"@) == Some(LogLevel::Summ),
        level_named("minimal"@) == Some(LogLevel::Minimal),
        level_named(name) is Some <==> name == "none"@ || name == "off"@ || name == "silent"@ || name
            == "summ"@ || name == "summary"@ || name == "minimal"@,
{
    reveal_strlit("none");
    reveal_strlit("off");
    reveal_strlit("silent");
    reveal_strlit("summ");
    reveal_strlit("summary");
    reveal_strlit("minimal");
    assert("none"@[0] == 'n' && "summ"@[0] == 's' && "off"@.len() == 3);
    assert("silent"@.len() == 6 && "summary"@.len() == 7 && "minimal"@.len() == 7);
    assert("summary"@[0] == 's' && "minimal"@[0] == 'm' && "none"@.len() == 4 && "summ"@.len() == 4);
}

} // verus!
