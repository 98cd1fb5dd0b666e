//! Fitness values and the direction in which they improve.
//!
//! A fitness is an IEEE-754 single-precision number. The library never does
//! arithmetic on one: it only orders them, and the order is decided by the bit
//! pattern alone. `Score` carries that bit pattern.

use std::cmp::Ordering;
use vstd::prelude::*;

verus! {

/// The sign bit of a single-precision number.
pub const SIGN_BIT: u32 = 0x8000_0000;

/// The magnitude of infinity; every larger magnitude is a NaN.
pub const INFINITE_MAGNITUDE: u32 = 0x7f80_0000;

/// A single-precision number, held as its bit pattern.
#[derive(Clone, Copy, Debug, PartialEq, Eq, Structural)]
pub struct Score {
    pub bits: u32,
}

impl Score {
    /// The bit pattern without its sign bit.
    pub open spec fn magnitude(self) -> int {
        if self.bits >= SIGN_BIT {
            self.bits - SIGN_BIT
        } else {
            self.bits as int
        }
    }

    /// Whether the bit pattern is a NaN.
    pub open spec fn nan(self) -> bool {
        self.magnitude() > INFINITE_MAGNITUDE
    }

    /// The position of a number that is not a NaN on the number line: the
    /// magnitude, negated for negative numbers. Both zeros sit at 0.
    pub open spec fn key(self) -> int {
        if self.bits >= SIGN_BIT {
            -self.magnitude()
        } else {
            self.magnitude()
        }
    }

    /// `self < other` as IEEE-754 defines it: false as soon as one is a NaN.
    pub open spec fn below(self, other: Score) -> bool {
        !self.nan() && !other.nan() && self.key() < other.key()
    }

    /// The number +0.
    pub fn zero() -> (r: Score)
        ensures
            r.bits == 0,
            r.key() == 0,
            !r.nan(),
    {
        Score { bits: 0 }
    }

    /// The number whose bit pattern is `bits`.
    pub fn from_bits(bits: u32) -> (r: Score)
        ensures
            r.bits == bits,
    {
        Score { bits }
    }

    pub fn is_nan(self) -> (r: bool)
        ensures
            r == self.nan(),
    {
        let magnitude: u32 = if self.bits >= SIGN_BIT {
            self.bits - SIGN_BIT
        } else {
            self.bits
        };
        magnitude > INFINITE_MAGNITUDE
    }

    /// The position on the number line, for a number that is not a NaN.
    fn line_position(self) -> (r: i64)
        ensures
            r == self.key(),
    {
        if self.bits >= SIGN_BIT {
            -((self.bits - SIGN_BIT) as i64)
        } else {
            self.bits as i64
        }
    }

    /// `self < other` as IEEE-754 defines it.
    pub fn less_than(self, other: Score) -> (r: bool)
        ensures
            r == self.below(other),
    {
        !self.is_nan() && !other.is_nan() && self.line_position() < other.line_position()
    }
}

/// Whether a roll fires at a probability: unless the number drawn reaches it.
pub open spec fn fires(roll: Score, probability: Score) -> bool {
    !(!roll.nan() && !probability.nan() && roll.key() >= probability.key())
}

pub fn roll_fires(roll: Score, probability: Score) -> (r: bool)
    ensures
        r == fires(roll, probability),
{
    roll.is_nan() || probability.is_nan() || roll.less_than(probability)
}

/// Whether lower or higher is better.
#[derive(Clone, Copy, Debug, PartialEq, Eq, Structural)]
pub enum Direction {
    /// Lower is better (losses).
    Minimize,
    /// Higher is better (metrics).
    Maximize,
}

impl Default for Direction {
    fn default() -> (r: Direction)
        ensures
            r == Direction::Minimize,
    {
        Direction::Minimize
    }
}

impl Direction {
    /// Whether `new` beats `current`.
    pub open spec fn better(self, new: Score, current: Score) -> bool {
        match self {
            Direction::Minimize => new.below(current),
            Direction::Maximize => current.below(new),
        }
    }

    /// How good a score is: larger is better under this direction.
    pub open spec fn merit(self, s: Score) -> int {
        match self {
            Direction::Minimize => -s.key(),
            Direction::Maximize => s.key(),
        }
    }

    /// Is `new` better than `current`?
    pub fn is_better(&self, new: Score, current: Score) -> (r: bool)
        ensures
            r == self.better(new, current),
    {
        match self {
            Direction::Minimize => new.less_than(current),
            Direction::Maximize => current.less_than(new),
        }
    }

    /// Whether `score` is as good as `target`, or better.
    pub open spec fn reaches(self, score: Score, target: Score) -> bool {
        !score.nan() && !target.nan() && !self.better(target, score)
    }

    /// Has `score` reached `target`?
    pub fn has_reached(&self, score: Score, target: Score) -> (r: bool)
        ensures
            r == self.reaches(score, target),
    {
        !score.is_nan() && !target.is_nan() && !self.is_better(target, score)
    }

    /// Compact arrow for logs: `↓` or `↑`.
    pub fn arrow(&self) -> (r: &'static str)
        ensures
            r@ == self.arrow_text(),
    {
        match self {
            Direction::Minimize => "↓",
            Direction::Maximize => "↑",
        }
    }

    /// The text of `arrow`.
    pub open spec fn arrow_text(self) -> Seq<char> {
        match self {
            Direction::Minimize => "↓"@,
            Direction::Maximize => "↑"@,
        }
    }

    /// Orders two scores from worse to better; a NaN counts as equal to
    /// everything.
    pub fn cmp(&self, a: Score, b: Score) -> (r: Ordering)
        ensures
            r == Ordering::Greater <==> self.better(a, b),
            r == Ordering::Less <==> self.better(b, a),
    {
        if self.is_better(a, b) {
            Ordering::Greater
        } else if self.is_better(b, a) {
            Ordering::Less
        } else {
            Ordering::Equal
        }
    }
}

/// The label under which a fitness is recorded (for example `mse`).
#[derive(Clone, Debug, PartialEq, Eq)]
pub struct FitnessLabel(pub String);

impl Default for FitnessLabel {
    fn default() -> (r: FitnessLabel)
        ensures
            r.0@ == "loss"@,
    {
        FitnessLabel(String::from_str("loss"))
    }
}

/// Among scores that are not NaN, `better` compares merit.
pub proof fn better_compares_merit(direction: Direction, a: Score, b: Score)
    requires
        !a.nan(),
        !b.nan(),
    ensures
        direction.better(a, b) <==> direction.merit(a) > direction.merit(b),
{
}

/// No two scores are each better than the other, and none beats itself.
pub proof fn better_is_asymmetric(direction: Direction, a: Score, b: Score)
    ensures
        direction.better(a, b) ==> !direction.better(b, a),
        !direction.better(a, a),
{
}

/// A score better than a better score is better.
pub proof fn better_is_transitive(direction: Direction, a: Score, b: Score, c: Score)
    ensures
        direction.better(a, b) && direction.better(b, c) ==> direction.better(a, c),
{
}

/// A score reaches a target exactly if it beats it or lies level with it.
pub proof fn reaching_is_beating_or_levelling(direction: Direction, score: Score, target: Score)
    ensures
        direction.reaches(score, target) <==> direction.better(score, target) || (!score.nan()
            && !target.nan() && score.key() == target.key()),
{
}

/// A NaN neither beats nor is beaten.
pub proof fn nan_never_compares(direction: Direction, a: Score, b: Score)
    requires
        a.nan(),
    ensures
        !direction.better(a, b),
        !direction.better(b, a),
{
}

/// The two directions rank every pair of scores oppositely.
pub proof fn directions_are_opposite(a: Score, b: Score)
    ensures
        Direction::Minimize.better(a, b) == Direction::Maximize.better(b, a),
{
}

/// Scores lie on a line: patterns without a sign in the order of their bits,
/// those with one mirrored below zero, and nothing beyond an infinity but NaNs.
pub proof fn scores_lie_on_a_line(a: Score, b: Score)
    ensures
        a.bits < 0x8000_0000 && b.bits < 0x8000_0000 ==> (a.key() < b.key() <==> a.bits < b.bits),
        a.bits >= 0x8000_0000 && b.bits >= 0x8000_0000 ==> (a.key() < b.key() <==> a.bits > b.bits),
        a.bits >= 0x8000_0000 ==> a.key() <= 0,
        b.bits < 0x8000_0000 ==> b.key() >= 0,
        a.bits == b.bits + 0x8000_0000 ==> a.key() == -b.key(),
        a.nan() <==> 0x7f80_0000 < a.bits < 0x8000_0000 || 0xff80_0000 < a.bits,
{
}

/// What is better, level or reached, in numbers: less when minimizing, more when
/// maximizing, and never anything that is no number.
pub proof fn better_is_further(a: Score, b: Score)
    ensures
        a.below(b) <==> !a.nan() && !b.nan() && a.key() < b.key(),
        Direction::Minimize.better(a, b) <==> !a.nan() && !b.nan() && a.key() < b.key(),
        Direction::Maximize.better(a, b) <==> !a.nan() && !b.nan() && a.key() > b.key(),
        Direction::Minimize.reaches(a, b) <==> !a.nan() && !b.nan() && a.key() <= b.key(),
        Direction::Maximize.reaches(a, b) <==> !a.nan() && !b.nan() && a.key() >= b.key(),
{
}

/// A roll fires exactly below its probability, so that none fires at 0, every
/// roll below 1 does at 1, and a higher probability never loses a roll; whatever
/// is no number fires too.
pub proof fn a_roll_fires_below_its_probability(roll: Score, p: Score, q: Score)
    ensures
        !roll.nan() && !p.nan() ==> (fires(roll, p) <==> roll.key() < p.key()),
        !roll.nan() && roll.key() >= 0 ==> !fires(roll, Score { bits: 0 }),
        !roll.nan() && !p.nan() && !q.nan() && p.key() <= q.key() && fires(roll, p) ==> fires(
            roll,
            q,
        ),
        roll.nan() || p.nan() ==> fires(roll, p),
{
}

} // verus!
