//! The environment work of a step: matches, turns, and their mean.
//!
//! The mean is shown as a whole number. It is the single-precision quotient of
//! the two single-precision totals, rounded once more to a whole number; every
//! rounding goes to the nearest value and a tie goes to the even one.

use vstd::arithmetic::mul::*;
use vstd::prelude::*;

use crate::text::{decimal, decimal_wide};

verus! {

/// Single precision keeps 24 binary digits.
pub const SINGLE_LIMIT: u128 = 0x100_0000;

/// Half of `SINGLE_LIMIT`.
pub const SINGLE_HALF: u128 = 0x80_0000;

/// `p / q` rounded to the nearest whole number, a tie to the even one.
pub open spec fn nearest(p: nat, q: nat) -> nat {
    let d = p / q;
    let r = p % q;
    if 2 * r < q || (2 * r == q && d % 2 == 0) {
        d
    } else {
        d + 1
    }
}

/// The distance between neighbouring single-precision numbers around `n`, at
/// least 1.
pub open spec fn single_step(n: nat) -> nat
    decreases n,
{
    if n < SINGLE_LIMIT {
        1
    } else {
        2 * single_step(n / 2)
    }
}

/// The single-precision number nearest to `n`.
pub open spec fn to_single(n: nat) -> nat {
    nearest(n, single_step(n)) * single_step(n)
}

/// The smallest power of two `u`, not below `from`, for which the quotient
/// `a / (b * u)` needs at most 24 binary digits before the point.
pub open spec fn coarse_step(a: nat, b: nat, from: nat) -> nat
    decreases
        if from <= a {
            a - from + 1
        } else {
            0
        },
{
    if b == 0 || from == 0 || a < b * from * SINGLE_LIMIT || from > a {
        from
    } else {
        coarse_step(a, b, 2 * from)
    }
}

/// The smallest power of two `s`, not below `from`, for which `a * s / b` has at
/// least 24 binary digits before the point.
pub open spec fn fine_step(a: nat, b: nat, from: nat) -> nat
    decreases
        if a * from < b * SINGLE_HALF {
            b * SINGLE_HALF - a * from
        } else {
            0
        },
{
    if a == 0 || from == 0 || a * from >= b * SINGLE_HALF {
        from
    } else {
        proof {
            assert(a * (2 * from) > a * from && a * (2 * from) == 2 * (a * from)) by (nonlinear_arith)
                requires
                    a > 0,
                    from > 0,
            ;
        }
        fine_step(a, b, 2 * from)
    }
}

/// The single-precision quotient `a / b`, rounded to a whole number.
pub open spec fn quotient_text_value(a: nat, b: nat) -> nat {
    if a == 0 {
        0
    } else if a >= b * SINGLE_HALF {
        let u = coarse_step(a, b, 1);
        nearest(a, b * u) * u
    } else {
        let s = fine_step(a, b, 1);
        nearest(nearest(a * s, b), s)
    }
}

/// The mean of `turns` over `matches`, as it is shown.
pub open spec fn shown_mean(turns: nat, matches: nat) -> nat {
    quotient_text_value(to_single(turns), to_single(matches))
}

fn round_nearest(p: u128, q: u128) -> (r: u128)
    requires
        q > 0,
        q <= 0x1_0000_0000_0000_0000_0000_0000_0000,
        p < u128::MAX,
    ensures
        r == nearest(p as nat, q as nat),
        r <= p / q + 1,
{
    let d: u128 = p / q;
    let r: u128 = p % q;
    proof {
        assert(d <= p) by (nonlinear_arith)
            requires
                d == p / q,
                q > 0,
        ;
    }
    if 2 * r < q || (2 * r == q && d % 2 == 0) {
        d
    } else {
        d + 1
    }
}

fn find_single_step(n: u128) -> (r: u128)
    ensures
        r == single_step(n as nat),
        r > 0,
        r <= n + 1,
        n >= SINGLE_LIMIT ==> 2 * r <= n,
    decreases n,
{
    if n < SINGLE_LIMIT {
        1
    } else {
        2 * find_single_step(n / 2)
    }
}

/// The single-precision number nearest to `n`.
fn round_to_single(n: u64) -> (r: u128)
    ensures
        r == to_single(n as nat),
        n > 0 ==> r > 0,
        r <= 0x1_0000_0000_0000_0000,
{
    let u: u128 = find_single_step(n as u128);
    let k: u128 = round_nearest(n as u128, u);
    proof {
        single_rounding_fits(n as nat);
    }
    k * u
}

/// The step of a number below 2^64 is at most 2^40 and divides 2^64.
proof fn single_step_is_power(n: nat, left: nat)
    requires
        n < 0x100_0000 * vstd::arithmetic::power2::pow2(left),
    ensures
        exists|k: nat| k <= left && single_step(n) == #[trigger] vstd::arithmetic::power2::pow2(k),
        single_step(n) > 0,
    decreases left,
{
    vstd::arithmetic::power2::lemma2_to64();
    if n < SINGLE_LIMIT {
        assert(single_step(n) == vstd::arithmetic::power2::pow2(0));
    } else {
        if left == 0 {
            assert(false);
        }
        vstd::arithmetic::power2::lemma_pow2_unfold(left);
        single_step_is_power(n / 2, (left - 1) as nat);
        let k = choose|k: nat|
            k <= left - 1 && single_step(n / 2) == #[trigger] vstd::arithmetic::power2::pow2(k);
        vstd::arithmetic::power2::lemma_pow2_unfold(k + 1);
        assert(single_step(n) == vstd::arithmetic::power2::pow2(k + 1));
    }
}

proof fn single_rounding_fits(n: nat)
    requires
        n <= u64::MAX,
    ensures
        to_single(n) <= 0x1_0000_0000_0000_0000,
        n > 0 ==> to_single(n) > 0,
        single_step(n) > 0,
{
    vstd::arithmetic::power2::lemma2_to64();
    vstd::arithmetic::power2::lemma2_to64_rest();
    single_step_is_power(n, 40);
    let k = choose|k: nat| k <= 40 && single_step(n) == #[trigger] vstd::arithmetic::power2::pow2(k);
    let u = single_step(n);
    let top: nat = 0x1_0000_0000_0000_0000;
    let q = vstd::arithmetic::power2::pow2((64 - k) as nat);
    vstd::arithmetic::power2::lemma_pow2_adds(k, (64 - k) as nat);
    assert(q * u == top) by (nonlinear_arith)
        requires
            u == vstd::arithmetic::power2::pow2(k),
            q == vstd::arithmetic::power2::pow2((64 - k) as nat),
            vstd::arithmetic::power2::pow2(k) * vstd::arithmetic::power2::pow2((64 - k) as nat)
                == top,
    ;
    vstd::arithmetic::div_mod::lemma_fundamental_div_mod(n as int, u as int);
    let d = n / u;
    let r = n % u;
    assert(d < q) by (nonlinear_arith)
        requires
            n == u * d + r,
            r >= 0,
            n < top,
            q * u == top,
            u > 0,
    ;
    assert(nearest(n, u) * u <= q * u) by (nonlinear_arith)
        requires
            nearest(n, u) <= q,
            u > 0,
    ;
    if n > 0 && n >= SINGLE_LIMIT {
        step_is_small(n);
        assert(d >= 1) by (nonlinear_arith)
            requires
                n == u * d + r,
                r < u,
                n >= u,
                u > 0,
        ;
        assert(nearest(n, u) * u >= 1) by (nonlinear_arith)
            requires
                nearest(n, u) >= 1,
                u >= 1,
        ;
    } else if n > 0 {
        assert(u == 1);
        assert(n / 1 == n) by (nonlinear_arith);
        assert(n % 1 == 0) by (nonlinear_arith);
        assert(nearest(n, 1) == n);
        assert(nearest(n, u) * u >= 1) by (nonlinear_arith)
            requires
                nearest(n, u) >= 1,
                u >= 1,
        ;
    }
}

proof fn step_is_small(n: nat)
    ensures
        n >= SINGLE_LIMIT ==> 2 * single_step(n) <= n,
        single_step(n) > 0,
    decreases n,
{
    if n >= SINGLE_LIMIT {
        step_is_small(n / 2);
    }
}

/// The single-precision quotient of two single-precision numbers, rounded to a
/// whole number.
fn rounded_quotient(a: u128, b: u128) -> (r: u128)
    requires
        b > 0,
        a <= 0x1_0000_0000_0000_0000,
        b <= 0x1_0000_0000_0000_0000,
    ensures
        r == quotient_text_value(a as nat, b as nat),
{
    if a == 0 {
        return 0;
    }
    if a >= b * SINGLE_HALF {
        let mut u: u128 = 1;
        while a >= b * u * SINGLE_LIMIT
            invariant
                b > 0,
                u > 0,
                a <= 0x1_0000_0000_0000_0000,
                b <= 0x1_0000_0000_0000_0000,
                b * u <= 0x2_0000_0000_0000_0000,
                coarse_step(a as nat, b as nat, 1) == coarse_step(a as nat, b as nat, u as nat),
            decreases a - b * u,
        {
            proof {
                assert(b * u * SINGLE_LIMIT >= u && b * u * SINGLE_LIMIT >= 0x100_0000 * (b * u))
                    by (nonlinear_arith)
                    requires
                        b > 0,
                        u > 0,
                        SINGLE_LIMIT == 0x100_0000,
                ;
                assert(b * (2 * u) == 2 * (b * u)) by (nonlinear_arith);
                assert(b * u >= 1) by (nonlinear_arith)
                    requires
                        b > 0,
                        u > 0,
                ;
                assert(u <= b * u) by (nonlinear_arith)
                    requires
                        b > 0,
                        u > 0,
                ;
            }
            u = 2 * u;
        }
        proof {
            assert(u <= b * u) by (nonlinear_arith)
                requires
                    b > 0,
                    u > 0,
            ;
            assert(b * u > 0) by (nonlinear_arith)
                requires
                    b > 0,
                    u > 0,
            ;
        }
        let k: u128 = round_nearest(a, b * u);
        proof {
            let bu = b * u;
            let d = a as int / bu;
            vstd::arithmetic::div_mod::lemma_fundamental_div_mod(a as int, bu);
            vstd::arithmetic::div_mod::lemma_div_pos_is_pos(a as int, bu);
            lemma_mul_inequality(u as int, bu, d);
            lemma_mul_is_commutative(u as int, d);
            lemma_mul_is_commutative(bu, d);
            assert(k * u <= (d + 1) * u) by (nonlinear_arith)
                requires
                    k <= d + 1,
                    u > 0,
            ;
            assert((d + 1) * u == d * u + u) by (nonlinear_arith);
        }
        k * u
    } else {
        let mut s: u128 = 1;
        let mut t: u128 = a;
        while t < b * SINGLE_HALF
            invariant
                a > 0,
                s > 0,
                b > 0,
                b <= 0x1_0000_0000_0000_0000,
                t == a * s,
                s <= t,
                t < b * SINGLE_LIMIT,
                fine_step(a as nat, b as nat, 1) == fine_step(a as nat, b as nat, s as nat),
            decreases
                if t < b * SINGLE_HALF {
                    b * SINGLE_HALF - t
                } else {
                    0
                },
        {
            proof {
                assert(a * (2 * s) == 2 * (a * s)) by (nonlinear_arith);
            }
            s = 2 * s;
            t = 2 * t;
        }
        let m: u128 = round_nearest(t, b);
        proof {
            assert(m <= 0x100_0001) by (nonlinear_arith)
                requires
                    m <= t / b + 1,
                    t < b * 0x100_0000,
                    b > 0,
            ;
            assert(s <= 0x1_0000_0000_0000_0000 * 0x100_0000) by (nonlinear_arith)
                requires
                    s <= t,
                    t < b * 0x100_0000,
                    b <= 0x1_0000_0000_0000_0000,
            ;
        }
        round_nearest(m, s)
    }
}

/// The environment work of one step, summed over the nets that reported any.
#[derive(Clone, Copy, Debug, PartialEq, Eq, Structural)]
pub struct RlVolume {
    /// Nets that reported this step.
    pub nets: usize,
    /// Matches those nets played.
    pub matches: usize,
    /// Turns those nets played.
    pub turns: usize,
}

impl Default for RlVolume {
    fn default() -> (r: RlVolume)
        ensures
            r == (RlVolume { nets: 0, matches: 0, turns: 0 }),
    {
        RlVolume { nets: 0, matches: 0, turns: 0 }
    }
}

impl RlVolume {
    /// The text of `label`.
    pub open spec fn label_text(self) -> Seq<char> {
        if self.nets == 0 || self.matches == 0 {
            "matches — │ turns — │ turns/match —"@
        } else {
            "matches "@ + crate::text::decimal_text(self.matches as nat) + " │ turns "@
                + crate::text::decimal_text(self.turns as nat) + " │ turns/match "@
                + crate::text::decimal_text(shown_mean(self.turns as nat, self.matches as nat))
        }
    }

    /// The volume column of the step line: totals and mean, or dashes if no
    /// net reported a match.
    pub fn label(&self) -> (r: String)
        ensures
            r@ == self.label_text(),
    {
        if self.nets == 0 || self.matches == 0 {
            return String::from_str("matches — │ turns — │ turns/match —");
        }
        let turns = round_to_single(self.turns as u64);
        let matches = round_to_single(self.matches as u64);
        let mean = rounded_quotient(turns, matches);
        let mut out = String::from_str("matches ");
        out.append(decimal(self.matches as u64).as_str());
        out.append(" │ turns ");
        out.append(decimal(self.turns as u64).as_str());
        out.append(" │ turns/match ");
        out.append(decimal_wide(mean).as_str());
        out
    }

    /// Whether one more report can be counted.
    pub open spec fn has_room(self, matches: usize, turns: usize) -> bool {
        &&& self.nets < usize::MAX
        &&& self.matches + matches <= usize::MAX
        &&& self.turns + turns <= usize::MAX
    }

    /// Counts the report of one net.
    pub fn report(&mut self, matches: usize, turns: usize)
        requires
            old(self).has_room(matches, turns),
        ensures
            final(self).nets == old(self).nets + 1,
            final(self).matches == old(self).matches + matches,
            final(self).turns == old(self).turns + turns,
    {
        self.nets = self.nets + 1;
        self.matches = self.matches + matches;
        self.turns = self.turns + turns;
    }
}

/// Rounding goes to the nearest whole number: it is off by half at most, by just
/// half only where it comes out even, and a whole quotient is kept.
pub proof fn rounding_is_to_the_nearest(p: nat, q: nat, m: nat)
    requires
        q > 0,
    ensures
        -(q as int) <= 2 * (p - nearest(p, q) * q) <= q,
        2 * (p - nearest(p, q) * q) == q || 2 * (p - nearest(p, q) * q) == -(q as int) ==> nearest(
            p,
            q,
        ) % 2 == 0,
        nearest(m * q, q) == m,
{
    let d = (p / q) as int;
    vstd::arithmetic::div_mod::lemma_fundamental_div_mod(p as int, q as int);
    assert(q * d == d * q) by (nonlinear_arith);
    assert((d + 1) * q == d * q + q) by (nonlinear_arith);
    vstd::arithmetic::div_mod::lemma_div_multiples_vanish(m as int, q as int);
    vstd::arithmetic::div_mod::lemma_mod_multiples_basic(m as int, q as int);
    assert(m * q == q * m) by (nonlinear_arith);
}

/// Whole numbers that single precision can hold are held exactly.
pub proof fn small_totals_are_exact(n: nat)
    requires
        n < 0x100_0000,
    ensures
        to_single(n) == n,
{
    rounding_is_to_the_nearest(0, 1, n);
    assert(n * 1 == n) by (nonlinear_arith);
    assert(nearest(n, 1) * 1 == nearest(n, 1)) by (nonlinear_arith);
}

// ── How far off a mean is ────────────────────────────────────────────────

/// A total is rounded to 24 binary digits: to the nearest multiple of a step
/// that is 1, or small enough for the total to hold it 2^23 times.
pub proof fn a_total_keeps_its_digits(n: nat)
    ensures
        ({
            let u = single_step(n);
            &&& u > 0
            &&& u == 1 || u * 0x80_0000 <= n
            &&& to_single(n) % u == 0
            &&& -(u as int) <= 2 * (n - to_single(n)) <= u
        }),
{
    let u = single_step(n);
    step_holds_the_digits(n);
    rounding_is_to_the_nearest(n, u, 0);
    vstd::arithmetic::div_mod::lemma_mod_multiples_basic(nearest(n, u) as int, u as int);
}

proof fn step_holds_the_digits(n: nat)
    ensures
        single_step(n) > 0,
        single_step(n) == 1 || single_step(n) * 0x80_0000 <= n,
    decreases n,
{
    if n >= SINGLE_LIMIT {
        step_holds_the_digits(n / 2);
    }
}

proof fn coarse_step_is_small(a: nat, b: nat, from: nat)
    requires
        b > 0,
        from > 0,
        from == 1 || b * from * 0x80_0000 <= a,
    ensures
        ({
            let u = coarse_step(a, b, from);
            u > 0 && (u == 1 || b * u * 0x80_0000 <= a)
        }),
    decreases
        if from <= a {
            a - from + 1
        } else {
            0
        },
{
    if !(a < b * from * SINGLE_LIMIT || from > a) {
        assert(b * (2 * from) * 0x80_0000 == b * from * 0x100_0000) by (nonlinear_arith);
        coarse_step_is_small(a, b, 2 * from);
    }
}

proof fn fine_step_is_large(a: nat, b: nat, from: nat)
    requires
        a > 0,
        from > 0,
    ensures
        ({
            let s = fine_step(a, b, from);
            s > 0 && a * s >= b * 0x80_0000
        }),
    decreases
        if a * from < b * SINGLE_HALF {
            b * SINGLE_HALF - a * from
        } else {
            0
        },
{
    if a * from < b * SINGLE_HALF {
        assert(a * (2 * from) > a * from && a * (2 * from) == 2 * (a * from)) by (nonlinear_arith)
            requires
                a > 0,
                from > 0,
        ;
        fine_step_is_large(a, b, 2 * from);
    }
}

/// A quotient is shown as the nearest whole number, as far as 24 binary digits
/// tell: it is off by one half, and by one part in 2^24 of itself, at most.
pub proof fn a_quotient_is_shown_nearest(a: nat, b: nat)
    requires
        b > 0,
    ensures
        ({
            let off = 2 * (a - quotient_text_value(a, b) * b) * 0x80_0000;
            -(b * 0x80_0000 + a) <= off <= b * 0x80_0000 + a
        }),
{
    let q = quotient_text_value(a, b);
    let h: int = 0x80_0000;
    if a == 0 {
        assert(q * b == 0) by (nonlinear_arith)
            requires
                q == 0,
        ;
    } else if a >= b * SINGLE_HALF {
        let u = coarse_step(a, b, 1);
        coarse_step_is_small(a, b, 1);
        assert(b * u > 0) by (nonlinear_arith)
            requires
                b > 0,
                u > 0,
        ;
        let k = nearest(a, b * u);
        rounding_is_to_the_nearest(a, b * u, 0);
        assert(k * (b * u) == q * b) by (nonlinear_arith)
            requires
                q == k * u,
        ;
        if u == 1 {
            assert(b * u == b) by (nonlinear_arith)
                requires
                    u == 1,
            ;
        }
    } else {
        let s = fine_step(a, b, 1);
        fine_step_is_large(a, b, 1);
        let m = nearest(a * s, b);
        rounding_is_to_the_nearest(a * s, b, 0);
        rounding_is_to_the_nearest(m, s, 0);
        let x = a - q * b;
        let e = a * s - m * b;
        let f = m - q * s;
        assert(x * s == e + f * b) by (nonlinear_arith)
            requires
                x == a - q * b,
                e == a * s - m * b,
                f == m - q * s,
        ;
        assert(-(s * b) <= 2 * (f * b) <= s * b) by (nonlinear_arith)
            requires
                -(s as int) <= 2 * f <= s,
                b > 0,
        ;
        assert(-(b + s * b) <= 2 * (x * s) <= b + s * b);
        assert(2 * x * h <= b * h + a) by (nonlinear_arith)
            requires
                2 * (x * s) <= b + s * b,
                a * s >= b * h,
                s > 0,
                b > 0,
                h > 0,
        ;
        assert(-(b * h + a) <= 2 * x * h) by (nonlinear_arith)
            requires
                -(b + s * b) <= 2 * (x * s),
                a * s >= b * h,
                s > 0,
                b > 0,
                h > 0,
        ;
    }
}

} // verus!
