//! The fixed-point scalar that values and times are measured in.
//!
//! An [`Fx`] holds a signed Q23.40 quantity: `bits` stands for the number
//! `bits / 2^40`.  Every arithmetic operation here carries an exact contract
//! over the mathematical integers, so the easing formulas built on top of it
//! are specified bit for bit.

use vstd::prelude::*;
use vstd::arithmetic::div_mod::{
    lemma_div_is_ordered, lemma_div_multiples_vanish, lemma_div_nonincreasing,
    lemma_div_pos_is_pos, lemma_fundamental_div_mod, lemma_fundamental_div_mod_converse,
};
use vstd::arithmetic::mul::{lemma_mul_inequality, lemma_mul_nonnegative};

verus! {

/// The representation of 1.0: one whole unit is `2^40` bits.
pub const FX_ONE: i64 = 0x100_0000_0000;

/// The representation of 0.5.
pub const FX_HALF: i64 = 0x80_0000_0000;

/// Largest magnitude (in bits) allowed for a range endpoint or a duration:
/// `2^57` bits, about 131 thousand whole units.  Keeping configuration values
/// inside this window lets every intermediate product fit its machine word.
pub const FX_VAL_LIMIT: i64 = 0x200_0000_0000_0000;

/// Largest magnitude accepted for the left operand of [`fx_mul_bits`]: `2^58`.
pub const FX_MUL_A_LIMIT: i64 = 0x400_0000_0000_0000;

/// Largest magnitude accepted for the right operand of [`fx_mul_bits`]: `2^44`.
pub const FX_MUL_B_LIMIT: i64 = 0x1000_0000_0000;

/// A fixed-point scalar; `bits` stands for the number `bits / 2^40`.
#[derive(Clone, Copy, Debug, PartialEq, Eq, Structural)]
pub struct Fx {
    pub bits: i64,
}

/// The product of two scalars, rounded toward minus infinity.
pub open spec fn fx_mul_spec(a: int, b: int) -> int {
    (a * b) / (FX_ONE as int)
}

/// Elapsed time as a fraction of the duration.  A zero duration is treated as
/// already complete: the fraction is defined as 1.0.
pub open spec fn fx_percent_spec(d: int, e: int) -> int {
    if d == 0 {
        FX_ONE as int
    } else {
        (e * (FX_ONE as int)) / d
    }
}

impl Fx {
    /// Wraps a raw bit pattern.
    pub fn from_bits(bits: i64) -> (r: Fx)
        ensures
            r.bits == bits,
    {
        Fx { bits }
    }

    /// The scalar for a small whole number.
    pub fn from_int(v: i64) -> (r: Fx)
        requires
            -0x2_0000 <= v <= 0x2_0000,
        ensures
            r.bits == v * FX_ONE,
    {
        Fx { bits: v * FX_ONE }
    }

    /// The zero scalar.
    pub fn zero() -> (r: Fx)
        ensures
            r.bits == 0,
    {
        Fx { bits: 0 }
    }

    /// The scalar for 1.0.
    pub fn one() -> (r: Fx)
        ensures
            r.bits == FX_ONE,
    {
        Fx { bits: FX_ONE }
    }

    /// Sum of two scalars.
    pub fn add(self, o: Fx) -> (r: Fx)
        requires
            i64::MIN <= self.bits + o.bits <= i64::MAX,
        ensures
            r.bits == self.bits + o.bits,
    {
        Fx { bits: self.bits + o.bits }
    }

    /// Difference of two scalars.
    pub fn sub(self, o: Fx) -> (r: Fx)
        requires
            i64::MIN <= self.bits - o.bits <= i64::MAX,
        ensures
            r.bits == self.bits - o.bits,
    {
        Fx { bits: self.bits - o.bits }
    }

    /// The value delta `end - start` of a range.
    pub fn calculate_delta(end: Fx, start: Fx) -> (r: Fx)
        requires
            i64::MIN <= end.bits - start.bits <= i64::MAX,
        ensures
            r.bits == end.bits - start.bits,
    {
        Fx { bits: end.bits - start.bits }
    }

    /// Scales a value by a factor, rounding toward minus infinity.
    pub fn scale(self, factor: Fx) -> (r: Fx)
        requires
            -FX_MUL_A_LIMIT <= self.bits <= FX_MUL_A_LIMIT,
            -FX_MUL_B_LIMIT <= factor.bits <= FX_MUL_B_LIMIT,
        ensures
            r.bits == fx_mul_spec(self.bits as int, factor.bits as int),
    {
        proof {
            lemma_abs_product_bound(
                self.bits as int,
                factor.bits as int,
                FX_MUL_A_LIMIT as int,
                FX_MUL_B_LIMIT as int,
            );
        }
        Fx { bits: fx_mul_bits(self.bits, factor.bits) }
    }

    /// Elapsed time as a fraction of the duration, in `[0.0, 1.0]`.
    /// A zero duration is treated as already complete.
    pub fn percent(duration: Fx, elapsed: Fx) -> (r: Fx)
        requires
            0 <= elapsed.bits <= duration.bits,
        ensures
            r.bits == fx_percent_spec(duration.bits as int, elapsed.bits as int),
            0 <= r.bits <= FX_ONE,
    {
        if duration.bits == 0 {
            Fx { bits: FX_ONE }
        } else {
            proof {
                lemma_mul_inequality(elapsed.bits as int, 0x7fff_ffff_ffff_ffff, FX_ONE as int);
            }
            let num: u128 = (elapsed.bits as u128) * (FX_ONE as u128);
            let q: u128 = num / (duration.bits as u128);
            proof {
                let e = elapsed.bits as int;
                let d = duration.bits as int;
                let one = FX_ONE as int;
                lemma_mul_nonnegative(e, one);
                lemma_mul_inequality(e, d, one);
                lemma_div_is_ordered(e * one, d * one, d);
                lemma_div_multiples_vanish(one, d);
                assert(d * one == one * d) by (nonlinear_arith);
                lemma_div_pos_is_pos(e * one, d);
            }
            Fx { bits: q as i64 }
        }
    }
}

/// Core fixed-point multiply on raw bits: `(a * b) / 2^40`, rounded toward
/// minus infinity.  The caller shows that the product of the operands stays
/// inside the window that keeps the quotient in an `i64`.
pub fn fx_mul_bits(a: i64, b: i64) -> (r: i64)
    requires
        -(FX_MUL_A_LIMIT as int) * (FX_MUL_B_LIMIT as int) <= (a as int) * (b as int)
            <= (FX_MUL_A_LIMIT as int) * (FX_MUL_B_LIMIT as int),
    ensures
        r as int == fx_mul_spec(a as int, b as int),
{
    let p: i128 = (a as i128) * (b as i128);
    if p >= 0 {
        let q: u128 = (p as u128) / (FX_ONE as u128);
        proof {
            lemma_div_pos_is_pos(p as int, FX_ONE as int);
            lemma_div_is_ordered(p as int, (FX_MUL_A_LIMIT as int) * (FX_MUL_B_LIMIT as int), FX_ONE as int);
        }
        q as i64
    } else {
        let m: u128 = (-p) as u128;
        let q: u128 = (m + ((FX_ONE - 1) as u128)) / (FX_ONE as u128);
        proof {
            lemma_neg_div(m as int, FX_ONE as int);
            lemma_div_pos_is_pos(m as int + FX_ONE - 1, FX_ONE as int);
            lemma_div_is_ordered(
                m as int + FX_ONE - 1,
                (FX_MUL_A_LIMIT as int) * (FX_MUL_B_LIMIT as int) + FX_ONE - 1,
                FX_ONE as int,
            );
        }
        -(q as i64)
    }
}

/// The magnitude of a product is bounded by the product of the bounds.
pub proof fn lemma_abs_product_bound(a: int, b: int, ab: int, bb: int)
    requires
        -ab <= a <= ab,
        -bb <= b <= bb,
        0 <= ab,
        0 <= bb,
    ensures
        -(ab * bb) <= a * b <= ab * bb,
{
    assert(-(ab * bb) <= a * b <= ab * bb) by (nonlinear_arith)
        requires
            -ab <= a <= ab,
            -bb <= b <= bb,
            0 <= ab,
            0 <= bb,
    ;
}

/// Division of a negated non-negative number: floor of `-x / d` equals the
/// negated ceiling of `x / d`.
pub proof fn lemma_neg_div(x: int, d: int)
    requires
        0 <= x,
        0 < d,
    ensures
        (-x) / d == -((x + d - 1) / d),
{
    lemma_fundamental_div_mod(x, d);
    let q = x / d;
    let r = x % d;
    assert(x == d * q + r);
    if r == 0 {
        assert(x + d - 1 == q * d + (d - 1)) by (nonlinear_arith)
            requires
                x == d * q + r,
                r == 0,
        ;
        assert(-x == (-q) * d + 0) by (nonlinear_arith)
            requires
                x == d * q + r,
                r == 0,
        ;
        lemma_fundamental_div_mod_converse(x + d - 1, d, q, d - 1);
        lemma_fundamental_div_mod_converse(-x, d, -q, 0);
    } else {
        assert(x + d - 1 == (q + 1) * d + (r - 1)) by (nonlinear_arith)
            requires
                x == d * q + r,
        ;
        assert(-x == (-q - 1) * d + (d - r)) by (nonlinear_arith)
            requires
                x == d * q + r,
        ;
        lemma_fundamental_div_mod_converse(x + d - 1, d, q + 1, r - 1);
        lemma_fundamental_div_mod_converse(-x, d, -q - 1, d - r);
    }
}

/// Fixed-point multiplication is commutative.
pub proof fn lemma_fx_mul_comm(a: int, b: int)
    ensures
        fx_mul_spec(a, b) == fx_mul_spec(b, a),
{
    assert(a * b == b * a) by (nonlinear_arith);
}

/// A multiple of the divisor hoists out of a quotient:
/// `(d * x + y) / d == x + y / d`.
pub proof fn lemma_div_shift_multiple(x: int, y: int, d: int)
    requires
        0 < d,
    ensures
        (d * x + y) / d == x + y / d,
{
    lemma_fundamental_div_mod(y, d);
    let q = y / d;
    let r = y % d;
    assert(y == d * q + r);
    assert(d * x + y == (x + q) * d + r) by (nonlinear_arith)
        requires
            y == d * q + r,
    ;
    lemma_fundamental_div_mod_converse(d * x + y, d, x + q, r);
}

/// Rounding up: `(x + d - 1) / d` is the floor quotient, plus one when the
/// division is inexact.
pub proof fn lemma_ceil_div(x: int, d: int)
    requires
        0 <= x,
        0 < d,
    ensures
        (x + d - 1) / d == x / d + (if x % d == 0 { 0int } else { 1int }),
{
    lemma_fundamental_div_mod(x, d);
    let q = x / d;
    let r = x % d;
    assert(x == d * q + r);
    if r == 0 {
        assert(x + d - 1 == q * d + (d - 1)) by (nonlinear_arith)
            requires
                x == d * q + r,
                r == 0,
        ;
        lemma_fundamental_div_mod_converse(x + d - 1, d, q, d - 1);
    } else {
        assert(x + d - 1 == (q + 1) * d + (r - 1)) by (nonlinear_arith)
            requires
                x == d * q + r,
        ;
        lemma_fundamental_div_mod_converse(x + d - 1, d, q + 1, r - 1);
    }
}

/// General two-sided bound on a fixed-point product from bounds on the
/// factors.
pub proof fn lemma_fx_mul_bounds(a: int, b: int, ab: int, bb: int)
    requires
        -ab <= a <= ab,
        -bb <= b <= bb,
        0 <= ab,
        0 <= bb,
    ensures
        -((ab * bb) / (FX_ONE as int)) - 1 <= fx_mul_spec(a, b) <= (ab * bb) / (FX_ONE as int),
{
    let one = FX_ONE as int;
    let top = ab * bb;
    lemma_abs_product_bound(a, b, ab, bb);
    lemma_mul_nonnegative(ab, bb);
    lemma_div_is_ordered(a * b, top, one);
    lemma_div_is_ordered(-top, a * b, one);
    lemma_neg_div(top, one);
    lemma_ceil_div(top, one);
}

/// A non-negative value times a non-positive factor is non-positive.
pub proof fn lemma_fx_mul_nonpos(a: int, b: int)
    requires
        0 <= a,
        b <= 0,
    ensures
        fx_mul_spec(a, b) <= 0,
{
    let one = FX_ONE as int;
    assert(a * b <= 0) by (nonlinear_arith)
        requires
            0 <= a,
            b <= 0,
    ;
    lemma_div_is_ordered(a * b, 0, one);
    lemma_div_pos_is_pos(0, one);
    lemma_div_nonincreasing(0, one);
}

/// A product of factors in `[-bound, bound]` and `[-1.0, 1.0]` keeps the
/// bound of the wider factor.
pub proof fn lemma_fx_mul_abs(a: int, b: int, bound: int)
    requires
        -bound <= a <= bound,
        -(FX_ONE as int) <= b <= FX_ONE as int,
        0 <= bound,
    ensures
        -bound <= fx_mul_spec(a, b) <= bound,
{
    let one = FX_ONE as int;
    assert(-(bound * one) <= a * b <= bound * one) by (nonlinear_arith)
        requires
            -bound <= a <= bound,
            -one <= b <= one,
            0 <= bound,
    ;
    lemma_div_is_ordered(a * b, bound * one, one);
    lemma_div_is_ordered(-(bound * one), a * b, one);
    lemma_div_multiples_vanish(bound, one);
    lemma_div_multiples_vanish(-bound, one);
    assert(one * bound == bound * one) by (nonlinear_arith);
    assert(one * -bound == -(bound * one)) by (nonlinear_arith);
}

/// The square of a scalar in `[-1.0, 1.0]` lies in `[0.0, 1.0]`.
pub proof fn lemma_fx_square_unit(a: int)
    requires
        -(FX_ONE as int) <= a <= FX_ONE as int,
    ensures
        0 <= fx_mul_spec(a, a) <= FX_ONE as int,
{
    let one = FX_ONE as int;
    assert(0 <= a * a <= one * one) by (nonlinear_arith)
        requires
            -one <= a <= one,
    ;
    lemma_div_pos_is_pos(a * a, one);
    lemma_div_is_ordered(a * a, one * one, one);
    lemma_div_multiples_vanish(one, one);
}

/// A non-negative value scaled by a factor in `[0.0, 1.0]` stays in `[0, value]`.
pub proof fn lemma_fx_mul_le(a: int, b: int)
    requires
        0 <= a,
        0 <= b <= FX_ONE as int,
    ensures
        0 <= fx_mul_spec(a, b) <= a,
{
    let one = FX_ONE as int;
    lemma_mul_nonnegative(a, b);
    lemma_div_pos_is_pos(a * b, one);
    assert(a * b <= one * a) by (nonlinear_arith)
        requires
            0 <= a,
            0 <= b <= one,
    ;
    lemma_div_is_ordered(a * b, one * a, one);
    lemma_div_multiples_vanish(a, one);
}

/// Scaling by 1.0 is the identity.
pub proof fn lemma_fx_mul_one(a: int)
    ensures
        fx_mul_spec(a, FX_ONE as int) == a,
        fx_mul_spec(a, -(FX_ONE as int)) == -a,
{
    let one = FX_ONE as int;
    lemma_div_multiples_vanish(a, one);
    lemma_div_multiples_vanish(-a, one);
    assert(a * one == one * a) by (nonlinear_arith);
    assert(a * -one == one * -a) by (nonlinear_arith);
}

/// At zero elapsed time the fraction is 0.0; at the full duration it is 1.0.
pub proof fn lemma_fx_percent_ends(d: int)
    requires
        0 < d,
    ensures
        fx_percent_spec(d, 0) == 0,
        fx_percent_spec(d, d) == FX_ONE as int,
{
    let one = FX_ONE as int;
    lemma_div_pos_is_pos(0, d);
    lemma_div_nonincreasing(0, d);
    lemma_div_multiples_vanish(one, d);
    assert(d * one == one * d) by (nonlinear_arith);
}

/// The fraction of a time inside `[0, duration]` lies in `[0.0, 1.0]`.
pub proof fn lemma_fx_percent_range(d: int, e: int)
    requires
        0 <= e <= d,
    ensures
        0 <= fx_percent_spec(d, e) <= FX_ONE as int,
{
    let one = FX_ONE as int;
    if d != 0 {
        lemma_mul_nonnegative(e, one);
        lemma_div_pos_is_pos(e * one, d);
        lemma_mul_inequality(e, d, one);
        lemma_div_is_ordered(e * one, d * one, d);
        lemma_div_multiples_vanish(one, d);
        assert(d * one == one * d) by (nonlinear_arith);
    }
}

/// Whether the fraction has passed the midpoint tells on which side of half
/// the duration the elapsed time lies.
pub proof fn lemma_fx_percent_half_split(d: int, e: int)
    requires
        0 <= e <= d,
    ensures
        fx_percent_spec(d, e) < FX_HALF as int ==> 2 * e < d,
        fx_percent_spec(d, e) >= FX_HALF as int ==> 2 * e >= d,
{
    let one = FX_ONE as int;
    let half = FX_HALF as int;
    if d == 0 {
    } else {
        let t = (e * one) / d;
        lemma_fundamental_div_mod(e * one, d);
        if t < half {
            assert(e * one == d * t + (e * one) % d);
            assert(e * one < d * half) by (nonlinear_arith)
                requires
                    e * one == d * t + (e * one) % d,
                    0 <= (e * one) % d < d,
                    t < half,
                    0 < d,
            ;
            assert(2 * e < d) by (nonlinear_arith)
                requires
                    e * one < d * half,
                    one == 2 * half,
                    0 < half,
            ;
        }
        if t >= half {
            assert(e * one >= d * half) by (nonlinear_arith)
                requires
                    e * one == d * t + (e * one) % d,
                    0 <= (e * one) % d,
                    t >= half,
                    0 < d,
            ;
            assert(2 * e >= d) by (nonlinear_arith)
                requires
                    e * one >= d * half,
                    one == 2 * half,
                    0 < half,
            ;
        }
    }
}

} // verus!
