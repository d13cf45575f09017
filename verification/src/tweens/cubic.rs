//! The cubic easing family.
//!
//! `CubicIn` accelerates as the cube of the elapsed fraction, `CubicOut`
//! decelerates as the mirrored cube, and `CubicInOut` runs the In shape over
//! the first half of the duration and the Out shape over the second half,
//! each scaled to half the value delta.

use vstd::prelude::*;
use vstd::arithmetic::div_mod::{lemma_div_multiples_vanish, lemma_div_multiples_vanish_fancy,
    lemma_fundamental_div_mod};
use vstd::arithmetic::mul::lemma_mul_nonnegative;
use crate::fixed::{fx_mul_bits, fx_mul_spec, fx_percent_spec, lemma_abs_product_bound,
    lemma_ceil_div, lemma_fx_mul_abs, lemma_fx_mul_bounds, lemma_fx_mul_le, lemma_fx_mul_nonpos,
    lemma_fx_mul_one, lemma_fx_percent_ends, lemma_fx_square_unit, lemma_neg_div, Fx, FX_HALF,
    FX_ONE, FX_VAL_LIMIT};

verus! {

/// The In multiplier: the cube of the elapsed fraction.
pub open spec fn cubic_in_multiplier_spec(t: int) -> int {
    fx_mul_spec(fx_mul_spec(t, t), t)
}

/// The Out multiplier: the cube of `t - 1.0`, shifted up by 1.0.
pub open spec fn cubic_out_multiplier_spec(t: int) -> int {
    fx_mul_spec(fx_mul_spec(t - FX_ONE, t - FX_ONE), t - FX_ONE) + FX_ONE
}

/// First-half In-Out multiplier, on the doubled fraction `p`.
pub open spec fn cubic_in_out_first_spec(p: int) -> int {
    fx_mul_spec(fx_mul_spec(p, p), p)
}

/// Second-half In-Out multiplier, on the doubled fraction `p`.
pub open spec fn cubic_in_out_second_spec(p: int) -> int {
    fx_mul_spec(fx_mul_spec(p - 2 * FX_ONE, p - 2 * FX_ONE), p - 2 * FX_ONE) + 2 * FX_ONE
}

/// What `CubicIn::evaluate` returns, bit for bit.
pub open spec fn cubic_in_eval_spec(start: int, delta: int, dur: int, e: int) -> int {
    start + fx_mul_spec(delta, cubic_in_multiplier_spec(fx_percent_spec(dur, e)))
}

/// What `CubicOut::evaluate` returns, bit for bit.
pub open spec fn cubic_out_eval_spec(start: int, delta: int, dur: int, e: int) -> int {
    start + fx_mul_spec(delta, cubic_out_multiplier_spec(fx_percent_spec(dur, e)))
}

/// What `CubicInOut::evaluate` returns, bit for bit.  `half_delta` is the
/// stored half of the value delta.
pub open spec fn cubic_in_out_eval_spec(start: int, half_delta: int, dur: int, e: int) -> int {
    let p = 2 * fx_percent_spec(dur, e);
    if p < FX_ONE {
        start + fx_mul_spec(half_delta, cubic_in_out_first_spec(p))
    } else {
        start + fx_mul_spec(half_delta, cubic_in_out_second_spec(p))
    }
}

/// A tween that eases in along a cubic curve.
#[derive(Clone, Copy, Debug, PartialEq, Eq, Structural)]
pub struct CubicIn {
    pub start: Fx,
    pub end: Fx,
    pub value_delta: Fx,
    pub duration: Fx,
}

impl CubicIn {
    /// Configuration values are in range and the cached delta is consistent.
    pub open spec fn wf(&self) -> bool {
        &&& -FX_VAL_LIMIT <= self.start.bits <= FX_VAL_LIMIT
        &&& -FX_VAL_LIMIT <= self.end.bits <= FX_VAL_LIMIT
        &&& 0 <= self.duration.bits <= FX_VAL_LIMIT
        &&& self.value_delta.bits == self.end.bits - self.start.bits
    }

    pub fn new(range_start: Fx, range_end: Fx, duration: Fx) -> (r: CubicIn)
        requires
            -FX_VAL_LIMIT <= range_start.bits <= FX_VAL_LIMIT,
            -FX_VAL_LIMIT <= range_end.bits <= FX_VAL_LIMIT,
            0 <= duration.bits <= FX_VAL_LIMIT,
        ensures
            r.wf(),
            r.start == range_start,
            r.end == range_end,
            r.duration == duration,
    {
        let value_delta = Fx::calculate_delta(range_end, range_start);
        CubicIn { start: range_start, end: range_end, value_delta, duration }
    }

    /// The interpolated value for `current_time`.
    pub fn evaluate(&self, current_time: Fx) -> (r: Fx)
        requires
            self.wf(),
            0 <= current_time.bits <= self.duration.bits,
        ensures
            r.bits == cubic_in_eval_spec(
                self.start.bits as int,
                self.value_delta.bits as int,
                self.duration.bits as int,
                current_time.bits as int,
            ),
    {
        let t = Fx::percent(self.duration, current_time);
        proof {
            lemma_abs_product_bound(t.bits as int, t.bits as int, FX_ONE as int, FX_ONE as int);
        }
        let sq: i64 = fx_mul_bits(t.bits, t.bits);
        proof {
            lemma_fx_square_unit(t.bits as int);
            lemma_abs_product_bound(sq as int, t.bits as int, FX_ONE as int, FX_ONE as int);
        }
        let m: i64 = fx_mul_bits(sq, t.bits);
        proof {
            lemma_fx_mul_le(sq as int, t.bits as int);
            lemma_abs_product_bound(
                self.value_delta.bits as int,
                m as int,
                2 * FX_VAL_LIMIT,
                FX_ONE as int,
            );
            lemma_fx_mul_abs(self.value_delta.bits as int, m as int, 2 * FX_VAL_LIMIT);
        }
        let v: i64 = fx_mul_bits(self.value_delta.bits, m);
        Fx { bits: self.start.bits + v }
    }

    /// The configured range, as `(start, end)`.
    pub fn range(&self) -> (r: (Fx, Fx))
        ensures
            r.0 == self.start,
            r.1 == self.end,
    {
        (self.start, self.end)
    }

    /// The configured duration.
    pub fn duration(&self) -> (r: Fx)
        ensures
            r == self.duration,
    {
        self.duration
    }
}

/// A tween that eases out along a cubic curve.
#[derive(Clone, Copy, Debug, PartialEq, Eq, Structural)]
pub struct CubicOut {
    pub start: Fx,
    pub end: Fx,
    pub value_delta: Fx,
    pub duration: Fx,
}

impl CubicOut {
    /// Configuration values are in range and the cached delta is consistent.
    pub open spec fn wf(&self) -> bool {
        &&& -FX_VAL_LIMIT <= self.start.bits <= FX_VAL_LIMIT
        &&& -FX_VAL_LIMIT <= self.end.bits <= FX_VAL_LIMIT
        &&& 0 <= self.duration.bits <= FX_VAL_LIMIT
        &&& self.value_delta.bits == self.end.bits - self.start.bits
    }

    pub fn new(range_start: Fx, range_end: Fx, duration: Fx) -> (r: CubicOut)
        requires
            -FX_VAL_LIMIT <= range_start.bits <= FX_VAL_LIMIT,
            -FX_VAL_LIMIT <= range_end.bits <= FX_VAL_LIMIT,
            0 <= duration.bits <= FX_VAL_LIMIT,
        ensures
            r.wf(),
            r.start == range_start,
            r.end == range_end,
            r.duration == duration,
    {
        let value_delta = Fx::calculate_delta(range_end, range_start);
        CubicOut { start: range_start, end: range_end, value_delta, duration }
    }

    /// The interpolated value for `current_time`.
    pub fn evaluate(&self, current_time: Fx) -> (r: Fx)
        requires
            self.wf(),
            0 <= current_time.bits <= self.duration.bits,
        ensures
            r.bits == cubic_out_eval_spec(
                self.start.bits as int,
                self.value_delta.bits as int,
                self.duration.bits as int,
                current_time.bits as int,
            ),
    {
        let t = Fx::percent(self.duration, current_time);
        let tm: i64 = t.bits - FX_ONE;
        proof {
            lemma_abs_product_bound(tm as int, tm as int, FX_ONE as int, FX_ONE as int);
        }
        let sq: i64 = fx_mul_bits(tm, tm);
        proof {
            lemma_fx_square_unit(tm as int);
            lemma_abs_product_bound(sq as int, tm as int, FX_ONE as int, FX_ONE as int);
        }
        let cube: i64 = fx_mul_bits(sq, tm);
        proof {
            lemma_fx_mul_nonpos(sq as int, tm as int);
            lemma_fx_mul_abs(sq as int, tm as int, FX_ONE as int);
        }
        let m: i64 = cube + FX_ONE;
        proof {
            lemma_abs_product_bound(
                self.value_delta.bits as int,
                m as int,
                2 * FX_VAL_LIMIT,
                FX_ONE as int,
            );
            lemma_fx_mul_abs(self.value_delta.bits as int, m as int, 2 * FX_VAL_LIMIT);
        }
        let v: i64 = fx_mul_bits(self.value_delta.bits, m);
        Fx { bits: self.start.bits + v }
    }

    /// The configured range, as `(start, end)`.
    pub fn range(&self) -> (r: (Fx, Fx))
        ensures
            r.0 == self.start,
            r.1 == self.end,
    {
        (self.start, self.end)
    }

    /// The configured duration.
    pub fn duration(&self) -> (r: Fx)
        ensures
            r == self.duration,
    {
        self.duration
    }
}

/// A tween that eases in over the first half of its duration and out over
/// the second half, along cubic curves.
#[derive(Clone, Copy, Debug, PartialEq, Eq, Structural)]
pub struct CubicInOut {
    pub start: Fx,
    pub end: Fx,
    pub half_delta: Fx,
    pub duration: Fx,
}

impl CubicInOut {
    /// Configuration values are in range and the cached half delta is
    /// consistent.
    pub open spec fn wf(&self) -> bool {
        &&& -FX_VAL_LIMIT <= self.start.bits <= FX_VAL_LIMIT
        &&& -FX_VAL_LIMIT <= self.end.bits <= FX_VAL_LIMIT
        &&& 0 <= self.duration.bits <= FX_VAL_LIMIT
        &&& self.half_delta.bits == fx_mul_spec(
            self.end.bits - self.start.bits,
            FX_HALF as int,
        )
    }

    pub fn new(range_start: Fx, range_end: Fx, duration: Fx) -> (r: CubicInOut)
        requires
            -FX_VAL_LIMIT <= range_start.bits <= FX_VAL_LIMIT,
            -FX_VAL_LIMIT <= range_end.bits <= FX_VAL_LIMIT,
            0 <= duration.bits <= FX_VAL_LIMIT,
        ensures
            r.wf(),
            r.start == range_start,
            r.end == range_end,
            r.duration == duration,
    {
        let value_delta = Fx::calculate_delta(range_end, range_start);
        let half_delta = value_delta.scale(Fx { bits: FX_HALF });
        CubicInOut { start: range_start, end: range_end, half_delta, duration }
    }

    /// The interpolated value for `current_time`.
    pub fn evaluate(&self, current_time: Fx) -> (r: Fx)
        requires
            self.wf(),
            0 <= current_time.bits <= self.duration.bits,
        ensures
            r.bits == cubic_in_out_eval_spec(
                self.start.bits as int,
                self.half_delta.bits as int,
                self.duration.bits as int,
                current_time.bits as int,
            ),
    {
        proof {
            lemma_fx_mul_abs(
                self.end.bits - self.start.bits,
                FX_HALF as int,
                2 * FX_VAL_LIMIT,
            );
        }
        let t = Fx::percent(self.duration, current_time);
        let p: i64 = 2 * t.bits;
        let m: i64 = if p < FX_ONE {
            proof {
                lemma_abs_product_bound(p as int, p as int, FX_ONE as int, FX_ONE as int);
            }
            let sq: i64 = fx_mul_bits(p, p);
            proof {
                lemma_fx_square_unit(p as int);
                lemma_abs_product_bound(sq as int, p as int, FX_ONE as int, FX_ONE as int);
            }
            let c: i64 = fx_mul_bits(sq, p);
            proof {
                lemma_fx_mul_le(sq as int, p as int);
            }
            c
        } else {
            let q: i64 = p - 2 * FX_ONE;
            proof {
                lemma_abs_product_bound(q as int, q as int, FX_ONE as int, FX_ONE as int);
            }
            let sq: i64 = fx_mul_bits(q, q);
            proof {
                lemma_fx_square_unit(q as int);
                lemma_abs_product_bound(sq as int, q as int, FX_ONE as int, FX_ONE as int);
            }
            let c: i64 = fx_mul_bits(sq, q);
            proof {
                lemma_fx_mul_nonpos(sq as int, q as int);
                lemma_fx_mul_abs(sq as int, q as int, FX_ONE as int);
            }
            c + 2 * FX_ONE
        };
        proof {
            lemma_abs_product_bound(
                self.half_delta.bits as int,
                m as int,
                2 * FX_VAL_LIMIT,
                2 * FX_ONE as int,
            );
            lemma_fx_mul_bounds(
                self.half_delta.bits as int,
                m as int,
                2 * FX_VAL_LIMIT,
                2 * FX_ONE as int,
            );
        }
        let v: i64 = fx_mul_bits(self.half_delta.bits, m);
        Fx { bits: self.start.bits + v }
    }

    /// The configured range, as `(start, end)`.
    pub fn range(&self) -> (r: (Fx, Fx))
        ensures
            r.0 == self.start,
            r.1 == self.end,
    {
        (self.start, self.end)
    }

    /// The configured duration.
    pub fn duration(&self) -> (r: Fx)
        ensures
            r == self.duration,
    {
        self.duration
    }
}

/// Endpoint law: `CubicIn` starts exactly at `start` and ends exactly at
/// `start + delta`.
pub proof fn lemma_cubic_in_endpoints(start: int, delta: int, dur: int)
    requires
        1 <= dur,
    ensures
        cubic_in_eval_spec(start, delta, dur, 0) == start,
        cubic_in_eval_spec(start, delta, dur, dur) == start + delta,
{
    lemma_fx_percent_ends(dur);
    let one = FX_ONE as int;
    assert(fx_mul_spec(0, 0) == 0);
    assert(fx_mul_spec(delta, 0) == 0);
    assert(fx_mul_spec(one, one) == one);
    lemma_fx_mul_one(delta);
}

/// Endpoint law: `CubicOut` starts exactly at `start` and ends exactly at
/// `start + delta`.
pub proof fn lemma_cubic_out_endpoints(start: int, delta: int, dur: int)
    requires
        1 <= dur,
    ensures
        cubic_out_eval_spec(start, delta, dur, 0) == start,
        cubic_out_eval_spec(start, delta, dur, dur) == start + delta,
{
    lemma_fx_percent_ends(dur);
    let one = FX_ONE as int;
    assert(fx_mul_spec(-one, -one) == one);
    assert(fx_mul_spec(one, -one) == -one);
    assert(fx_mul_spec(0, 0) == 0);
    assert(fx_mul_spec(delta, 0) == 0);
    lemma_fx_mul_one(delta);
}

/// Endpoint law: `CubicInOut` starts exactly at `start` and ends at
/// `start + delta`, exactly for an even delta and one bit under it for an
/// odd one.
pub proof fn lemma_cubic_in_out_endpoints(start: int, delta: int, dur: int)
    requires
        1 <= dur,
        -2 * FX_VAL_LIMIT <= delta <= 2 * FX_VAL_LIMIT,
    ensures
        cubic_in_out_eval_spec(start, fx_mul_spec(delta, FX_HALF as int), dur, 0) == start,
        cubic_in_out_eval_spec(start, fx_mul_spec(delta, FX_HALF as int), dur, dur)
            == start + delta - delta % 2,
{
    lemma_fx_percent_ends(dur);
    let one = FX_ONE as int;
    let half = FX_HALF as int;
    let hd = fx_mul_spec(delta, half);
    assert(fx_mul_spec(0, 0) == 0);
    assert(fx_mul_spec(hd, 0) == 0);
    // At the far end the doubled fraction is 2.0, whose multiplier is exactly
    // 2.0; scaling the half delta by 2.0 recovers the delta up to its parity.
    lemma_fundamental_div_mod(delta, 2);
    let k = delta / 2;
    let j = delta % 2;
    assert(delta * half == one * k + j * half) by (nonlinear_arith)
        requires
            delta == 2 * k + j,
            one == 2 * half,
    ;
    lemma_div_multiples_vanish_fancy(k, j * half, one);
    assert(hd == k);
    assert(hd * (2 * one) == one * (2 * hd)) by (nonlinear_arith);
    lemma_div_multiples_vanish(2 * hd, one);
    assert(fx_mul_spec(hd, 2 * one) == 2 * k);
}

/// Reflection law: the In multiplier at `t` and the Out multiplier at
/// `1.0 - t` sum to 1.0, up to one bit of rounding.
pub proof fn lemma_cubic_mirror(t: int)
    requires
        0 <= t <= FX_ONE as int,
    ensures
        FX_ONE as int - 1 <= cubic_in_multiplier_spec(t) + cubic_out_multiplier_spec(
            FX_ONE as int - t,
        ) <= FX_ONE as int,
{
    let one = FX_ONE as int;
    assert((-t) * (-t) == t * t) by (nonlinear_arith);
    let sq = fx_mul_spec(t, t);
    lemma_fx_square_unit(t);
    assert(sq * (-t) == -(sq * t)) by (nonlinear_arith);
    let x = sq * t;
    lemma_mul_nonnegative(sq, t);
    lemma_neg_div(x, one);
    lemma_ceil_div(x, one);
}

/// Midpoint continuity: at exactly half the duration the first-half and the
/// second-half In-Out formulas give the same value.
pub proof fn lemma_cubic_in_out_midpoint(start: int, half_delta: int, dur: int, e: int)
    requires
        1 <= dur,
        2 * e == dur,
    ensures
        start + fx_mul_spec(
            half_delta,
            cubic_in_out_first_spec(2 * fx_percent_spec(dur, e)),
        ) == start + fx_mul_spec(
            half_delta,
            cubic_in_out_second_spec(2 * fx_percent_spec(dur, e)),
        ),
{
    let one = FX_ONE as int;
    let half = FX_HALF as int;
    assert(e * one == (2 * e) * half) by (nonlinear_arith)
        requires
            one == 2 * half,
    ;
    lemma_div_multiples_vanish(half, dur);
    assert((2 * e) * half == dur * half) by (nonlinear_arith)
        requires
            2 * e == dur,
    ;
    assert(fx_percent_spec(dur, e) == half);
    assert(fx_mul_spec(one, one) == one);
    assert(fx_mul_spec(-one, -one) == one);
    assert(fx_mul_spec(one, -one) == -one);
}

/// Zero-range stability: a tween whose range has equal endpoints yields
/// `start` at every time.
pub proof fn lemma_cubic_zero_range(start: int, dur: int, e: int)
    requires
        0 <= e <= dur,
    ensures
        cubic_in_eval_spec(start, 0, dur, e) == start,
        cubic_out_eval_spec(start, 0, dur, e) == start,
        cubic_in_out_eval_spec(start, 0, dur, e) == start,
{
    let t = fx_percent_spec(dur, e);
    assert(fx_mul_spec(0, cubic_in_multiplier_spec(t)) == 0);
    assert(fx_mul_spec(0, cubic_out_multiplier_spec(t)) == 0);
    assert(fx_mul_spec(0, cubic_in_out_first_spec(2 * t)) == 0);
    assert(fx_mul_spec(0, cubic_in_out_second_spec(2 * t)) == 0);
}

/// Sampling idempotence: two evaluations of the same variant at the same
/// time return the same value, since each result is a function of the
/// configuration and the time alone.
pub proof fn lemma_cubic_evaluate_repeatable(
    start: int,
    delta: int,
    dur: int,
    e: int,
    r1: int,
    r2: int,
)
    requires
        r1 == cubic_in_eval_spec(start, delta, dur, e),
        r2 == cubic_in_eval_spec(start, delta, dur, e),
    ensures
        r1 == r2,
{
}

} // verus!
