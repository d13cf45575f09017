//! The exponential easing family.
//!
//! The curves blend along powers of two: In grows as `2^(10 (t - 1))`, Out
//! decays as `1 - 2^(-10 t)`, and In-Out splits the two shapes at the
//! midpoint.  The power of two is computed exactly in fixed point by
//! [`fx_exp2_neg`]: the argument is split into its whole part, handled by a
//! right shift, and its fractional part, handled by a truncated power
//! series.  Both `evaluate` endpoints are special-cased so the curve lands
//! exactly on the configured range.

use vstd::prelude::*;
use vstd::arithmetic::div_mod::lemma_div_multiples_vanish;
use crate::fixed::{fx_mul_bits, fx_mul_spec, fx_percent_spec, lemma_abs_product_bound,
    lemma_fx_mul_abs, lemma_fx_mul_comm, lemma_fx_mul_one, lemma_fx_percent_ends, Fx, FX_HALF,
    FX_ONE, FX_VAL_LIMIT};

verus! {

/// Coefficient 0 of the power series for `2^-f`: `(ln 2)^0 / 0!`, exactly 1.
pub const EXP_A0: i64 = 1099511627776;

/// Coefficient 1 of the power series for `2^-f`: `(ln 2)^1 / 1!`.
pub const EXP_A1: i64 = 762123384786;

/// Coefficient 2 of the power series for `2^-f`: `(ln 2)^2 / 2!`.
pub const EXP_A2: i64 = 264131837702;

/// Coefficient 3 of the power series for `2^-f`: `(ln 2)^3 / 3!`.
pub const EXP_A3: i64 = 61027412866;

/// Coefficient 4 of the power series for `2^-f`: `(ln 2)^4 / 4!`.
pub const EXP_A4: i64 = 10575244791;

/// Coefficient 5 of the power series for `2^-f`: `(ln 2)^5 / 5!`.
pub const EXP_A5: i64 = 1466040222;

/// Coefficient 6 of the power series for `2^-f`: `(ln 2)^6 / 6!`.
pub const EXP_A6: i64 = 169363608;

/// Coefficient 7 of the power series for `2^-f`: `(ln 2)^7 / 7!`.
pub const EXP_A7: i64 = 16770558;

/// Coefficient 8 of the power series for `2^-f`: `(ln 2)^8 / 8!`.
pub const EXP_A8: i64 = 1453058;

/// Coefficient 9 of the power series for `2^-f`: `(ln 2)^9 / 9!`.
pub const EXP_A9: i64 = 111909;

/// Coefficient 10 of the power series for `2^-f`: `(ln 2)^10 / 10!`.
pub const EXP_A10: i64 = 7757;

/// Coefficient 11 of the power series for `2^-f`: `(ln 2)^11 / 11!`.
pub const EXP_A11: i64 = 489;

/// The truncated alternating power series for `2^-f`, evaluated by Horner's
/// rule on a fraction `f` in `[0.0, 1.0)`.
pub open spec fn exp2_poly_spec(f: int) -> int {
    let r11 = EXP_A11 as int;
    let r10 = EXP_A10 - fx_mul_spec(f, r11);
    let r9 = EXP_A9 - fx_mul_spec(f, r10);
    let r8 = EXP_A8 - fx_mul_spec(f, r9);
    let r7 = EXP_A7 - fx_mul_spec(f, r8);
    let r6 = EXP_A6 - fx_mul_spec(f, r7);
    let r5 = EXP_A5 - fx_mul_spec(f, r6);
    let r4 = EXP_A4 - fx_mul_spec(f, r5);
    let r3 = EXP_A3 - fx_mul_spec(f, r4);
    let r2 = EXP_A2 - fx_mul_spec(f, r3);
    let r1 = EXP_A1 - fx_mul_spec(f, r2);
    EXP_A0 - fx_mul_spec(f, r1)
}

/// Clamps a scalar to `[0.0, 1.0]`.
pub open spec fn fx_clamp_unit_spec(x: int) -> int {
    if x < 0 {
        0
    } else if x > FX_ONE {
        FX_ONE as int
    } else {
        x
    }
}

/// `2^n` for the small whole exponents that can arise here.
pub open spec fn pow2_small_spec(n: int) -> int {
    if n <= 0 {
        1
    } else if n == 1 {
        2
    } else if n == 2 {
        4
    } else if n == 3 {
        8
    } else if n == 4 {
        16
    } else if n == 5 {
        32
    } else if n == 6 {
        64
    } else if n == 7 {
        128
    } else if n == 8 {
        256
    } else if n == 9 {
        512
    } else {
        1024
    }
}

/// What `fx_exp2_neg` returns for an argument `y` in `[0.0, 10.0]`:
/// `2^-y`, as the clamped series value for the fractional part of `y`
/// divided by the power of two of its whole part.
pub open spec fn exp2_neg_spec(y: int) -> int {
    fx_clamp_unit_spec(exp2_poly_spec(y % (FX_ONE as int))) / pow2_small_spec(
        y / (FX_ONE as int),
    )
}

/// `2^-y` in fixed point, for `y` in `[0.0, 10.0]`; the result lies in
/// `[0.0, 1.0]`, and is exactly 1.0 at `y == 0`.
pub fn fx_exp2_neg(y: i64) -> (r: i64)
    requires
        0 <= y <= 10 * FX_ONE,
    ensures
        r as int == exp2_neg_spec(y as int),
        0 <= r <= FX_ONE,
{
    let yu: u64 = y as u64;
    let n: u64 = yu / (FX_ONE as u64);
    let fr: u64 = yu % (FX_ONE as u64);
    let f: i64 = fr as i64;
    let r11: i64 = EXP_A11;
    proof {
        lemma_abs_product_bound(f as int, r11 as int, FX_ONE as int, FX_ONE as int);
        lemma_fx_mul_comm(f as int, r11 as int);
        lemma_fx_mul_abs(r11 as int, f as int, FX_ONE as int);
    }
    let r10: i64 = EXP_A10 - fx_mul_bits(f, r11);
    proof {
        lemma_abs_product_bound(f as int, r10 as int, FX_ONE as int, 2 * FX_ONE);
        lemma_fx_mul_comm(f as int, r10 as int);
        lemma_fx_mul_abs(r10 as int, f as int, 2 * FX_ONE);
    }
    let r9: i64 = EXP_A9 - fx_mul_bits(f, r10);
    proof {
        lemma_abs_product_bound(f as int, r9 as int, FX_ONE as int, 3 * FX_ONE);
        lemma_fx_mul_comm(f as int, r9 as int);
        lemma_fx_mul_abs(r9 as int, f as int, 3 * FX_ONE);
    }
    let r8: i64 = EXP_A8 - fx_mul_bits(f, r9);
    proof {
        lemma_abs_product_bound(f as int, r8 as int, FX_ONE as int, 4 * FX_ONE);
        lemma_fx_mul_comm(f as int, r8 as int);
        lemma_fx_mul_abs(r8 as int, f as int, 4 * FX_ONE);
    }
    let r7: i64 = EXP_A7 - fx_mul_bits(f, r8);
    proof {
        lemma_abs_product_bound(f as int, r7 as int, FX_ONE as int, 5 * FX_ONE);
        lemma_fx_mul_comm(f as int, r7 as int);
        lemma_fx_mul_abs(r7 as int, f as int, 5 * FX_ONE);
    }
    let r6: i64 = EXP_A6 - fx_mul_bits(f, r7);
    proof {
        lemma_abs_product_bound(f as int, r6 as int, FX_ONE as int, 6 * FX_ONE);
        lemma_fx_mul_comm(f as int, r6 as int);
        lemma_fx_mul_abs(r6 as int, f as int, 6 * FX_ONE);
    }
    let r5: i64 = EXP_A5 - fx_mul_bits(f, r6);
    proof {
        lemma_abs_product_bound(f as int, r5 as int, FX_ONE as int, 7 * FX_ONE);
        lemma_fx_mul_comm(f as int, r5 as int);
        lemma_fx_mul_abs(r5 as int, f as int, 7 * FX_ONE);
    }
    let r4: i64 = EXP_A4 - fx_mul_bits(f, r5);
    proof {
        lemma_abs_product_bound(f as int, r4 as int, FX_ONE as int, 8 * FX_ONE);
        lemma_fx_mul_comm(f as int, r4 as int);
        lemma_fx_mul_abs(r4 as int, f as int, 8 * FX_ONE);
    }
    let r3: i64 = EXP_A3 - fx_mul_bits(f, r4);
    proof {
        lemma_abs_product_bound(f as int, r3 as int, FX_ONE as int, 9 * FX_ONE);
        lemma_fx_mul_comm(f as int, r3 as int);
        lemma_fx_mul_abs(r3 as int, f as int, 9 * FX_ONE);
    }
    let r2: i64 = EXP_A2 - fx_mul_bits(f, r3);
    proof {
        lemma_abs_product_bound(f as int, r2 as int, FX_ONE as int, 10 * FX_ONE);
        lemma_fx_mul_comm(f as int, r2 as int);
        lemma_fx_mul_abs(r2 as int, f as int, 10 * FX_ONE);
    }
    let r1: i64 = EXP_A1 - fx_mul_bits(f, r2);
    proof {
        lemma_abs_product_bound(f as int, r1 as int, FX_ONE as int, 11 * FX_ONE);
        lemma_fx_mul_comm(f as int, r1 as int);
        lemma_fx_mul_abs(r1 as int, f as int, 11 * FX_ONE);
    }
    let r0: i64 = EXP_A0 - fx_mul_bits(f, r1);
    let c: i64 = if r0 < 0 {
        0
    } else if r0 > FX_ONE {
        FX_ONE
    } else {
        r0
    };
    let cu: u64 = c as u64;
    let out: u64 = if n == 0 {
        cu
    } else if n == 1 {
        cu / 2
    } else if n == 2 {
        cu / 4
    } else if n == 3 {
        cu / 8
    } else if n == 4 {
        cu / 16
    } else if n == 5 {
        cu / 32
    } else if n == 6 {
        cu / 64
    } else if n == 7 {
        cu / 128
    } else if n == 8 {
        cu / 256
    } else if n == 9 {
        cu / 512
    } else {
        cu / 1024
    };
    out as i64
}

/// The In multiplier: `2^(10 (t - 1))`.
pub open spec fn expo_in_multiplier_spec(t: int) -> int {
    exp2_neg_spec(10 * (FX_ONE - t))
}

/// The Out multiplier: `1 - 2^(-10 t)`.
pub open spec fn expo_out_multiplier_spec(t: int) -> int {
    FX_ONE - exp2_neg_spec(10 * t)
}

/// What `ExpoIn::evaluate` returns, bit for bit.
pub open spec fn expo_in_eval_spec(start: int, delta: int, dur: int, e: int) -> int {
    if e == 0 {
        start
    } else {
        start + fx_mul_spec(delta, expo_in_multiplier_spec(fx_percent_spec(dur, e)))
    }
}

/// What `ExpoOut::evaluate` returns, bit for bit.
pub open spec fn expo_out_eval_spec(start: int, delta: int, dur: int, e: int) -> int {
    if e == dur {
        start + delta
    } else {
        start + fx_mul_spec(delta, expo_out_multiplier_spec(fx_percent_spec(dur, e)))
    }
}

/// What `ExpoInOut::evaluate` returns, bit for bit.
pub open spec fn expo_in_out_eval_spec(start: int, delta: int, dur: int, e: int) -> int {
    if e == 0 {
        start
    } else if e == dur {
        start + delta
    } else {
        let p = 2 * fx_percent_spec(dur, e);
        if p < FX_ONE {
            start + fx_mul_spec(delta, exp2_neg_spec(10 * (FX_ONE - p)) / 2)
        } else {
            start + fx_mul_spec(delta, (2 * FX_ONE - exp2_neg_spec(10 * (p - FX_ONE))) / 2)
        }
    }
}

/// A tween that eases in along the exponential curve.
#[derive(Clone, Copy, Debug, PartialEq, Eq, Structural)]
pub struct ExpoIn {
    pub start: Fx,
    pub end: Fx,
    pub value_delta: Fx,
    pub duration: Fx,
}

impl ExpoIn {
    /// Configuration values are in range and the cached delta is consistent.
    pub open spec fn wf(&self) -> bool {
        &&& -FX_VAL_LIMIT <= self.start.bits <= FX_VAL_LIMIT
        &&& -FX_VAL_LIMIT <= self.end.bits <= FX_VAL_LIMIT
        &&& 0 <= self.duration.bits <= FX_VAL_LIMIT
        &&& self.value_delta.bits == self.end.bits - self.start.bits
    }

    pub fn new(range_start: Fx, range_end: Fx, duration: Fx) -> (r: ExpoIn)
        requires
            -FX_VAL_LIMIT <= range_start.bits <= FX_VAL_LIMIT,
            -FX_VAL_LIMIT <= range_end.bits <= FX_VAL_LIMIT,
            0 <= duration.bits <= FX_VAL_LIMIT,
        ensures
            r.wf(),
            r.start == range_start,
            r.end == range_end,
            r.duration == duration,
    {
        let value_delta = Fx::calculate_delta(range_end, range_start);
        ExpoIn { start: range_start, end: range_end, value_delta, duration }
    }

    /// The interpolated value for `current_time`.  At time zero the result
    /// is exactly `start`.
    pub fn evaluate(&self, current_time: Fx) -> (r: Fx)
        requires
            self.wf(),
            0 <= current_time.bits <= self.duration.bits,
        ensures
            r.bits == expo_in_eval_spec(
                self.start.bits as int,
                self.value_delta.bits as int,
                self.duration.bits as int,
                current_time.bits as int,
            ),
    {
        if current_time.bits == 0 {
            Fx { bits: self.start.bits }
        } else {
            let t = Fx::percent(self.duration, current_time);
            let yexp: i64 = 10 * (FX_ONE - t.bits);
            let m: i64 = fx_exp2_neg(yexp);
            proof {
                lemma_abs_product_bound(
                    self.value_delta.bits as int,
                    m as int,
                    2 * FX_VAL_LIMIT,
                    FX_ONE as int,
                );
                lemma_fx_mul_abs(self.value_delta.bits as int, m as int, 2 * FX_VAL_LIMIT);
            }
            let v: i64 = fx_mul_bits(self.value_delta.bits, m);
            Fx { bits: self.start.bits + v }
        }
    }

    /// The configured range, as `(start, end)`.
    pub fn range(&self) -> (r: (Fx, Fx))
        ensures
            r.0 == self.start,
            r.1 == self.end,
    {
        (self.start, self.end)
    }

    /// The configured duration.
    pub fn duration(&self) -> (r: Fx)
        ensures
            r == self.duration,
    {
        self.duration
    }
}

/// A tween that eases out along the exponential curve.
#[derive(Clone, Copy, Debug, PartialEq, Eq, Structural)]
pub struct ExpoOut {
    pub start: Fx,
    pub end: Fx,
    pub value_delta: Fx,
    pub duration: Fx,
}

impl ExpoOut {
    /// Configuration values are in range and the cached delta is consistent.
    pub open spec fn wf(&self) -> bool {
        &&& -FX_VAL_LIMIT <= self.start.bits <= FX_VAL_LIMIT
        &&& -FX_VAL_LIMIT <= self.end.bits <= FX_VAL_LIMIT
        &&& 0 <= self.duration.bits <= FX_VAL_LIMIT
        &&& self.value_delta.bits == self.end.bits - self.start.bits
    }

    pub fn new(range_start: Fx, range_end: Fx, duration: Fx) -> (r: ExpoOut)
        requires
            -FX_VAL_LIMIT <= range_start.bits <= FX_VAL_LIMIT,
            -FX_VAL_LIMIT <= range_end.bits <= FX_VAL_LIMIT,
            0 <= duration.bits <= FX_VAL_LIMIT,
        ensures
            r.wf(),
            r.start == range_start,
            r.end == range_end,
            r.duration == duration,
    {
        let value_delta = Fx::calculate_delta(range_end, range_start);
        ExpoOut { start: range_start, end: range_end, value_delta, duration }
    }

    /// The interpolated value for `current_time`.  At the full duration the
    /// result is exactly `end`.
    pub fn evaluate(&self, current_time: Fx) -> (r: Fx)
        requires
            self.wf(),
            0 <= current_time.bits <= self.duration.bits,
        ensures
            r.bits == expo_out_eval_spec(
                self.start.bits as int,
                self.value_delta.bits as int,
                self.duration.bits as int,
                current_time.bits as int,
            ),
    {
        if current_time.bits == self.duration.bits {
            Fx { bits: self.end.bits }
        } else {
            let t = Fx::percent(self.duration, current_time);
            let yexp: i64 = 10 * t.bits;
            let e2: i64 = fx_exp2_neg(yexp);
            let m: i64 = FX_ONE - e2;
            proof {
                lemma_abs_product_bound(
                    self.value_delta.bits as int,
                    m as int,
                    2 * FX_VAL_LIMIT,
                    FX_ONE as int,
                );
                lemma_fx_mul_abs(self.value_delta.bits as int, m as int, 2 * FX_VAL_LIMIT);
            }
            let v: i64 = fx_mul_bits(self.value_delta.bits, m);
            Fx { bits: self.start.bits + v }
        }
    }

    /// The configured range, as `(start, end)`.
    pub fn range(&self) -> (r: (Fx, Fx))
        ensures
            r.0 == self.start,
            r.1 == self.end,
    {
        (self.start, self.end)
    }

    /// The configured duration.
    pub fn duration(&self) -> (r: Fx)
        ensures
            r == self.duration,
    {
        self.duration
    }
}

/// A tween that eases exponentially in over the first half of its duration
/// and out over the second half.
#[derive(Clone, Copy, Debug, PartialEq, Eq, Structural)]
pub struct ExpoInOut {
    pub start: Fx,
    pub end: Fx,
    pub value_delta: Fx,
    pub duration: Fx,
}

impl ExpoInOut {
    /// Configuration values are in range and the cached delta is consistent.
    pub open spec fn wf(&self) -> bool {
        &&& -FX_VAL_LIMIT <= self.start.bits <= FX_VAL_LIMIT
        &&& -FX_VAL_LIMIT <= self.end.bits <= FX_VAL_LIMIT
        &&& 0 <= self.duration.bits <= FX_VAL_LIMIT
        &&& self.value_delta.bits == self.end.bits - self.start.bits
    }

    pub fn new(range_start: Fx, range_end: Fx, duration: Fx) -> (r: ExpoInOut)
        requires
            -FX_VAL_LIMIT <= range_start.bits <= FX_VAL_LIMIT,
            -FX_VAL_LIMIT <= range_end.bits <= FX_VAL_LIMIT,
            0 <= duration.bits <= FX_VAL_LIMIT,
        ensures
            r.wf(),
            r.start == range_start,
            r.end == range_end,
            r.duration == duration,
    {
        let value_delta = Fx::calculate_delta(range_end, range_start);
        ExpoInOut { start: range_start, end: range_end, value_delta, duration }
    }

    /// The interpolated value for `current_time`.  At time zero the result
    /// is exactly `start`; at the full duration it is exactly `end`.
    pub fn evaluate(&self, current_time: Fx) -> (r: Fx)
        requires
            self.wf(),
            0 <= current_time.bits <= self.duration.bits,
        ensures
            r.bits == expo_in_out_eval_spec(
                self.start.bits as int,
                self.value_delta.bits as int,
                self.duration.bits as int,
                current_time.bits as int,
            ),
    {
        if current_time.bits == 0 {
            Fx { bits: self.start.bits }
        } else if current_time.bits == self.duration.bits {
            Fx { bits: self.end.bits }
        } else {
            let t = Fx::percent(self.duration, current_time);
            let p: i64 = 2 * t.bits;
            let m: i64 = if p < FX_ONE {
                let yexp: i64 = 10 * (FX_ONE - p);
                let e2: i64 = fx_exp2_neg(yexp);
                ((e2 as u64) / 2) as i64
            } else {
                let q: i64 = p - FX_ONE;
                let yexp: i64 = 10 * q;
                let e2: i64 = fx_exp2_neg(yexp);
                let num: i64 = 2 * FX_ONE - e2;
                ((num as u64) / 2) as i64
            };
            proof {
                lemma_abs_product_bound(
                    self.value_delta.bits as int,
                    m as int,
                    2 * FX_VAL_LIMIT,
                    FX_ONE as int,
                );
                lemma_fx_mul_abs(self.value_delta.bits as int, m as int, 2 * FX_VAL_LIMIT);
            }
            let v: i64 = fx_mul_bits(self.value_delta.bits, m);
            Fx { bits: self.start.bits + v }
        }
    }

    /// The configured range, as `(start, end)`.
    pub fn range(&self) -> (r: (Fx, Fx))
        ensures
            r.0 == self.start,
            r.1 == self.end,
    {
        (self.start, self.end)
    }

    /// The configured duration.
    pub fn duration(&self) -> (r: Fx)
        ensures
            r == self.duration,
    {
        self.duration
    }
}

/// At zero the power of two is exactly 1.0.
pub proof fn lemma_exp2_neg_zero()
    ensures
        exp2_neg_spec(0) == FX_ONE as int,
{
    let one = FX_ONE as int;
    assert(0int % one == 0);
    assert(0int / one == 0);
    assert(exp2_poly_spec(0) == EXP_A0);
    assert(fx_clamp_unit_spec(one) == one);
    assert(one / 1 == one);
}

/// Endpoint law: `ExpoIn` starts exactly at `start` and ends exactly at
/// `start + delta`.
pub proof fn lemma_expo_in_endpoints(start: int, delta: int, dur: int)
    requires
        1 <= dur,
    ensures
        expo_in_eval_spec(start, delta, dur, 0) == start,
        expo_in_eval_spec(start, delta, dur, dur) == start + delta,
{
    lemma_fx_percent_ends(dur);
    lemma_exp2_neg_zero();
    lemma_fx_mul_one(delta);
}

/// Endpoint law: `ExpoOut` starts exactly at `start` and ends exactly at
/// `start + delta`.
pub proof fn lemma_expo_out_endpoints(start: int, delta: int, dur: int)
    requires
        1 <= dur,
    ensures
        expo_out_eval_spec(start, delta, dur, 0) == start,
        expo_out_eval_spec(start, delta, dur, dur) == start + delta,
{
    lemma_fx_percent_ends(dur);
    lemma_exp2_neg_zero();
    assert(fx_mul_spec(delta, 0) == 0);
}

/// Endpoint law: `ExpoInOut` starts exactly at `start` and ends exactly at
/// `start + delta`.
pub proof fn lemma_expo_in_out_endpoints(start: int, delta: int, dur: int)
    requires
        1 <= dur,
    ensures
        expo_in_out_eval_spec(start, delta, dur, 0) == start,
        expo_in_out_eval_spec(start, delta, dur, dur) == start + delta,
{
}

/// Reflection law: the In multiplier at `t` and the Out multiplier at
/// `1.0 - t` sum exactly to 1.0.
pub proof fn lemma_expo_mirror(t: int)
    ensures
        expo_in_multiplier_spec(t) + expo_out_multiplier_spec(FX_ONE as int - t) == FX_ONE as int,
{
}

/// Midpoint continuity: at exactly half the duration the first-half and the
/// second-half In-Out formulas give the same value.
pub proof fn lemma_expo_in_out_midpoint(delta: int, dur: int, e: int)
    requires
        1 <= dur,
        2 * e == dur,
    ensures
        fx_mul_spec(delta, exp2_neg_spec(10 * (FX_ONE - 2 * fx_percent_spec(dur, e))) / 2)
            == fx_mul_spec(
            delta,
            (2 * FX_ONE - exp2_neg_spec(10 * (2 * fx_percent_spec(dur, e) - FX_ONE))) / 2,
        ),
{
    let one = FX_ONE as int;
    let half = FX_HALF as int;
    assert(e * one == (2 * e) * half) by (nonlinear_arith)
        requires
            one == 2 * half,
    ;
    lemma_div_multiples_vanish(half, dur);
    assert((2 * e) * half == dur * half) by (nonlinear_arith)
        requires
            2 * e == dur,
    ;
    assert(fx_percent_spec(dur, e) == half);
    lemma_exp2_neg_zero();
}

/// Zero-range stability: a tween whose range has equal endpoints yields
/// `start` at every time.
pub proof fn lemma_expo_zero_range(start: int, dur: int, e: int)
    requires
        0 <= e <= dur,
    ensures
        expo_in_eval_spec(start, 0, dur, e) == start,
        expo_out_eval_spec(start, 0, dur, e) == start,
        expo_in_out_eval_spec(start, 0, dur, e) == start,
{
    let t = fx_percent_spec(dur, e);
    assert(fx_mul_spec(0, expo_in_multiplier_spec(t)) == 0);
    assert(fx_mul_spec(0, expo_out_multiplier_spec(t)) == 0);
    assert(fx_mul_spec(0, exp2_neg_spec(10 * (FX_ONE - 2 * t)) / 2) == 0);
    assert(fx_mul_spec(0, (2 * FX_ONE - exp2_neg_spec(10 * (2 * t - FX_ONE))) / 2) == 0);
}

/// Sampling idempotence: two evaluations of the same variant at the same
/// time return the same value, since each result is a function of the
/// configuration and the time alone.
pub proof fn lemma_expo_evaluate_repeatable(
    start: int,
    delta: int,
    dur: int,
    e: int,
    r1: int,
    r2: int,
)
    requires
        r1 == expo_in_eval_spec(start, delta, dur, e),
        r2 == expo_in_eval_spec(start, delta, dur, e),
    ensures
        r1 == r2,
{
}

} // verus!
