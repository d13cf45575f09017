//! The bounce easing family.
//!
//! The Out curve is a four-stage piecewise parabola that overshoots and
//! settles like a dropped ball; the In curve is the same shape mirrored in
//! both time and value, and the In-Out variant runs the In shape over the
//! first half of the duration and the Out shape over the second half, each
//! scaled to half the value delta.

use vstd::prelude::*;
use crate::fixed::{fx_mul_bits, fx_mul_spec, fx_percent_spec, lemma_abs_product_bound,
    lemma_div_shift_multiple, lemma_fx_mul_abs, lemma_fx_mul_bounds, lemma_fx_mul_le,
    lemma_fx_percent_ends, lemma_fx_percent_half_split, lemma_fx_square_unit, Fx, FX_HALF,
    FX_ONE, FX_VAL_LIMIT};

verus! {

/// The parabola coefficient 7.5625 of the bounce shape.
pub const BOUNCE_MAGIC: i64 = 8315056685056;

/// Stage boundary 1/2.75 of the elapsed fraction.
pub const BOUNCE_B0: i64 = 399822410100;

/// Stage boundary 2/2.75.
pub const BOUNCE_B1: i64 = 799644820201;

/// Stage boundary 2.5/2.75.
pub const BOUNCE_B2: i64 = 999556025251;

/// Vertex offset 1.5/2.75 of the second parabola arc.
pub const BOUNCE_O1: i64 = 599733615151;

/// Vertex offset 2.25/2.75 of the third parabola arc.
pub const BOUNCE_O2: i64 = 899600422726;

/// Vertex offset 2.625/2.75 of the fourth parabola arc.
pub const BOUNCE_O3: i64 = 1049533826513;

/// Height offset 0.75 of the second parabola arc.
pub const BOUNCE_K1: i64 = 824633720832;

/// Height offset 0.9375 of the third parabola arc.
pub const BOUNCE_K2: i64 = 1030792151040;

/// Height offset 0.984375 of the fourth parabola arc.
pub const BOUNCE_K3: i64 = 1082331758592;

/// The Out multiplier: four parabola arcs stitched over the elapsed
/// fraction.
pub open spec fn bounce_multiplier_spec(t: int) -> int {
    if t < BOUNCE_B0 {
        fx_mul_spec(BOUNCE_MAGIC as int, fx_mul_spec(t, t))
    } else if t < BOUNCE_B1 {
        fx_mul_spec(BOUNCE_MAGIC as int, fx_mul_spec(t - BOUNCE_O1, t - BOUNCE_O1)) + BOUNCE_K1
    } else if t < BOUNCE_B2 {
        fx_mul_spec(BOUNCE_MAGIC as int, fx_mul_spec(t - BOUNCE_O2, t - BOUNCE_O2)) + BOUNCE_K2
    } else {
        fx_mul_spec(BOUNCE_MAGIC as int, fx_mul_spec(t - BOUNCE_O3, t - BOUNCE_O3)) + BOUNCE_K3
    }
}

/// What `BounceOut::evaluate` returns, bit for bit.
pub open spec fn bounce_out_eval_spec(start: int, delta: int, dur: int, e: int) -> int {
    start + fx_mul_spec(delta, bounce_multiplier_spec(fx_percent_spec(dur, e)))
}

/// What `BounceIn::evaluate` returns, bit for bit: the Out shape run on the
/// reversed time, subtracted from the delta.
pub open spec fn bounce_in_eval_spec(start: int, delta: int, dur: int, e: int) -> int {
    start + (delta - fx_mul_spec(delta, bounce_multiplier_spec(fx_percent_spec(dur, dur - e))))
}

/// First-half In-Out value: the In shape on the doubled time, scaled to half
/// the delta.
pub open spec fn bounce_in_out_first_spec(start: int, delta: int, dur: int, e: int) -> int {
    start + fx_mul_spec(
        delta - fx_mul_spec(delta, bounce_multiplier_spec(fx_percent_spec(dur, dur - 2 * e))),
        FX_HALF as int,
    )
}

/// Second-half In-Out value: the Out shape on the doubled and shifted time,
/// scaled to half the delta and offset by it.
pub open spec fn bounce_in_out_second_spec(start: int, delta: int, dur: int, e: int) -> int {
    start + fx_mul_spec(
        fx_mul_spec(delta, bounce_multiplier_spec(fx_percent_spec(dur, 2 * e - dur))),
        FX_HALF as int,
    ) + fx_mul_spec(delta, FX_HALF as int)
}

/// What `BounceInOut::evaluate` returns, bit for bit.
pub open spec fn bounce_in_out_eval_spec(start: int, delta: int, dur: int, e: int) -> int {
    if fx_percent_spec(dur, e) < FX_HALF {
        bounce_in_out_first_spec(start, delta, dur, e)
    } else {
        bounce_in_out_second_spec(start, delta, dur, e)
    }
}

/// The Out multiplier for a fraction in `[0.0, 1.0]`; the result also lies
/// in `[0.0, 1.0]`.
fn bounce_multiplier(t: i64) -> (r: i64)
    requires
        0 <= t <= FX_ONE,
    ensures
        r as int == bounce_multiplier_spec(t as int),
        0 <= r <= FX_ONE,
{
    if t < BOUNCE_B0 {
        proof {
            lemma_abs_product_bound(t as int, t as int, FX_ONE as int, FX_ONE as int);
        }
        let sq: i64 = fx_mul_bits(t, t);
        proof {
            lemma_fx_square_unit(t as int);
            lemma_fx_mul_bounds(t as int, t as int, BOUNCE_B0 as int, BOUNCE_B0 as int);
            lemma_abs_product_bound(BOUNCE_MAGIC as int, sq as int, BOUNCE_MAGIC as int, FX_ONE as int);
        }
        let m: i64 = fx_mul_bits(BOUNCE_MAGIC, sq);
        proof {
            lemma_fx_mul_le(BOUNCE_MAGIC as int, sq as int);
            assert(((BOUNCE_B0 as int) * (BOUNCE_B0 as int)) / (FX_ONE as int)
                == 145389967308int) by (nonlinear_arith)
                requires
                    BOUNCE_B0 as int == 399822410100int,
                    FX_ONE as int == 1099511627776int,
            ;
            lemma_fx_mul_bounds(BOUNCE_MAGIC as int, sq as int, BOUNCE_MAGIC as int, 145389967308);
            assert(((BOUNCE_MAGIC as int) * 145389967308int) / (FX_ONE as int)
                == 1099511627766int) by (nonlinear_arith)
                requires
                    BOUNCE_MAGIC as int == 8315056685056int,
                    FX_ONE as int == 1099511627776int,
            ;
        }
        m
    } else if t < BOUNCE_B1 {
        let u: i64 = t - BOUNCE_O1;
        proof {
            lemma_abs_product_bound(u as int, u as int, FX_ONE as int, FX_ONE as int);
        }
        let sq: i64 = fx_mul_bits(u, u);
        proof {
            lemma_fx_square_unit(u as int);
            lemma_fx_mul_bounds(u as int, u as int, 199911205051, 199911205051);
            lemma_abs_product_bound(BOUNCE_MAGIC as int, sq as int, BOUNCE_MAGIC as int, FX_ONE as int);
        }
        let m: i64 = fx_mul_bits(BOUNCE_MAGIC, sq);
        proof {
            lemma_fx_mul_le(BOUNCE_MAGIC as int, sq as int);
            assert((199911205051int * 199911205051int) / (FX_ONE as int) == 36347491827int) by (nonlinear_arith)
                requires
                    FX_ONE as int == 1099511627776int,
            ;
            lemma_fx_mul_bounds(BOUNCE_MAGIC as int, sq as int, BOUNCE_MAGIC as int, 36347491827);
            assert(((BOUNCE_MAGIC as int) * 36347491827int) / (FX_ONE as int) == 274877906941int)
                by (nonlinear_arith)
                requires
                    BOUNCE_MAGIC as int == 8315056685056int,
                    FX_ONE as int == 1099511627776int,
            ;
        }
        m + BOUNCE_K1
    } else if t < BOUNCE_B2 {
        let u: i64 = t - BOUNCE_O2;
        proof {
            lemma_abs_product_bound(u as int, u as int, FX_ONE as int, FX_ONE as int);
        }
        let sq: i64 = fx_mul_bits(u, u);
        proof {
            lemma_fx_square_unit(u as int);
            lemma_fx_mul_bounds(u as int, u as int, 99955602525, 99955602525);
            lemma_abs_product_bound(BOUNCE_MAGIC as int, sq as int, BOUNCE_MAGIC as int, FX_ONE as int);
        }
        let m: i64 = fx_mul_bits(BOUNCE_MAGIC, sq);
        proof {
            lemma_fx_mul_le(BOUNCE_MAGIC as int, sq as int);
            assert((99955602525int * 99955602525int) / (FX_ONE as int) == 9086872956int) by (nonlinear_arith)
                requires
                    FX_ONE as int == 1099511627776int,
            ;
            lemma_fx_mul_bounds(BOUNCE_MAGIC as int, sq as int, BOUNCE_MAGIC as int, 9086872956);
            assert(((BOUNCE_MAGIC as int) * 9086872956int) / (FX_ONE as int) == 68719476729int)
                by (nonlinear_arith)
                requires
                    BOUNCE_MAGIC as int == 8315056685056int,
                    FX_ONE as int == 1099511627776int,
            ;
        }
        m + BOUNCE_K2
    } else {
        let u: i64 = t - BOUNCE_O3;
        proof {
            lemma_abs_product_bound(u as int, u as int, FX_ONE as int, FX_ONE as int);
        }
        let sq: i64 = fx_mul_bits(u, u);
        proof {
            lemma_fx_square_unit(u as int);
            lemma_fx_mul_bounds(u as int, u as int, 49977801263, 49977801263);
            lemma_abs_product_bound(BOUNCE_MAGIC as int, sq as int, BOUNCE_MAGIC as int, FX_ONE as int);
        }
        let m: i64 = fx_mul_bits(BOUNCE_MAGIC, sq);
        proof {
            lemma_fx_mul_le(BOUNCE_MAGIC as int, sq as int);
            assert((49977801263int * 49977801263int) / (FX_ONE as int) == 2271718239int) by (nonlinear_arith)
                requires
                    FX_ONE as int == 1099511627776int,
            ;
            lemma_fx_mul_bounds(BOUNCE_MAGIC as int, sq as int, BOUNCE_MAGIC as int, 2271718239);
            assert(((BOUNCE_MAGIC as int) * 2271718239int) / (FX_ONE as int) == 17179869182int)
                by (nonlinear_arith)
                requires
                    BOUNCE_MAGIC as int == 8315056685056int,
                    FX_ONE as int == 1099511627776int,
            ;
        }
        m + BOUNCE_K3
    }
}

/// A tween that eases in along the bounce curve.
#[derive(Clone, Copy, Debug, PartialEq, Eq, Structural)]
pub struct BounceIn {
    pub start: Fx,
    pub end: Fx,
    pub value_delta: Fx,
    pub duration: Fx,
}

impl BounceIn {
    /// Configuration values are in range and the cached delta is consistent.
    pub open spec fn wf(&self) -> bool {
        &&& -FX_VAL_LIMIT <= self.start.bits <= FX_VAL_LIMIT
        &&& -FX_VAL_LIMIT <= self.end.bits <= FX_VAL_LIMIT
        &&& 0 <= self.duration.bits <= FX_VAL_LIMIT
        &&& self.value_delta.bits == self.end.bits - self.start.bits
    }

    pub fn new(range_start: Fx, range_end: Fx, duration: Fx) -> (r: BounceIn)
        requires
            -FX_VAL_LIMIT <= range_start.bits <= FX_VAL_LIMIT,
            -FX_VAL_LIMIT <= range_end.bits <= FX_VAL_LIMIT,
            0 <= duration.bits <= FX_VAL_LIMIT,
        ensures
            r.wf(),
            r.start == range_start,
            r.end == range_end,
            r.duration == duration,
    {
        let value_delta = Fx::calculate_delta(range_end, range_start);
        BounceIn { start: range_start, end: range_end, value_delta, duration }
    }

    /// The interpolated value for `current_time`.
    pub fn evaluate(&self, current_time: Fx) -> (r: Fx)
        requires
            self.wf(),
            0 <= current_time.bits <= self.duration.bits,
        ensures
            r.bits == bounce_in_eval_spec(
                self.start.bits as int,
                self.value_delta.bits as int,
                self.duration.bits as int,
                current_time.bits as int,
            ),
    {
        let rev: i64 = self.duration.bits - current_time.bits;
        let t = Fx::percent(self.duration, Fx { bits: rev });
        let m: i64 = bounce_multiplier(t.bits);
        proof {
            lemma_abs_product_bound(
                self.value_delta.bits as int,
                m as int,
                2 * FX_VAL_LIMIT,
                FX_ONE as int,
            );
            lemma_fx_mul_abs(self.value_delta.bits as int, m as int, 2 * FX_VAL_LIMIT);
        }
        let v: i64 = fx_mul_bits(self.value_delta.bits, m);
        Fx { bits: self.start.bits + (self.value_delta.bits - v) }
    }

    /// The configured range, as `(start, end)`.
    pub fn range(&self) -> (r: (Fx, Fx))
        ensures
            r.0 == self.start,
            r.1 == self.end,
    {
        (self.start, self.end)
    }

    /// The configured duration.
    pub fn duration(&self) -> (r: Fx)
        ensures
            r == self.duration,
    {
        self.duration
    }
}

/// A tween that eases out along the bounce curve.
#[derive(Clone, Copy, Debug, PartialEq, Eq, Structural)]
pub struct BounceOut {
    pub start: Fx,
    pub end: Fx,
    pub value_delta: Fx,
    pub duration: Fx,
}

impl BounceOut {
    /// Configuration values are in range and the cached delta is consistent.
    pub open spec fn wf(&self) -> bool {
        &&& -FX_VAL_LIMIT <= self.start.bits <= FX_VAL_LIMIT
        &&& -FX_VAL_LIMIT <= self.end.bits <= FX_VAL_LIMIT
        &&& 0 <= self.duration.bits <= FX_VAL_LIMIT
        &&& self.value_delta.bits == self.end.bits - self.start.bits
    }

    pub fn new(range_start: Fx, range_end: Fx, duration: Fx) -> (r: BounceOut)
        requires
            -FX_VAL_LIMIT <= range_start.bits <= FX_VAL_LIMIT,
            -FX_VAL_LIMIT <= range_end.bits <= FX_VAL_LIMIT,
            0 <= duration.bits <= FX_VAL_LIMIT,
        ensures
            r.wf(),
            r.start == range_start,
            r.end == range_end,
            r.duration == duration,
    {
        let value_delta = Fx::calculate_delta(range_end, range_start);
        BounceOut { start: range_start, end: range_end, value_delta, duration }
    }

    /// The interpolated value for `current_time`.
    pub fn evaluate(&self, current_time: Fx) -> (r: Fx)
        requires
            self.wf(),
            0 <= current_time.bits <= self.duration.bits,
        ensures
            r.bits == bounce_out_eval_spec(
                self.start.bits as int,
                self.value_delta.bits as int,
                self.duration.bits as int,
                current_time.bits as int,
            ),
    {
        let t = Fx::percent(self.duration, current_time);
        let m: i64 = bounce_multiplier(t.bits);
        proof {
            lemma_abs_product_bound(
                self.value_delta.bits as int,
                m as int,
                2 * FX_VAL_LIMIT,
                FX_ONE as int,
            );
            lemma_fx_mul_abs(self.value_delta.bits as int, m as int, 2 * FX_VAL_LIMIT);
        }
        let v: i64 = fx_mul_bits(self.value_delta.bits, m);
        Fx { bits: self.start.bits + v }
    }

    /// The configured range, as `(start, end)`.
    pub fn range(&self) -> (r: (Fx, Fx))
        ensures
            r.0 == self.start,
            r.1 == self.end,
    {
        (self.start, self.end)
    }

    /// The configured duration.
    pub fn duration(&self) -> (r: Fx)
        ensures
            r == self.duration,
    {
        self.duration
    }
}

/// A tween that bounces in over the first half of its duration and out over
/// the second half.
#[derive(Clone, Copy, Debug, PartialEq, Eq, Structural)]
pub struct BounceInOut {
    pub start: Fx,
    pub end: Fx,
    pub value_delta: Fx,
    pub duration: Fx,
}

impl BounceInOut {
    /// Configuration values are in range and the cached delta is consistent.
    pub open spec fn wf(&self) -> bool {
        &&& -FX_VAL_LIMIT <= self.start.bits <= FX_VAL_LIMIT
        &&& -FX_VAL_LIMIT <= self.end.bits <= FX_VAL_LIMIT
        &&& 0 <= self.duration.bits <= FX_VAL_LIMIT
        &&& self.value_delta.bits == self.end.bits - self.start.bits
    }

    pub fn new(range_start: Fx, range_end: Fx, duration: Fx) -> (r: BounceInOut)
        requires
            -FX_VAL_LIMIT <= range_start.bits <= FX_VAL_LIMIT,
            -FX_VAL_LIMIT <= range_end.bits <= FX_VAL_LIMIT,
            0 <= duration.bits <= FX_VAL_LIMIT,
        ensures
            r.wf(),
            r.start == range_start,
            r.end == range_end,
            r.duration == duration,
    {
        let value_delta = Fx::calculate_delta(range_end, range_start);
        BounceInOut { start: range_start, end: range_end, value_delta, duration }
    }

    /// The interpolated value for `current_time`.
    pub fn evaluate(&self, current_time: Fx) -> (r: Fx)
        requires
            self.wf(),
            0 <= current_time.bits <= self.duration.bits,
        ensures
            r.bits == bounce_in_out_eval_spec(
                self.start.bits as int,
                self.value_delta.bits as int,
                self.duration.bits as int,
                current_time.bits as int,
            ),
    {
        let t = Fx::percent(self.duration, current_time);
        proof {
            lemma_fx_percent_half_split(self.duration.bits as int, current_time.bits as int);
        }
        if t.bits < FX_HALF {
            let sub: i64 = self.duration.bits - 2 * current_time.bits;
            let t2 = Fx::percent(self.duration, Fx { bits: sub });
            let m: i64 = bounce_multiplier(t2.bits);
            proof {
                lemma_abs_product_bound(
                    self.value_delta.bits as int,
                    m as int,
                    2 * FX_VAL_LIMIT,
                    FX_ONE as int,
                );
                lemma_fx_mul_abs(self.value_delta.bits as int, m as int, 2 * FX_VAL_LIMIT);
            }
            let v: i64 = fx_mul_bits(self.value_delta.bits, m);
            let w: i64 = self.value_delta.bits - v;
            proof {
                lemma_abs_product_bound(w as int, FX_HALF as int, 4 * FX_VAL_LIMIT, FX_HALF as int);
                lemma_fx_mul_abs(w as int, FX_HALF as int, 4 * FX_VAL_LIMIT);
            }
            let wh: i64 = fx_mul_bits(w, FX_HALF);
            Fx { bits: self.start.bits + wh }
        } else {
            let sub: i64 = 2 * current_time.bits - self.duration.bits;
            let t2 = Fx::percent(self.duration, Fx { bits: sub });
            let m: i64 = bounce_multiplier(t2.bits);
            proof {
                lemma_abs_product_bound(
                    self.value_delta.bits as int,
                    m as int,
                    2 * FX_VAL_LIMIT,
                    FX_ONE as int,
                );
                lemma_fx_mul_abs(self.value_delta.bits as int, m as int, 2 * FX_VAL_LIMIT);
            }
            let v: i64 = fx_mul_bits(self.value_delta.bits, m);
            proof {
                lemma_abs_product_bound(v as int, FX_HALF as int, 2 * FX_VAL_LIMIT, FX_HALF as int);
                lemma_fx_mul_abs(v as int, FX_HALF as int, 2 * FX_VAL_LIMIT);
                lemma_abs_product_bound(
                    self.value_delta.bits as int,
                    FX_HALF as int,
                    2 * FX_VAL_LIMIT,
                    FX_HALF as int,
                );
                lemma_fx_mul_abs(self.value_delta.bits as int, FX_HALF as int, 2 * FX_VAL_LIMIT);
            }
            let vh: i64 = fx_mul_bits(v, FX_HALF);
            let dh: i64 = fx_mul_bits(self.value_delta.bits, FX_HALF);
            Fx { bits: self.start.bits + vh + dh }
        }
    }

    /// The configured range, as `(start, end)`.
    pub fn range(&self) -> (r: (Fx, Fx))
        ensures
            r.0 == self.start,
            r.1 == self.end,
    {
        (self.start, self.end)
    }

    /// The configured duration.
    pub fn duration(&self) -> (r: Fx)
        ensures
            r == self.duration,
    {
        self.duration
    }
}

/// Endpoint law: `BounceOut` starts exactly at `start`; its far end differs
/// from `start + delta` only by the two-bit shortfall of the last parabola
/// arc, scaled to the delta.
pub proof fn lemma_bounce_out_endpoints(start: int, delta: int, dur: int)
    requires
        1 <= dur,
    ensures
        bounce_out_eval_spec(start, delta, dur, 0) == start,
        bounce_out_eval_spec(start, delta, dur, dur) == start + delta + ((-2) * delta) / (
        FX_ONE as int),
{
    lemma_fx_percent_ends(dur);
    let one = FX_ONE as int;
    assert(bounce_multiplier_spec(0) == 0);
    assert(fx_mul_spec(delta, 0) == 0);
    assert(((one - BOUNCE_O3 as int) * (one - BOUNCE_O3 as int)) / one == 2271718239int)
        by (nonlinear_arith)
        requires
            one == 1099511627776int,
            BOUNCE_O3 as int == 1049533826513int,
    ;
    assert(((BOUNCE_MAGIC as int) * 2271718239int) / one == 17179869182int)
        by (nonlinear_arith)
        requires
            one == 1099511627776int,
            BOUNCE_MAGIC as int == 8315056685056int,
    ;
    assert(bounce_multiplier_spec(one) == one - 2);
    lemma_div_shift_multiple(delta, (-2) * delta, one);
    assert(delta * (one - 2) == one * delta + (-2) * delta) by (nonlinear_arith);
}

/// Endpoint law: `BounceIn` ends exactly at `start + delta`; its start
/// differs from `start` only by the same two-bit shortfall, mirrored.
pub proof fn lemma_bounce_in_endpoints(start: int, delta: int, dur: int)
    requires
        1 <= dur,
    ensures
        bounce_in_eval_spec(start, delta, dur, 0) == start - ((-2) * delta) / (FX_ONE as int),
        bounce_in_eval_spec(start, delta, dur, dur) == start + delta,
{
    lemma_fx_percent_ends(dur);
    let one = FX_ONE as int;
    assert(bounce_multiplier_spec(0) == 0);
    assert(fx_mul_spec(delta, 0) == 0);
    assert(((one - BOUNCE_O3 as int) * (one - BOUNCE_O3 as int)) / one == 2271718239int)
        by (nonlinear_arith)
        requires
            one == 1099511627776int,
            BOUNCE_O3 as int == 1049533826513int,
    ;
    assert(((BOUNCE_MAGIC as int) * 2271718239int) / one == 17179869182int)
        by (nonlinear_arith)
        requires
            one == 1099511627776int,
            BOUNCE_MAGIC as int == 8315056685056int,
    ;
    assert(bounce_multiplier_spec(one) == one - 2);
    lemma_div_shift_multiple(delta, (-2) * delta, one);
    assert(delta * (one - 2) == one * delta + (-2) * delta) by (nonlinear_arith);
}

/// Endpoint law: `BounceInOut` deviates from `start` and from
/// `start + delta` at its ends only by the two-bit shortfall of the last
/// parabola arc, scaled to the delta and halved.
pub proof fn lemma_bounce_in_out_endpoints(start: int, delta: int, dur: int)
    requires
        1 <= dur,
    ensures
        bounce_in_out_eval_spec(start, delta, dur, 0) == start + fx_mul_spec(
            -(((-2) * delta) / (FX_ONE as int)),
            FX_HALF as int,
        ),
        bounce_in_out_eval_spec(start, delta, dur, dur) == start + fx_mul_spec(
            delta + ((-2) * delta) / (FX_ONE as int),
            FX_HALF as int,
        ) + fx_mul_spec(delta, FX_HALF as int),
{
    lemma_fx_percent_ends(dur);
    let one = FX_ONE as int;
    assert(bounce_multiplier_spec(0) == 0);
    assert(((one - BOUNCE_O3 as int) * (one - BOUNCE_O3 as int)) / one == 2271718239int)
        by (nonlinear_arith)
        requires
            one == 1099511627776int,
            BOUNCE_O3 as int == 1049533826513int,
    ;
    assert(((BOUNCE_MAGIC as int) * 2271718239int) / one == 17179869182int)
        by (nonlinear_arith)
        requires
            one == 1099511627776int,
            BOUNCE_MAGIC as int == 8315056685056int,
    ;
    assert(bounce_multiplier_spec(one) == one - 2);
    lemma_div_shift_multiple(delta, (-2) * delta, one);
    assert(delta * (one - 2) == one * delta + (-2) * delta) by (nonlinear_arith);
}

/// Reflection law: the In curve is exactly the Out curve mirrored in both
/// time and value: `in(e) + out(dur - e) == start + end`.
pub proof fn lemma_bounce_mirror(start: int, delta: int, dur: int, e: int)
    requires
        0 <= e <= dur,
    ensures
        bounce_in_eval_spec(start, delta, dur, e) + bounce_out_eval_spec(start, delta, dur, dur - e)
            == start + (start + delta),
{
}

/// Midpoint continuity: at exactly half the duration the first-half and the
/// second-half In-Out formulas give the same value.
pub proof fn lemma_bounce_in_out_midpoint(start: int, delta: int, dur: int, e: int)
    requires
        1 <= dur,
        2 * e == dur,
    ensures
        bounce_in_out_first_spec(start, delta, dur, e) == bounce_in_out_second_spec(
            start,
            delta,
            dur,
            e,
        ),
{
    lemma_fx_percent_ends(dur);
    assert(bounce_multiplier_spec(0) == 0);
    assert(fx_mul_spec(delta, 0) == 0);
    assert(fx_mul_spec(0, FX_HALF as int) == 0);
}

/// Zero-range stability: a tween whose range has equal endpoints yields
/// `start` at every time.
pub proof fn lemma_bounce_zero_range(start: int, dur: int, e: int)
    requires
        0 <= e <= dur,
    ensures
        bounce_in_eval_spec(start, 0, dur, e) == start,
        bounce_out_eval_spec(start, 0, dur, e) == start,
        bounce_in_out_eval_spec(start, 0, dur, e) == start,
{
    assert(fx_mul_spec(0, bounce_multiplier_spec(fx_percent_spec(dur, e))) == 0);
    assert(fx_mul_spec(0, bounce_multiplier_spec(fx_percent_spec(dur, dur - e))) == 0);
    assert(fx_mul_spec(0, bounce_multiplier_spec(fx_percent_spec(dur, dur - 2 * e))) == 0);
    assert(fx_mul_spec(0, bounce_multiplier_spec(fx_percent_spec(dur, 2 * e - dur))) == 0);
    assert(fx_mul_spec(0, FX_HALF as int) == 0);
}

/// Sampling idempotence: two evaluations of the same variant at the same
/// time return the same value, since each result is a function of the
/// configuration and the time alone.
pub proof fn lemma_bounce_evaluate_repeatable(
    start: int,
    delta: int,
    dur: int,
    e: int,
    r1: int,
    r2: int,
)
    requires
        r1 == bounce_out_eval_spec(start, delta, dur, e),
        r2 == bounce_out_eval_spec(start, delta, dur, e),
    ensures
        r1 == r2,
{
}

} // verus!
