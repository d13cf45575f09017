use easer::functions::{Bounce, Cubic, Easing, Expo};
use tween::{
    BounceIn, BounceInOut, BounceOut, CubicIn, CubicInOut, CubicOut, ExpoIn, ExpoInOut, ExpoOut,
    Fx,
};

const ONE_F: f64 = 1099511627776.0;
const ONE_BITS: i64 = 0x100_0000_0000;

fn fx(v: f64) -> Fx {
    Fx::from_bits((v * ONE_F).round() as i64)
}

fn val(x: Fx) -> f64 {
    x.bits as f64 / ONE_F
}

#[test]
fn bounce_tween_in() {
    let tweener = BounceIn::new(fx(0.0), fx(100.0), fx(10.0));
    for time in 0..=10 {
        let v = val(tweener.evaluate(fx(time as f64)));
        let o = Bounce::ease_in(time as f64, 0.0, 100.0, 10.0);
        assert!((v - o).abs() < 1e-6, "time {}: {} vs {}", time, v, o);
    }
}

#[test]
fn bounce_tween_out() {
    let tweener = BounceOut::new(fx(0.0), fx(100.0), fx(10.0));
    for time in 0..=10 {
        let v = val(tweener.evaluate(fx(time as f64)));
        let o = Bounce::ease_out(time as f64, 0.0, 100.0, 10.0);
        assert!((v - o).abs() < 1e-6, "time {}: {} vs {}", time, v, o);
    }
}

#[test]
fn bounce_tween_in_out() {
    let tweener = BounceInOut::new(fx(0.0), fx(100.0), fx(10.0));
    for time in 0..=10 {
        let v = val(tweener.evaluate(fx(time as f64)));
        let o = Bounce::ease_in_out(time as f64, 0.0, 100.0, 10.0);
        assert!((v - o).abs() < 1e-6, "time {}: {} vs {}", time, v, o);
    }
}

#[test]
fn cubic_in() {
    let tweener = CubicIn::new(fx(0.0), fx(100.0), fx(10.0));
    for time in 0..=10 {
        let v = val(tweener.evaluate(fx(time as f64)));
        let o = Cubic::ease_in(time as f64, 0.0, 100.0, 10.0);
        assert!((v - o).abs() < 1e-6, "time {}: {} vs {}", time, v, o);
    }
}

#[test]
fn cubic_out() {
    let tweener = CubicOut::new(fx(0.0), fx(100.0), fx(10.0));
    for time in 0..=10 {
        let v = val(tweener.evaluate(fx(time as f64)));
        let o = Cubic::ease_out(time as f64, 0.0, 100.0, 10.0);
        assert!((v - o).abs() < 1e-6, "time {}: {} vs {}", time, v, o);
    }
}

#[test]
fn cubic_in_out() {
    let tweener = CubicInOut::new(fx(0.0), fx(100.0), fx(10.0));
    for time in 0..=10 {
        let v = val(tweener.evaluate(fx(time as f64)));
        let o = Cubic::ease_in_out(time as f64, 0.0, 100.0, 10.0);
        assert!((v - o).abs() < 1e-6, "time {}: {} vs {}", time, v, o);
    }
}

#[test]
fn expo_tween_in() {
    let tweener = ExpoIn::new(fx(0.0), fx(100.0), fx(10.0));
    for time in 0..=10 {
        let v = val(tweener.evaluate(fx(time as f64)));
        let o = Expo::ease_in(time as f64, 0.0, 100.0, 10.0);
        assert!((v - o).abs() < 1e-6, "time {}: {} vs {}", time, v, o);
    }
}

#[test]
fn expo_tween_out() {
    let tweener = ExpoOut::new(fx(0.0), fx(100.0), fx(10.0));
    for time in 0..=10 {
        let v = val(tweener.evaluate(fx(time as f64)));
        let o = Expo::ease_out(time as f64, 0.0, 100.0, 10.0);
        assert!((v - o).abs() < 1e-6, "time {}: {} vs {}", time, v, o);
    }
}

#[test]
fn expo_tween_in_out() {
    let tweener = ExpoInOut::new(fx(0.0), fx(100.0), fx(10.0));
    for time in 0..=10 {
        let v = val(tweener.evaluate(fx(time as f64)));
        let o = Expo::ease_in_out(time as f64, 0.0, 100.0, 10.0);
        assert!((v - o).abs() < 1e-6, "time {}: {} vs {}", time, v, o);
    }
}

#[test]
fn cubic_in_concrete_midvalue() {
    // (5/10)^3 * 100 = 12.5, exactly representable in fixed point.
    let tweener = CubicIn::new(fx(0.0), fx(100.0), fx(10.0));
    let r = tweener.evaluate(fx(5.0));
    assert_eq!(r.bits, 25 * ONE_BITS / 2);
}

#[test]
fn cubic_out_concrete_midvalue() {
    // ((5/10 - 1)^3 + 1) * 100 = 87.5, exactly representable.
    let tweener = CubicOut::new(fx(0.0), fx(100.0), fx(10.0));
    let r = tweener.evaluate(fx(5.0));
    assert_eq!(r.bits, 175 * ONE_BITS / 2);
}

#[test]
fn expo_out_endpoints_exact() {
    let tweener = ExpoOut::new(fx(0.0), fx(100.0), fx(10.0));
    assert_eq!(tweener.evaluate(fx(0.0)).bits, 0);
    assert_eq!(tweener.evaluate(fx(10.0)).bits, 100 * ONE_BITS);
}

#[test]
fn expo_in_endpoints_exact() {
    let tweener = ExpoIn::new(fx(0.0), fx(100.0), fx(10.0));
    assert_eq!(tweener.evaluate(fx(0.0)).bits, 0);
    assert_eq!(tweener.evaluate(fx(10.0)).bits, 100 * ONE_BITS);
}

#[test]
fn expo_in_out_endpoints_exact() {
    let tweener = ExpoInOut::new(fx(0.0), fx(100.0), fx(10.0));
    assert_eq!(tweener.evaluate(fx(0.0)).bits, 0);
    assert_eq!(tweener.evaluate(fx(10.0)).bits, 100 * ONE_BITS);
}

#[test]
fn bounce_out_full_duration_lands_on_end() {
    let tweener = BounceOut::new(fx(0.0), fx(100.0), fx(10.0));
    let v = val(tweener.evaluate(fx(10.0)));
    assert!((v - 100.0).abs() < 1e-9, "{}", v);
}

#[test]
fn endpoint_law_all_families() {
    let tol = 1e-9;
    let s = fx(3.0);
    let e = fx(83.0);
    let d = fx(7.0);
    let results = [
        (val(BounceIn::new(s, e, d).evaluate(fx(0.0))), val(BounceIn::new(s, e, d).evaluate(d))),
        (val(BounceOut::new(s, e, d).evaluate(fx(0.0))), val(BounceOut::new(s, e, d).evaluate(d))),
        (
            val(BounceInOut::new(s, e, d).evaluate(fx(0.0))),
            val(BounceInOut::new(s, e, d).evaluate(d)),
        ),
        (val(CubicIn::new(s, e, d).evaluate(fx(0.0))), val(CubicIn::new(s, e, d).evaluate(d))),
        (val(CubicOut::new(s, e, d).evaluate(fx(0.0))), val(CubicOut::new(s, e, d).evaluate(d))),
        (
            val(CubicInOut::new(s, e, d).evaluate(fx(0.0))),
            val(CubicInOut::new(s, e, d).evaluate(d)),
        ),
        (val(ExpoIn::new(s, e, d).evaluate(fx(0.0))), val(ExpoIn::new(s, e, d).evaluate(d))),
        (val(ExpoOut::new(s, e, d).evaluate(fx(0.0))), val(ExpoOut::new(s, e, d).evaluate(d))),
        (val(ExpoInOut::new(s, e, d).evaluate(fx(0.0))), val(ExpoInOut::new(s, e, d).evaluate(d))),
    ];
    for (at_zero, at_end) in results.iter() {
        assert!((at_zero - 3.0).abs() < tol, "{}", at_zero);
        assert!((at_end - 83.0).abs() < tol, "{}", at_end);
    }
}

#[test]
fn mirror_law_bounce_exact() {
    // In is Out mirrored in both time and value, exactly in fixed point.
    let tween_in = BounceIn::new(fx(0.0), fx(100.0), fx(10.0));
    let tween_out = BounceOut::new(fx(0.0), fx(100.0), fx(10.0));
    for time in 0..=10 {
        let a = tween_in.evaluate(fx(time as f64)).bits;
        let b = tween_out.evaluate(fx((10 - time) as f64)).bits;
        assert_eq!(a + b, 100 * ONE_BITS);
    }
}

#[test]
fn mirror_law_cubic_and_expo() {
    let tol = 1e-6;
    let ci = CubicIn::new(fx(0.0), fx(100.0), fx(10.0));
    let co = CubicOut::new(fx(0.0), fx(100.0), fx(10.0));
    let xi = ExpoIn::new(fx(0.0), fx(100.0), fx(10.0));
    let xo = ExpoOut::new(fx(0.0), fx(100.0), fx(10.0));
    for time in 0..=10 {
        let t = fx(time as f64);
        let r = fx((10 - time) as f64);
        assert!((val(ci.evaluate(t)) + val(co.evaluate(r)) - 100.0).abs() < tol);
        assert!((val(xi.evaluate(t)) + val(xo.evaluate(r)) - 100.0).abs() < tol);
    }
}

#[test]
fn in_out_midpoint_continuity() {
    // At exactly half the duration every In-Out variant sits at the middle
    // of the range, where the two half formulas meet.
    let mid = 50 * ONE_BITS;
    assert_eq!(BounceInOut::new(fx(0.0), fx(100.0), fx(10.0)).evaluate(fx(5.0)).bits, mid);
    assert_eq!(CubicInOut::new(fx(0.0), fx(100.0), fx(10.0)).evaluate(fx(5.0)).bits, mid);
    assert_eq!(ExpoInOut::new(fx(0.0), fx(100.0), fx(10.0)).evaluate(fx(5.0)).bits, mid);
}

#[test]
fn evaluate_idempotent() {
    let tweener = BounceInOut::new(fx(2.0), fx(98.0), fx(10.0));
    for time in 0..=10 {
        let a = tweener.evaluate(fx(time as f64)).bits;
        let b = tweener.evaluate(fx(time as f64)).bits;
        assert_eq!(a, b);
    }
}

#[test]
fn zero_range_stability() {
    let s = fx(42.0);
    for time in [0.0, 1.0, 4.5, 9.0, 10.0] {
        let t = fx(time);
        let d = fx(10.0);
        assert_eq!(BounceIn::new(s, s, d).evaluate(t).bits, s.bits);
        assert_eq!(BounceOut::new(s, s, d).evaluate(t).bits, s.bits);
        assert_eq!(BounceInOut::new(s, s, d).evaluate(t).bits, s.bits);
        assert_eq!(CubicIn::new(s, s, d).evaluate(t).bits, s.bits);
        assert_eq!(CubicOut::new(s, s, d).evaluate(t).bits, s.bits);
        assert_eq!(CubicInOut::new(s, s, d).evaluate(t).bits, s.bits);
        assert_eq!(ExpoIn::new(s, s, d).evaluate(t).bits, s.bits);
        assert_eq!(ExpoOut::new(s, s, d).evaluate(t).bits, s.bits);
        assert_eq!(ExpoInOut::new(s, s, d).evaluate(t).bits, s.bits);
    }
}

#[test]
fn zero_duration_treated_as_complete() {
    // A zero duration makes the elapsed fraction 1.0: the curve formulas
    // land on their far end, while the Expo time guards keep their exact
    // endpoint answers.
    let z = fx(0.0);
    assert_eq!(CubicIn::new(fx(0.0), fx(100.0), z).evaluate(z).bits, 100 * ONE_BITS);
    assert_eq!(CubicOut::new(fx(0.0), fx(100.0), z).evaluate(z).bits, 100 * ONE_BITS);
    assert_eq!(ExpoIn::new(fx(0.0), fx(100.0), z).evaluate(z).bits, 0);
    assert_eq!(ExpoOut::new(fx(0.0), fx(100.0), z).evaluate(z).bits, 100 * ONE_BITS);
    let b = BounceOut::new(fx(0.0), fx(100.0), z).evaluate(z);
    assert!((val(b) - 100.0).abs() < 1e-9);
}

#[test]
fn range_and_duration_accessors() {
    let tweener = CubicIn::new(fx(1.0), fx(9.0), fx(4.0));
    let (s, e) = tweener.range();
    assert_eq!(s.bits, fx(1.0).bits);
    assert_eq!(e.bits, fx(9.0).bits);
    assert_eq!(tweener.duration().bits, fx(4.0).bits);
}

#[test]
fn scalar_conversions() {
    assert_eq!(Fx::from_int(3).bits, 3 * ONE_BITS);
    assert_eq!(Fx::zero().bits, 0);
    assert_eq!(Fx::one().bits, ONE_BITS);
    assert_eq!(Fx::from_int(2).add(Fx::from_int(5)).bits, 7 * ONE_BITS);
    assert_eq!(Fx::from_int(2).sub(Fx::from_int(5)).bits, -3 * ONE_BITS);
    assert_eq!(Fx::calculate_delta(Fx::from_int(9), Fx::from_int(4)).bits, 5 * ONE_BITS);
    assert_eq!(Fx::from_int(6).scale(fx(0.5)).bits, 3 * ONE_BITS);
    assert_eq!(Fx::percent(Fx::from_int(10), Fx::from_int(5)).bits, ONE_BITS / 2);
    assert_eq!(Fx::percent(Fx::zero(), Fx::zero()).bits, ONE_BITS);
}
