use interpolation::Ease;
use keyframe_tracks::ease::EaseFunction;

#[test]
fn exact_fractions_at_half_progress() {
    assert_eq!(EaseFunction::QuadraticIn.eval(1, 2), (1, 4));
    assert_eq!(EaseFunction::QuadraticOut.eval(1, 2), (3, 4));
    assert_eq!(EaseFunction::CubicIn.eval(1, 2), (1, 8));
    assert_eq!(EaseFunction::CubicOut.eval(1, 2), (7, 8));
    assert_eq!(EaseFunction::QuarticIn.eval(1, 2), (1, 16));
    assert_eq!(EaseFunction::QuarticOut.eval(1, 2), (15, 16));
    assert_eq!(EaseFunction::QuinticIn.eval(1, 2), (1, 32));
    assert_eq!(EaseFunction::QuinticOut.eval(1, 2), (31, 32));
}

#[test]
fn in_out_curves_switch_shape_at_half_progress() {
    // Quarter progress takes the accelerating branch.
    assert_eq!(EaseFunction::QuadraticInOut.eval(1, 4), (2, 16));
    assert_eq!(EaseFunction::CubicInOut.eval(1, 4), (8, 128));
    assert_eq!(EaseFunction::QuarticInOut.eval(1, 4), (8, 256));
    assert_eq!(EaseFunction::QuinticInOut.eval(1, 4), (32, 2048));
    // Three-quarter progress takes the decelerating branch.
    assert_eq!(EaseFunction::QuadraticInOut.eval(3, 4), (14, 16));
    assert_eq!(EaseFunction::CubicInOut.eval(3, 4), (120, 128));
    assert_eq!(EaseFunction::QuarticInOut.eval(3, 4), (248, 256));
    assert_eq!(EaseFunction::QuinticInOut.eval(3, 4), (2016, 2048));
}

#[test]
fn curves_map_zero_to_zero_and_one_to_one() {
    let curves = [
        EaseFunction::QuadraticIn,
        EaseFunction::QuadraticOut,
        EaseFunction::QuadraticInOut,
        EaseFunction::CubicIn,
        EaseFunction::CubicOut,
        EaseFunction::CubicInOut,
        EaseFunction::QuarticIn,
        EaseFunction::QuarticOut,
        EaseFunction::QuarticInOut,
        EaseFunction::QuinticIn,
        EaseFunction::QuinticOut,
        EaseFunction::QuinticInOut,
    ];
    for curve in curves {
        let (p0, q0) = curve.eval(0, 7);
        assert_eq!(p0, 0);
        assert!(q0 > 0);
        let (p1, q1) = curve.eval(7, 7);
        assert_eq!(p1, q1);
    }
}

#[test]
fn out_of_range_progress_passes_through_the_formula() {
    // Progress 1.5 is not clamped: quadratic-in yields 2.25.
    assert_eq!(EaseFunction::QuadraticIn.eval(3, 2), (9, 4));
    // Negative progress is not clamped either: cubic-in yields -0.125.
    assert_eq!(EaseFunction::CubicIn.eval(-1, 2), (-1, 8));
}

fn crate_curve(e: EaseFunction) -> interpolation::EaseFunction {
    match e {
        EaseFunction::QuadraticIn => interpolation::EaseFunction::QuadraticIn,
        EaseFunction::QuadraticOut => interpolation::EaseFunction::QuadraticOut,
        EaseFunction::QuadraticInOut => interpolation::EaseFunction::QuadraticInOut,
        EaseFunction::CubicIn => interpolation::EaseFunction::CubicIn,
        EaseFunction::CubicOut => interpolation::EaseFunction::CubicOut,
        EaseFunction::CubicInOut => interpolation::EaseFunction::CubicInOut,
        EaseFunction::QuarticIn => interpolation::EaseFunction::QuarticIn,
        EaseFunction::QuarticOut => interpolation::EaseFunction::QuarticOut,
        EaseFunction::QuarticInOut => interpolation::EaseFunction::QuarticInOut,
        EaseFunction::QuinticIn => interpolation::EaseFunction::QuinticIn,
        EaseFunction::QuinticOut => interpolation::EaseFunction::QuinticOut,
        EaseFunction::QuinticInOut => interpolation::EaseFunction::QuinticInOut,
    }
}

#[test]
fn fractions_agree_with_floating_point_easing() {
    let curves = [
        EaseFunction::QuadraticIn,
        EaseFunction::QuadraticOut,
        EaseFunction::QuadraticInOut,
        EaseFunction::CubicIn,
        EaseFunction::CubicOut,
        EaseFunction::CubicInOut,
        EaseFunction::QuarticIn,
        EaseFunction::QuarticOut,
        EaseFunction::QuarticInOut,
        EaseFunction::QuinticIn,
        EaseFunction::QuinticOut,
        EaseFunction::QuinticInOut,
    ];
    for curve in curves {
        for num in [0i64, 1, 2, 3, 4] {
            let den = 4i64;
            let (p, q) = curve.eval(num, den);
            let exact = p as f64 / q as f64;
            let t = num as f64 / den as f64;
            let reference = t.calc(crate_curve(curve));
            assert!(
                (exact - reference).abs() < 1e-9,
                "curve mismatch at t = {}: {} vs {}",
                t,
                exact,
                reference
            );
        }
    }
}
