use rust_math_lib::fixed::Fixed;
use rust_math_lib::integrals::{
    interval_width, left_edge, panel_points, riemann_accumulate, simpson_accumulate,
    simpson_scale, Integral, Panel, DEFAULT_NUM_INTERVALS,
};

const TWO_POW_64: f64 = 18446744073709551616.0;

fn to_fixed(v: f64) -> Fixed {
    Fixed::from_raw((v * TWO_POW_64) as i128)
}

fn to_float(v: Fixed) -> f64 {
    v.raw as f64 / TWO_POW_64
}

/// Runs the Riemann rule and Simpson's rule, each on a task of its own, and
/// holds each result against the expected integral.
fn check_integration(
    function: fn(f64) -> f64,
    lower_bound: f64,
    upper_bound: f64,
    num_intervals: u32,
    expected: f64,
    error_tolerance: f64,
) {
    let mut riemann = Integral::new(
        move |x: Fixed| to_fixed(function(to_float(x))),
        to_fixed(lower_bound),
        to_fixed(upper_bound),
        num_intervals as u64,
    );
    let mut simpson = Integral::new(
        move |x: Fixed| to_fixed(function(to_float(x))),
        to_fixed(lower_bound),
        to_fixed(upper_bound),
        num_intervals as u64,
    );
    let results_vec = vec![
        ("Riemann", to_float(riemann.riemann_integration())),
        ("Simpson's 1/3", to_float(simpson.simpson_integration_one_third())),
    ];

    for (method_name, result) in results_vec {
        let delta = (result - expected).abs();
        println!(
            "Method: {}\n  Result:    {}\n  Expected:  {}\n  Tolerance: {}\n  Delta:     {}",
            method_name, result, expected, error_tolerance, delta
        );
        assert!(delta < error_tolerance, "Test failed for {} method", method_name);
    }
}

#[test]
fn test_integrate_square() {
    check_integration(|x| x * x, 0.0, 3.0, 1e7 as u32, 9.0, 1e-5);
}

#[test]
fn test_integrate_sine() {
    check_integration(|x| x.sin(), 0.0, std::f64::consts::PI, 1e7 as u32, 2.0, 1e-5);
}

#[test]
fn test_integrate_sine_reverse() {
    check_integration(|x| x.sin(), std::f64::consts::PI, 0.0, 1e7 as u32, -2.0, 1e-5);
}

#[test]
fn test_integrate_custom_function_1() {
    check_integration(
        |x| ((x + 2.0).powi(2) + 3.0 * (4.0 * x).sin()) / (x + 4.0),
        -1.0,
        3.0,
        1e7 as u32,
        7.15492507558,
        1e-5,
    );
}

#[test]
fn test_integrate_custom_function_2() {
    check_integration(
        |x| ((0.5 * x + 3.0).ln() / (-x).cos()).sqrt(),
        -1.5,
        1.4,
        1e7 as u32,
        4.00152756063,
        1e-5,
    );
}

fn whole(n: i64) -> Fixed {
    Fixed::from_int(n)
}

fn square(x: Fixed) -> Fixed {
    x.mul(x)
}

#[test]
fn width_is_signed_and_edges_follow_it() {
    assert_eq!(interval_width(whole(0), whole(3), 4), to_fixed(0.75));
    assert_eq!(interval_width(whole(3), whole(0), 4), to_fixed(-0.75));
    assert_eq!(interval_width(whole(5), whole(5), 9), Fixed::zero());
    assert_eq!(interval_width(Fixed::from_raw(0), Fixed::from_raw(7), 2), Fixed::from_raw(3));
    assert_eq!(interval_width(Fixed::from_raw(7), Fixed::from_raw(0), 2), Fixed::from_raw(-3));
    assert_eq!(left_edge(whole(1), to_fixed(0.75), 0), whole(1));
    assert_eq!(left_edge(whole(1), to_fixed(0.75), 3), to_fixed(3.25));
    assert_eq!(left_edge(whole(1), to_fixed(-0.75), 3), to_fixed(-1.25));
}

#[test]
fn panel_points_are_the_edges_and_their_mean() {
    let points = panel_points(whole(2), to_fixed(0.5));
    assert_eq!(points.left, whole(2));
    assert_eq!(points.mid, to_fixed(2.25));
    assert_eq!(points.right, to_fixed(2.5));
    let backwards = panel_points(to_fixed(2.5), to_fixed(-0.5));
    assert_eq!(backwards.left, to_fixed(2.5));
    assert_eq!(backwards.mid, to_fixed(2.25));
    assert_eq!(backwards.right, whole(2));
}

#[test]
fn accumulators_add_one_contribution() {
    assert_eq!(riemann_accumulate(whole(10), whole(3), to_fixed(0.5)), to_fixed(11.5));
    assert_eq!(riemann_accumulate(whole(10), whole(3), to_fixed(-0.5)), to_fixed(8.5));
    let values = Panel { left: whole(1), mid: whole(2), right: whole(5) };
    assert_eq!(simpson_accumulate(whole(100), values), whole(114));
}

#[test]
fn riemann_sum_of_the_identity_is_exact() {
    // left edges 0, 1/2, 1, 3/2 with width 1/2: (0 + 1/2 + 1 + 3/2) / 2
    let mut integral = Integral::new(|x: Fixed| x, whole(0), whole(2), 4);
    assert_eq!(integral.riemann_integration(), to_fixed(1.5));
    assert_eq!(integral.lower_bound(), whole(0));
    assert_eq!(integral.upper_bound(), whole(2));
    assert_eq!(integral.num_intervals(), 4);
    assert_eq!((integral.function())(whole(7)), whole(7));
}

#[test]
fn simpson_is_exact_on_the_square() {
    // width 6, so that a sixth of it is one: 72 + 504
    let mut integral = Integral::new(square, whole(0), whole(12), 2);
    assert_eq!(integral.simpson_integration_one_third(), whole(576));
}

#[test]
fn riemann_twice_on_one_task_doubles_the_result() {
    let mut integral = Integral::new(square, whole(0), whole(3), 1000);
    let once = integral.riemann_integration();
    let twice = integral.riemann_integration();
    assert_eq!(twice.raw, 2 * once.raw);
    assert!((to_float(once) - 9.0).abs() < 1.4e-2);
    let mut fresh = Integral::new(square, whole(0), whole(3), 1000);
    assert_eq!(fresh.riemann_integration(), once);
}

#[test]
fn simpson_twice_on_one_task_doubles_the_result() {
    // three sub-intervals of width one: 2 + 14 + 38 = 54, a sixth of it is 9
    let mut integral = Integral::new(square, whole(0), whole(3), 3);
    assert_eq!(integral.simpson_integration_one_third(), whole(9));
    assert_eq!(integral.simpson_integration_one_third(), whole(18));
    assert_eq!(integral.simpson_integration_one_third(), whole(27));
    // width 12: the total is 288 + 2016 = 2304, times 12 and by 6 is 4608
    let mut integral = Integral::new(square, whole(0), whole(24), 2);
    let once = integral.simpson_integration_one_third();
    assert_eq!(once, whole(4608));
    let twice = integral.simpson_integration_one_third();
    assert_eq!(twice.raw, 2 * once.raw);
}

#[test]
fn the_two_rules_add_to_one_running_result() {
    let mut integral = Integral::new(square, whole(0), whole(3), 3);
    // left edges 0, 1, 2 with width one: 0 + 1 + 4
    assert_eq!(integral.riemann_integration(), whole(5));
    assert_eq!(integral.simpson_integration_one_third(), whole(14));
    assert_eq!(integral.riemann_integration(), whole(19));
}

#[test]
fn simpson_scales_the_total_by_the_width_before_dividing() {
    assert_eq!(simpson_scale(whole(54), whole(1)), whole(9));
    assert_eq!(simpson_scale(whole(54), whole(-1)), whole(-9));
    assert_eq!(simpson_scale(whole(576), whole(6)), whole(576));
    // 7 * 1 / 6 rounds toward zero in the last place
    assert_eq!(simpson_scale(Fixed::from_raw(7), whole(1)), Fixed::from_raw(1));
    assert_eq!(simpson_scale(Fixed::from_raw(-7), whole(1)), Fixed::from_raw(-1));
}

#[test]
fn midpoint_is_half_a_width_from_the_left_edge() {
    // the sum of the two edges is out of range here, the midpoint is not
    let left = Fixed::from_raw(1i128 << 126);
    let points = panel_points(left, Fixed::from_raw(2));
    assert_eq!(points.mid, Fixed::from_raw((1i128 << 126) + 1));
    assert_eq!(points.right, Fixed::from_raw((1i128 << 126) + 2));
    // an odd width in raw units: half of it rounds toward zero
    let points = panel_points(whole(1), Fixed::from_raw(5));
    assert_eq!(points.mid, Fixed::from_raw(whole(1).raw + 2));
    let points = panel_points(whole(1), Fixed::from_raw(-5));
    assert_eq!(points.mid, Fixed::from_raw(whole(1).raw - 2));
}

#[test]
fn swapped_bounds_flip_the_sign_exactly_on_exact_grids() {
    let mut forward = Integral::new(|_x: Fixed| whole(1), whole(0), whole(2), 4);
    let mut backward = Integral::new(|_x: Fixed| whole(1), whole(2), whole(0), 4);
    assert_eq!(forward.riemann_integration(), whole(2));
    assert_eq!(backward.riemann_integration(), whole(-2));
    let mut forward = Integral::new(square, whole(0), whole(12), 2);
    let mut backward = Integral::new(square, whole(12), whole(0), 2);
    assert_eq!(forward.simpson_integration_one_third(), whole(576));
    assert_eq!(backward.simpson_integration_one_third(), whole(-576));
    let mut forward = Integral::new(square, whole(0), whole(3), 3);
    let mut backward = Integral::new(square, whole(3), whole(0), 3);
    assert_eq!(forward.simpson_integration_one_third(), whole(9));
    assert_eq!(backward.simpson_integration_one_third(), whole(-9));
    // the walk from the upper bound takes the left edges 3, 2, 1
    let mut backward = Integral::new(square, whole(3), whole(0), 3);
    assert_eq!(backward.riemann_integration(), whole(-14));
}

#[test]
fn simpson_converges_faster_than_riemann() {
    let f = |x: Fixed| to_fixed(to_float(x).powi(2));
    let mut riemann = Integral::new(f, to_fixed(0.0), to_fixed(3.0), 1000);
    let mut simpson = Integral::new(f, to_fixed(0.0), to_fixed(3.0), 1000);
    let riemann_error = (to_float(riemann.riemann_integration()) - 9.0).abs();
    let simpson_error = (to_float(simpson.simpson_integration_one_third()) - 9.0).abs();
    assert!(riemann_error > 1e-3);
    assert!(simpson_error < 1e-9);
    assert!(simpson_error < riemann_error);
}

#[test]
fn zero_intervals_fall_back_to_the_default_count() {
    assert_eq!(DEFAULT_NUM_INTERVALS, 1_000_000);
    let f = |x: Fixed| to_fixed(to_float(x).powi(2));
    let mut integral = Integral::new(f, to_fixed(0.0), to_fixed(3.0), 0);
    assert_eq!(integral.num_intervals(), 1_000_000);
    let result = to_float(integral.riemann_integration());
    assert!(result.is_finite());
    assert!((result - 9.0).abs() < 2e-5);
    let kept = Integral::new(f, to_fixed(0.0), to_fixed(3.0), 1);
    assert_eq!(kept.num_intervals(), 1);
}

#[test]
fn riemann_over_swapped_bounds_takes_the_right_edges() {
    let mut forward = Integral::new(|x: Fixed| x, whole(0), whole(2), 4);
    let mut backward = Integral::new(|x: Fixed| x, whole(2), whole(0), 4);
    let ascending = forward.riemann_integration();
    let descending = backward.riemann_integration();
    assert_eq!(ascending, to_fixed(1.5));
    assert_eq!(descending, to_fixed(-2.5));
    // the two cancel but for the rectangles at the bounds: 0 * 1/2 - 2 * 1/2
    assert_eq!(ascending.add(descending), whole(-1));
}

#[test]
fn sine_over_swapped_bounds_flips_the_sign_for_both_rules() {
    let sine = |x: Fixed| to_fixed(to_float(x).sin());
    let pi = to_fixed(std::f64::consts::PI);
    let zero = to_fixed(0.0);
    let n = 100_000;
    let riemann_up = to_float(Integral::new(sine, zero, pi, n).riemann_integration());
    let riemann_down = to_float(Integral::new(sine, pi, zero, n).riemann_integration());
    let simpson_up = to_float(Integral::new(sine, zero, pi, n).simpson_integration_one_third());
    let simpson_down = to_float(Integral::new(sine, pi, zero, n).simpson_integration_one_third());
    assert!((riemann_up - 2.0).abs() < 1e-5);
    assert!((riemann_down + 2.0).abs() < 1e-5);
    assert!((simpson_up - 2.0).abs() < 1e-9);
    assert!((simpson_down + 2.0).abs() < 1e-9);
}
