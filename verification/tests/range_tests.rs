use rustplot::range::{default_config, solve_range, calc_scale, RangeConfig};
use rustplot::axis::{AxisProp, AxisKind, axis_kind, calc_axis_props};
use rustplot::ChartError;
use rustplot::UNIT;

const U: i128 = UNIT;

fn v(x: f64) -> i128 {
    (x * (U as f64)).round() as i128
}

fn vs(xs: &[f64]) -> Vec<i128> {
    xs.iter().map(|&x| v(x)).collect()
}

#[test]
fn solve_all_equal_positive_starts_at_zero() {
    // Three equal fives: the degenerate fallback spans zero to twice
    // the value, with a tick at every tenth.
    let sol = solve_range(&vec![vs(&[5.0, 5.0, 5.0])], default_config(true)).unwrap();
    assert_eq!(sol, ((v(0.0), v(10.0)), v(0.1)));
}

#[test]
fn solve_all_equal_zero() {
    let sol = solve_range(&vec![vs(&[0.0, 0.0])], default_config(false)).unwrap();
    assert_eq!(sol, ((v(0.0), v(1.0)), v(0.1)));
}

#[test]
fn solve_all_equal_negative() {
    let sol = solve_range(&vec![vs(&[-5.0])], default_config(false)).unwrap();
    assert_eq!(sol, ((v(-10.0), v(0.0)), v(0.1)));
}

#[test]
fn solve_fills_the_axis_and_stays_in_band() {
    // The classic skewed series: the data spans ninety-nine of the
    // hundred axis units, and the scale sits inside the band.
    let sol = solve_range(&vec![vs(&[1.0, 2.0, 3.0, 4.0, 100.0])], default_config(false)).unwrap();
    let ((amin, amax), scale) = sol;
    assert_eq!((amin, amax), (v(0.0), v(100.0)));
    assert_eq!(scale, v(0.1));
    // The fill share: 99 / (amax - amin) beats eight tenths.
    assert!((v(100.0) - v(1.0)) * 10 > 8 * (amax - amin));
    assert!(v(0.08) <= scale && scale <= v(0.2));
}

#[test]
fn solve_spanning_small_and_large_magnitudes() {
    // Termination within the iteration cap across four orders of
    // magnitude in each direction.
    let a = solve_range(&vec![vs(&[0.0001, 10000.0])], default_config(false)).unwrap();
    assert_eq!(a, ((v(0.0), v(10000.0)), v(0.1)));
    let b = solve_range(&vec![vs(&[0.0001, 0.001])], default_config(false)).unwrap();
    assert_eq!(b, ((v(0.0), v(0.001)), v(0.1)));
    let c = solve_range(&vec![vs(&[123.0, 9877.0])], default_config(false)).unwrap();
    assert_eq!(c, ((v(0.0), v(10000.0)), v(0.1)));
}

#[test]
fn solve_negative_spans() {
    let a = solve_range(&vec![vs(&[-3.0, 7.0])], default_config(false)).unwrap();
    assert_eq!(a, ((v(-3.0), v(7.0)), v(0.1)));
    // All-negative data with a zero baseline clamps the upper bound.
    let b = solve_range(&vec![vs(&[-8.0, -2.0])], default_config(true)).unwrap();
    assert_eq!(b, ((v(-8.0), v(0.0)), v(0.125)));
}

#[test]
fn solve_pools_several_series() {
    let sol = solve_range(
        &vec![vs(&[1.0, 2.0]), vs(&[]), vs(&[4.0, 100.0])],
        default_config(false),
    )
    .unwrap();
    assert_eq!(sol, ((v(0.0), v(100.0)), v(0.1)));
}

#[test]
fn solve_empty_set_is_invalid_input() {
    let none: Vec<Vec<i128>> = vec![];
    assert_eq!(
        solve_range(&none, default_config(false)),
        Err(ChartError::InvalidInput)
    );
    let empties: Vec<Vec<i128>> = vec![vec![], vec![]];
    assert_eq!(
        solve_range(&empties, default_config(false)),
        Err(ChartError::InvalidInput)
    );
}

#[test]
fn solve_pathological_magnitude_is_instability() {
    let sol = solve_range(&vec![vec![i128::MAX - 1]], default_config(false));
    assert_eq!(sol, Err(ChartError::NumericInstability));
}

#[test]
fn solve_custom_band() {
    // A caller may narrow the band; the solver still lands inside it.
    let cfg = RangeConfig {
        start_zero: false,
        data_fill: v(0.8),
        min_delim_scale: v(0.05),
        max_delim_scale: v(0.1),
    };
    let ((amin, amax), scale) = solve_range(&vec![vs(&[0.0, 10.0])], cfg).unwrap();
    assert!(amin <= v(0.0) && v(10.0) <= amax);
    assert!(v(0.05) <= scale && scale <= v(0.1));
}

#[test]
fn calc_scale_divides_the_span() {
    // A span of two hundred takes a tick interval of ten: one
    // twentieth of the span.
    assert_eq!(calc_scale(v(100.0), v(300.0)).unwrap(), v(0.05));
    assert_eq!(calc_scale(v(0.0), v(1.0)).unwrap(), v(0.1));
    // The order of the bounds does not matter: the span is absolute.
    assert_eq!(calc_scale(v(300.0), v(100.0)).unwrap(), v(0.05));
}

#[test]
fn calc_scale_keeps_sevenths_and_falls_to_finer_intervals() {
    // A span of 0.7 divides evenly by 0.1: seven ticks, scale 1/7.
    assert_eq!(calc_scale(v(0.0), v(0.7)).unwrap(), 142_857_142_857_143);
    // A span of 1.23 is not divisible by 0.1; the interval falls to
    // 0.01, giving one hundred and twenty-three ticks.
    assert_eq!(calc_scale(v(0.0), v(1.23)).unwrap(), 8_130_081_300_813);
}

#[test]
fn axis_prop_overrides() {
    let mut axis = AxisProp::new((v(0.0), v(10.0)), (v(0.0), v(1.0)), v(0.1), v(0.1));
    axis.set_x_axis_bounds(v(100.0), v(300.0)).unwrap();
    assert_eq!(axis.x_min, v(100.0));
    assert_eq!(axis.x_max, v(300.0));
    assert_eq!(axis.x_scale, v(0.05));
    // An interval override recomputes the scale directly, without
    // re-checking the solver's constraints.
    axis.set_x_axis_interval(v(50.0)).unwrap();
    assert_eq!(axis.x_scale, v(0.25));
    axis.set_y_axis_bounds(v(-1.0), v(1.0)).unwrap();
    assert_eq!(axis.y_scale, v(0.05));
    axis.set_y_axis_interval(v(1.0)).unwrap();
    assert_eq!(axis.y_scale, v(0.5));
    axis.set_x_axis_title(String::from("time"));
    axis.set_y_axis_title(String::from("load"));
    assert_eq!(axis.x_title, "time");
    assert_eq!(axis.y_title, "load");
}

#[test]
fn axis_kind_by_sign() {
    assert_eq!(axis_kind(v(0.0), v(10.0), v(0.0), v(5.0)), AxisKind::Single);
    assert_eq!(axis_kind(v(-1.0), v(10.0), v(0.0), v(5.0)), AxisKind::DoubleHorizontal);
    assert_eq!(axis_kind(v(0.0), v(10.0), v(-2.0), v(5.0)), AxisKind::DoubleVertical);
    assert_eq!(axis_kind(v(-1.0), v(10.0), v(-2.0), v(5.0)), AxisKind::Full);
}

#[test]
fn calc_axis_props_reports_the_advisory_flag() {
    let (sol, flagged) =
        calc_axis_props(&vec![vs(&[1.0, 2.0, 3.0, 4.0, 100.0])], false).unwrap();
    assert_eq!(sol, ((v(0.0), v(100.0)), v(0.1)));
    assert!(flagged);
    let (sol2, flagged2) = calc_axis_props(&vec![vs(&[1.0, 2.0, 3.0])], false).unwrap();
    assert_eq!(sol2, ((v(1.0), v(3.0)), v(0.1)));
    assert!(!flagged2);
}

#[test]
fn widening_never_crosses_zero_from_a_zero_bound() {
    // [0, 3] needs widening; a lower bound of zero is never moved, so
    // all the padding goes above the data.
    let ((amin, amax), scale) = solve_range(&vec![vs(&[0.0, 3.0])], default_config(false)).unwrap();
    assert_eq!(amin, 0);
    assert_eq!(amax, 3_299_999_999_999_996);
    assert_eq!(scale, 121_212_121_212_119);
}

#[test]
fn widening_extends_the_bound_closer_to_its_data() {
    // [0.9, 4] gets nice bounds (0.9, 4); the interval does not divide
    // after doubling and both bounds touch their data, so the lower
    // bound takes the half-interval and the span becomes 3.2.
    let ((amin, amax), scale) = solve_range(&vec![vs(&[0.9, 4.0])], default_config(false)).unwrap();
    assert_eq!((amin, amax), (v(0.8), v(4.0)));
    assert_eq!(scale, v(0.125));
}

#[test]
fn solve_sub_unit_span_is_instability() {
    // A span of a single fixed-point unit cannot carry a tick interval.
    let sol = solve_range(&vec![vec![0i128, 1i128]], default_config(false));
    assert_eq!(sol, Err(ChartError::NumericInstability));
}
