use rustplot::percentile::{percentile, QUARTER, HALF, THREE_QUARTERS};
use rustplot::outlier::{quartile_bounds, has_outliers, remove_outliers};
use rustplot::sort::sort_values;
use rustplot::axis::get_percentage_in_bounds;
use rustplot::ChartError;
use rustplot::UNIT;

const U: i128 = UNIT;

fn v(x: f64) -> i128 {
    (x * (U as f64)).round() as i128
}

fn vs(xs: &[f64]) -> Vec<i128> {
    xs.iter().map(|&x| v(x)).collect()
}

#[test]
fn percentile_interpolates() {
    // Rank over [10, 20, 30, 40] at p = 0.4 is 2.2: twenty plus two
    // tenths of the gap to thirty.
    let data = vs(&[10.0, 20.0, 30.0, 40.0]);
    assert_eq!(percentile(&data, v(0.4)).unwrap(), v(22.0));
    assert_eq!(percentile(&data, 0).unwrap(), v(10.0));
    assert_eq!(percentile(&data, U).unwrap(), v(40.0));
    assert_eq!(percentile(&data, HALF).unwrap(), v(25.0));
}

#[test]
fn percentile_extremes_of_any_sorted_series() {
    let data = vs(&[-7.5, -1.0, 0.0, 2.25, 9.0]);
    assert_eq!(percentile(&data, 0).unwrap(), v(-7.5));
    assert_eq!(percentile(&data, U).unwrap(), v(9.0));
    let single = vs(&[3.5]);
    assert_eq!(percentile(&single, 0).unwrap(), v(3.5));
    assert_eq!(percentile(&single, U).unwrap(), v(3.5));
    assert_eq!(percentile(&single, HALF).unwrap(), v(3.5));
}

#[test]
fn percentile_empty_is_invalid_input() {
    let empty: Vec<i128> = Vec::new();
    assert_eq!(percentile(&empty, HALF), Err(ChartError::InvalidInput));
}

#[test]
fn percentile_huge_gap_is_instability() {
    let data = vec![i128::MIN + 1, i128::MAX - 1];
    assert_eq!(percentile(&data, HALF), Err(ChartError::NumericInstability));
}

#[test]
fn quartiles_are_ordered() {
    let data = vs(&[8.0, 1.0, 5.0, 3.0, 7.0, 2.0, 6.0, 4.0]);
    let sorted = sort_values(&data);
    let q1 = percentile(&sorted, QUARTER).unwrap();
    let med = percentile(&sorted, HALF).unwrap();
    let q3 = percentile(&sorted, THREE_QUARTERS).unwrap();
    assert_eq!(q1, v(2.75));
    assert_eq!(med, v(4.5));
    assert_eq!(q3, v(6.25));
    assert!(q1 <= med && med <= q3);
}

#[test]
fn quartile_bounds_of_nine_values() {
    let data = vs(&[1.0, 2.0, 3.0, 4.0, 5.0, 6.0, 7.0, 8.0, 40.0]);
    let (lo, hi) = quartile_bounds(&data).unwrap();
    assert_eq!(lo, v(-3.0));
    assert_eq!(hi, v(13.0));
}

#[test]
fn remove_outliers_tests() {
    // No outlier
    let vec_1 = vs(&[1.0, 2.0, 3.0, 4.0, 5.0, 6.0, 7.0, 8.0]);
    let result_1 = vs(&[1.0, 2.0, 3.0, 4.0, 5.0, 6.0, 7.0, 8.0]);
    let outlier_res_1 = remove_outliers(&vec_1).unwrap();
    assert_eq!(outlier_res_1, result_1);

    // Outlier outside upper limit
    let vec_2 = vs(&[1.0, 2.0, 3.0, 4.0, 5.0, 6.0, 7.0, 8.0, 40.0]);
    let result_2 = vs(&[1.0, 2.0, 3.0, 4.0, 5.0, 6.0, 7.0, 8.0]);
    let outlier_res_2 = remove_outliers(&vec_2).unwrap();
    assert_eq!(outlier_res_2, result_2);

    // Outlier outside lower limit
    let vec_3 = vs(&[1.0, 2.0, 3.0, 4.0, 5.0, 6.0, 7.0, 8.0, -40.0]);
    let result_3 = vs(&[1.0, 2.0, 3.0, 4.0, 5.0, 6.0, 7.0, 8.0]);
    let outlier_res_3 = remove_outliers(&vec_3).unwrap();
    assert_eq!(outlier_res_3, result_3);
}

#[test]
fn remove_outliers_keeps_values_on_the_limit() {
    // The limits of this series are -6 and 10, and -6 is a value of it:
    // removal is inclusive, so the value on the limit stays.
    let data = vs(&[-6.0, 0.0, 2.0, 4.0, 6.0]);
    let (lo, hi) = quartile_bounds(&data).unwrap();
    assert_eq!((lo, hi), (v(-6.0), v(10.0)));
    let kept = remove_outliers(&data).unwrap();
    assert!(kept.contains(&v(-6.0)));
    assert_eq!(kept.len(), 5);
}

#[test]
fn remove_outliers_empty_is_invalid_input() {
    let empty: Vec<i128> = Vec::new();
    assert_eq!(remove_outliers(&empty), Err(ChartError::InvalidInput));
}

#[test]
fn has_outliers_uses_strict_limits() {
    // The detector flags only values strictly beyond a limit, unlike
    // the inclusive removal predicate.
    let with_outlier = vec![vs(&[1.0, 2.0, 3.0, 4.0, 5.0, 6.0, 7.0, 8.0, 40.0])];
    assert_eq!(has_outliers(&with_outlier), Ok(true));
    let clean = vec![vs(&[1.0, 2.0, 3.0, 4.0, 5.0, 6.0, 7.0, 8.0])];
    assert_eq!(has_outliers(&clean), Ok(false));
    // A value exactly on its series' limit is not flagged: detection
    // is strict.
    let on_limit = vec![vs(&[-6.0, 0.0, 2.0, 4.0, 6.0])];
    assert_eq!(has_outliers(&on_limit), Ok(false));
}

#[test]
fn sort_values_orders_and_keeps() {
    let data = vs(&[3.0, -1.0, 2.0, 3.0, 0.0]);
    let sorted = sort_values(&data);
    assert_eq!(sorted, vs(&[-1.0, 0.0, 2.0, 3.0, 3.0]));
}

#[test]
fn get_percentage_in_bounds_tests() {
    assert_eq!(get_percentage_in_bounds(v(0.0), v(0.0), v(10.0)).unwrap(), v(0.0));
    assert_eq!(get_percentage_in_bounds(v(10.0), v(0.0), v(10.0)).unwrap(), v(1.0));
    assert_eq!(get_percentage_in_bounds(v(5.0), v(0.0), v(10.0)).unwrap(), v(0.5));
    assert_eq!(get_percentage_in_bounds(v(2.0), v(0.0), v(10.0)).unwrap(), v(0.2));
    assert_eq!(get_percentage_in_bounds(v(7.0), v(0.0), v(10.0)).unwrap(), v(0.7));
    assert_eq!(get_percentage_in_bounds(v(-2.0), v(0.0), v(10.0)).unwrap(), v(-0.2));
    assert_eq!(get_percentage_in_bounds(v(12.0), v(0.0), v(10.0)).unwrap(), v(1.2));
}
