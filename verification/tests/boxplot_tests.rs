use rustplot::boxplot::box_plot_summary;
use rustplot::ChartError;
use rustplot::UNIT;

const U: i128 = UNIT;

fn v(x: f64) -> i128 {
    (x * (U as f64)).round() as i128
}

fn vs(xs: &[f64]) -> Vec<i128> {
    xs.iter().map(|&x| v(x)).collect()
}

#[test]
fn summary_of_a_series_with_an_outlier() {
    let data = vec![vs(&[40.0, 8.0, 1.0, 5.0, 3.0, 7.0, 2.0, 6.0, 4.0])];
    let s = box_plot_summary(&data).unwrap();
    assert_eq!(s.len(), 1);
    assert_eq!(s[0].q1, v(3.0));
    assert_eq!(s[0].median, v(5.0));
    assert_eq!(s[0].q3, v(7.0));
    // Limits are -3 and 13: forty is the only outlier; the whiskers
    // span the remaining values.
    assert_eq!(s[0].outliers, vs(&[40.0]));
    assert_eq!(s[0].whisker_min, v(1.0));
    assert_eq!(s[0].whisker_max, v(8.0));
}

#[test]
fn summary_order_follows_the_input() {
    let data = vec![vs(&[1.0, 2.0, 3.0]), vs(&[10.0, 20.0, 30.0, 40.0])];
    let s = box_plot_summary(&data).unwrap();
    assert_eq!(s.len(), 2);
    assert_eq!(s[0].median, v(2.0));
    assert_eq!(s[1].median, v(25.0));
    assert_eq!(s[1].q1, v(17.5));
    assert_eq!(s[1].q3, v(32.5));
    assert!(s[0].outliers.is_empty() && s[1].outliers.is_empty());
    assert_eq!((s[1].whisker_min, s[1].whisker_max), (v(10.0), v(40.0)));
}

#[test]
fn summary_rejects_an_empty_series() {
    let data = vec![vs(&[1.0, 2.0]), Vec::new()];
    assert_eq!(box_plot_summary(&data), Err(ChartError::InvalidInput));
}

#[test]
fn quartiles_within_each_summary_are_ordered() {
    let data = vec![
        vs(&[5.0, -3.0, 12.0, 0.0, 7.7]),
        vs(&[2.5]),
        vs(&[-1.0, -1.0, -1.0]),
    ];
    let s = box_plot_summary(&data).unwrap();
    for b in &s {
        assert!(b.q1 <= b.median && b.median <= b.q3);
        assert!(b.whisker_min <= b.whisker_max);
    }
}
