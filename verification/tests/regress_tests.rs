use rustplot::regress::{linear_regression, best_fit_lines};
use rustplot::UNIT;

const U: i128 = UNIT;

fn v(x: f64) -> i128 {
    (x * (U as f64)).round() as i128
}

fn vs(xs: &[f64]) -> Vec<i128> {
    xs.iter().map(|&x| v(x)).collect()
}

#[test]
fn exact_line_through_three_points() {
    // (0,1), (1,3), (2,5) lie on y = 2x + 1 exactly.
    let xs = vs(&[0.0, 1.0, 2.0]);
    let ys = vs(&[1.0, 3.0, 5.0]);
    let (slope, intercept) = linear_regression(&xs, &ys).unwrap().unwrap();
    assert_eq!(slope, v(2.0));
    assert_eq!(intercept, v(1.0));
}

#[test]
fn scattered_points_fit() {
    // Least squares over (1,2), (2,2), (3,4): slope 1, intercept 2/3.
    let xs = vs(&[1.0, 2.0, 3.0]);
    let ys = vs(&[2.0, 2.0, 4.0]);
    let (slope, intercept) = linear_regression(&xs, &ys).unwrap().unwrap();
    assert_eq!(slope, v(1.0));
    assert_eq!(intercept, 666_666_666_666_667);
}

#[test]
fn vertical_data_has_no_line() {
    // All x equal: the denominator vanishes and there is no line to
    // draw.
    let xs = vs(&[2.0, 2.0, 2.0]);
    let ys = vs(&[1.0, 2.0, 3.0]);
    assert_eq!(linear_regression(&xs, &ys).unwrap(), None);
}

#[test]
fn empty_pair_has_no_line() {
    let none: Vec<i128> = Vec::new();
    assert_eq!(linear_regression(&none, &none).unwrap(), None);
}

#[test]
fn one_line_per_series() {
    let xs = vec![vs(&[0.0, 1.0, 2.0]), vs(&[5.0, 5.0])];
    let ys = vec![vs(&[1.0, 3.0, 5.0]), vs(&[1.0, 2.0])];
    let lines = best_fit_lines(&xs, &ys).unwrap();
    assert_eq!(lines.len(), 2);
    assert_eq!(lines[0], Some((v(2.0), v(1.0))));
    assert_eq!(lines[1], None);
}
