use rustplot::histogram::{histogram, histogram_frequencies, Bin};
use rustplot::ChartError;
use rustplot::UNIT;

const U: i128 = UNIT;

fn v(x: f64) -> i128 {
    (x * (U as f64)).round() as i128
}

fn vs(xs: &[f64]) -> Vec<i128> {
    xs.iter().map(|&x| v(x)).collect()
}

#[test]
fn frequencies_partition_a_simple_axis() {
    // Ten bins of width one over [0, 10]; the ceiling value joins the
    // last bin.
    let data = vs(&[0.0, 0.5, 1.0, 1.5, 9.9, 10.0]);
    let bins = histogram_frequencies(&data, v(0.0), v(10.0), v(0.1));
    assert_eq!(bins.len(), 10);
    let counts: Vec<usize> = bins.iter().map(|b| b.count).collect();
    assert_eq!(counts, vec![2, 2, 0, 0, 0, 0, 0, 0, 0, 2]);
    assert_eq!(bins[0], Bin { lo: v(0.0), hi: v(1.0), count: 2 });
    assert_eq!(bins[9], Bin { lo: v(9.0), hi: v(10.0), count: 2 });
    // The frequencies total the series length.
    let total: usize = bins.iter().map(|b| b.count).sum();
    assert_eq!(total, data.len());
}

#[test]
fn frequencies_total_the_input_length() {
    let data = vs(&[3.3, 1.1, 7.7, 2.2, 2.2, 9.9, 0.0, 10.0, 5.5, 5.5, 5.5]);
    let bins = histogram_frequencies(&data, v(0.0), v(10.0), v(0.1));
    let total: usize = bins.iter().map(|b| b.count).sum();
    assert_eq!(total, data.len());
}

#[test]
fn histogram_pipeline_solves_both_axes() {
    let data = vs(&[1.0, 2.0, 2.0, 3.0, 3.0, 3.0, 4.0, 4.0, 4.0, 4.0]);
    let h = histogram(&data).unwrap();
    assert_eq!(h.x_min, 900_000_000_000_001);
    assert_eq!(h.x_max, 4_199_999_999_999_997);
    assert_eq!(h.x_scale, 121_212_121_212_119);
    let counts: Vec<usize> = h.bins.iter().map(|b| b.count).collect();
    assert_eq!(counts, vec![1, 0, 2, 0, 0, 3, 0, 4]);
    let total: usize = counts.iter().sum();
    assert_eq!(total, data.len());
    // The frequency axis starts at zero and encloses the largest count.
    assert_eq!((h.y_min, h.y_max, h.y_scale), (v(0.0), v(4.0), v(0.125)));
}

#[test]
fn histogram_empty_is_invalid_input() {
    let empty: Vec<i128> = Vec::new();
    assert_eq!(histogram(&empty), Err(ChartError::InvalidInput));
}
