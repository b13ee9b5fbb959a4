//! Ordinary least-squares regression over paired series.
//!
//! For `n` pairs, the slope is `(n·Σxy − Σx·Σy) / (n·Σx² − (Σx)²)` and
//! the intercept `(Σy − slope·Σx) / n`, with every product rounded to
//! the nearest unit. A degenerate fit (zero denominator, including an
//! empty pair of series) has no line: it is `None`, which callers treat
//! as nothing to draw.

use vstd::prelude::*;
use crate::fixed::{UNIT, round_div_spec, round_div, mul_in_range};
use crate::ChartError;

verus! {

/// The fixed-point product of two sample values: their mathematical
/// product in units of `10^-30`, rounded back to units of `10^-15`.
pub open spec fn fx_mul(a: int, b: int) -> int {
    round_div_spec(a * b, UNIT as int)
}

/// Nearest-integer division by any non-zero divisor, ties away from
/// zero: signs are symmetric.
pub open spec fn round_div_any(a: int, b: int) -> int {
    if b > 0 {
        round_div_spec(a, b)
    } else {
        round_div_spec(-a, -b)
    }
}

/// The sum of the pairwise fixed-point products of two equally long
/// prefixes.
pub open spec fn sum_products(xs: Seq<i128>, ys: Seq<i128>, n: int) -> int
    decreases n,
{
    if n <= 0 {
        0
    } else {
        sum_products(xs, ys, n - 1) + fx_mul(xs[n - 1] as int, ys[n - 1] as int)
    }
}

/// The left-to-right sum of a prefix of a series.
pub open spec fn sum_prefix(xs: Seq<i128>, n: int) -> int
    decreases n,
{
    if n <= 0 {
        0
    } else {
        sum_prefix(xs, n - 1) + xs[n - 1]
    }
}

/// The regression numerator `n·Σxy − Σx·Σy`.
pub open spec fn slope_num(xs: Seq<i128>, ys: Seq<i128>) -> int {
    xs.len() * sum_products(xs, ys, xs.len() as int) - fx_mul(
        sum_prefix(xs, xs.len() as int),
        sum_prefix(ys, ys.len() as int),
    )
}

/// The regression denominator `n·Σx² − (Σx)²`.
pub open spec fn slope_den(xs: Seq<i128>) -> int {
    xs.len() * sum_products(xs, xs, xs.len() as int) - fx_mul(
        sum_prefix(xs, xs.len() as int),
        sum_prefix(xs, xs.len() as int),
    )
}

/// The least-squares slope and intercept over the pair, when the
/// denominator is not zero.
pub open spec fn regression_spec(xs: Seq<i128>, ys: Seq<i128>) -> Option<(int, int)> {
    if slope_den(xs) == 0 {
        None
    } else {
        let slope = round_div_any(slope_num(xs, ys) * UNIT, slope_den(xs));
        let intercept = round_div_spec(
            sum_prefix(ys, ys.len() as int) - fx_mul(slope, sum_prefix(xs, xs.len() as int)),
            xs.len() as int,
        );
        Some((slope, intercept))
    }
}

/// Whether every sum and product of the regression stays within the
/// fixed-point range (checked along the exact left-to-right evaluation
/// order).
pub open spec fn regression_in_range(xs: Seq<i128>, ys: Seq<i128>, n: int) -> bool
    decreases n,
{
    if n <= 0 {
        true
    } else {
        &&& regression_in_range(xs, ys, n - 1)
        &&& mul_in_range(xs[n - 1] as int, ys[n - 1] as int)
        &&& mul_in_range(xs[n - 1] as int, xs[n - 1] as int)
        &&& in_rng(sum_products(xs, ys, n))
        &&& in_rng(sum_products(xs, xs, n))
        &&& in_rng(sum_prefix(xs, n))
        &&& in_rng(sum_prefix(ys, n))
    }
}

/// The symmetric machine range that rounding division accepts.
pub open spec fn in_rng(x: int) -> bool {
    -(i128::MAX as int) <= x <= i128::MAX as int
}

/// The final combination steps of the regression, within range.
pub open spec fn regression_tail_in_range(xs: Seq<i128>, ys: Seq<i128>) -> bool {
    let n = xs.len() as int;
    let sxy = sum_products(xs, ys, n);
    let sxx = sum_products(xs, xs, n);
    let sx = sum_prefix(xs, n);
    let sy = sum_prefix(ys, n);
    &&& in_rng(n * sxy)
    &&& in_rng(n * sxx)
    &&& mul_in_range(sx, sy)
    &&& mul_in_range(sx, sx)
    &&& in_rng(slope_num(xs, ys))
    &&& in_rng(slope_den(xs))
    &&& (slope_den(xs) != 0 ==> {
        let slope = round_div_any(slope_num(xs, ys) * UNIT, slope_den(xs));
        &&& mul_in_range(slope_num(xs, ys), UNIT as int)
        &&& mul_in_range(slope, sum_prefix(xs, xs.len() as int))
        &&& in_rng(sy - fx_mul(slope, sx))
    })
}

/// The least-squares line over one pair of series.
///
/// The two series must pair up value by value. `Ok(None)` is a
/// degenerate fit — no line to draw; a sum or product beyond the
/// fixed-point range is `NumericInstability`.
pub fn linear_regression(xs: &Vec<i128>, ys: &Vec<i128>) -> (r: Result<
    Option<(i128, i128)>,
    ChartError,
>)
    requires
        xs@.len() == ys@.len(),
    ensures
        r is Ok <==> regression_in_range(xs@, ys@, xs@.len() as int) && regression_tail_in_range(
            xs@,
            ys@,
        ),
        r matches Ok(line) ==> {
            &&& line is Some <==> slope_den(xs@) != 0
            &&& line matches Some(sc) ==> regression_spec(xs@, ys@) == Some(
                (sc.0 as int, sc.1 as int),
            )
        },
        r is Err ==> r == Err::<Option<(i128, i128)>, ChartError>(ChartError::NumericInstability),
{
    let n = xs.len();
    let mut sxy: i128 = 0;
    let mut sxx: i128 = 0;
    let mut sx: i128 = 0;
    let mut sy: i128 = 0;
    let mut i: usize = 0;
    while i < n
        invariant
            n == xs@.len() == ys@.len(),
            i <= n,
            regression_in_range(xs@, ys@, i as int),
            sxy == sum_products(xs@, ys@, i as int),
            sxx == sum_products(xs@, xs@, i as int),
            sx == sum_prefix(xs@, i as int),
            sy == sum_prefix(ys@, i as int),
        decreases n - i,
    {
        let x = xs[i];
        let y = ys[i];
        let pxy = match x.checked_mul(y) {
            Some(p) if p != i128::MIN => round_div(p, UNIT),
            _ => {
                proof {
                    lemma_regression_out(xs@, ys@, (i + 1) as int, xs@.len() as int);
                }
                return Err(ChartError::NumericInstability);
            },
        };
        let pxx = match x.checked_mul(x) {
            Some(p) if p != i128::MIN => round_div(p, UNIT),
            _ => {
                proof {
                    lemma_regression_out(xs@, ys@, (i + 1) as int, xs@.len() as int);
                }
                return Err(ChartError::NumericInstability);
            },
        };
        proof {
            crate::fixed::lemma_round_div_close((x as int) * (y as int), UNIT as int);
            crate::fixed::lemma_round_div_close((x as int) * (x as int), UNIT as int);
        }
        let nsxy = match sxy.checked_add(pxy) {
            Some(v) if v != i128::MIN => v,
            _ => {
                proof {
                    lemma_regression_out(xs@, ys@, (i + 1) as int, xs@.len() as int);
                }
                return Err(ChartError::NumericInstability);
            },
        };
        let nsxx = match sxx.checked_add(pxx) {
            Some(v) if v != i128::MIN => v,
            _ => {
                proof {
                    lemma_regression_out(xs@, ys@, (i + 1) as int, xs@.len() as int);
                }
                return Err(ChartError::NumericInstability);
            },
        };
        let nsx = match sx.checked_add(x) {
            Some(v) if v != i128::MIN => v,
            _ => {
                proof {
                    lemma_regression_out(xs@, ys@, (i + 1) as int, xs@.len() as int);
                }
                return Err(ChartError::NumericInstability);
            },
        };
        let nsy = match sy.checked_add(y) {
            Some(v) if v != i128::MIN => v,
            _ => {
                proof {
                    lemma_regression_out(xs@, ys@, (i + 1) as int, xs@.len() as int);
                }
                return Err(ChartError::NumericInstability);
            },
        };
        sxy = nsxy;
        sxx = nsxx;
        sx = nsx;
        sy = nsy;
        i = i + 1;
    }
    let n128 = n as i128;
    let top = match n128.checked_mul(sxy) {
        Some(a) if a != i128::MIN => match fixed_mul_checked(sx, sy) {
            Some(b) => match a.checked_sub(b) {
                Some(v) if v != i128::MIN => v,
                _ => {
                    return Err(ChartError::NumericInstability);
                },
            },
            None => {
                return Err(ChartError::NumericInstability);
            },
        },
        _ => {
            return Err(ChartError::NumericInstability);
        },
    };
    let bottom = match n128.checked_mul(sxx) {
        Some(a) if a != i128::MIN => match fixed_mul_checked(sx, sx) {
            Some(b) => match a.checked_sub(b) {
                Some(v) if v != i128::MIN => v,
                _ => {
                    return Err(ChartError::NumericInstability);
                },
            },
            None => {
                return Err(ChartError::NumericInstability);
            },
        },
        _ => {
            return Err(ChartError::NumericInstability);
        },
    };
    if bottom == 0 {
        return Ok(None);
    }
    proof {
        if n == 0 {
            assert(sum_prefix(xs@, 0) == 0);
            assert(round_div_spec(0, UNIT as int) == 0);
        }
    }
    assert(n >= 1);
    let slope = match top.checked_mul(UNIT) {
        Some(p) if p != i128::MIN => {
            if bottom > 0 {
                round_div(p, bottom)
            } else {
                round_div(-p, -bottom)
            }
        },
        _ => {
            return Err(ChartError::NumericInstability);
        },
    };
    let mc = match fixed_mul_checked(slope, sx) {
        Some(v) => v,
        None => {
            return Err(ChartError::NumericInstability);
        },
    };
    let cnum = match sy.checked_sub(mc) {
        Some(v) if v != i128::MIN => v,
        _ => {
            return Err(ChartError::NumericInstability);
        },
    };
    let intercept = round_div(cnum, n128);
    Ok(Some((slope, intercept)))
}

/// The fixed-point product, `None` when the raw product leaves the
/// symmetric machine range.
fn fixed_mul_checked(a: i128, b: i128) -> (r: Option<i128>)
    ensures
        r is Some <==> mul_in_range(a as int, b as int),
        r matches Some(v) ==> v == fx_mul(a as int, b as int),
{
    match a.checked_mul(b) {
        Some(p) if p != i128::MIN => Some(round_div(p, UNIT)),
        _ => None,
    }
}

/// A prefix out of range keeps every longer prefix out of range.
proof fn lemma_regression_out(xs: Seq<i128>, ys: Seq<i128>, k: int, n: int)
    requires
        0 <= k <= n,
        !regression_in_range(xs, ys, k),
    ensures
        !regression_in_range(xs, ys, n),
    decreases n - k,
{
    if k < n {
        lemma_regression_out(xs, ys, k + 1, n);
    }
}


/// One least-squares line per paired series, order preserved; a
/// degenerate pair has no line.
pub fn best_fit_lines(data_x: &Vec<Vec<i128>>, data_y: &Vec<Vec<i128>>) -> (r: Result<
    Vec<Option<(i128, i128)>>,
    ChartError,
>)
    requires
        data_x@.len() == data_y@.len(),
        forall|i: int| 0 <= i < data_x@.len() ==> (#[trigger] data_x@[i])@.len() == data_y@[i]@.len(),
    ensures
        r is Ok <==> forall|i: int|
            0 <= i < data_x@.len() ==> regression_in_range(
                (#[trigger] data_x@[i])@,
                data_y@[i]@,
                data_x@[i]@.len() as int,
            ) && regression_tail_in_range(data_x@[i]@, data_y@[i]@),
        r matches Ok(v) ==> v@.len() == data_x@.len() && forall|i: int|
            0 <= i < data_x@.len() ==> {
                &&& (#[trigger] v@[i]) is Some <==> slope_den(data_x@[i]@) != 0
                &&& v@[i] matches Some(sc) ==> regression_spec(data_x@[i]@, data_y@[i]@) == Some(
                    (sc.0 as int, sc.1 as int),
                )
            },
        r is Err ==> r == Err::<Vec<Option<(i128, i128)>>, ChartError>(
            ChartError::NumericInstability,
        ),
{
    let mut out: Vec<Option<(i128, i128)>> = Vec::new();
    let mut i: usize = 0;
    while i < data_x.len()
        invariant
            data_x@.len() == data_y@.len(),
            forall|k: int|
                0 <= k < data_x@.len() ==> (#[trigger] data_x@[k])@.len() == data_y@[k]@.len(),
            i <= data_x@.len(),
            out@.len() == i,
            forall|k: int|
                0 <= k < i ==> regression_in_range(
                    (#[trigger] data_x@[k])@,
                    data_y@[k]@,
                    data_x@[k]@.len() as int,
                ) && regression_tail_in_range(data_x@[k]@, data_y@[k]@),
            forall|k: int|
                0 <= k < i ==> {
                    &&& (#[trigger] out@[k]) is Some <==> slope_den(data_x@[k]@) != 0
                    &&& out@[k] matches Some(sc) ==> regression_spec(data_x@[k]@, data_y@[k]@)
                        == Some((sc.0 as int, sc.1 as int))
                },
        decreases data_x.len() - i,
    {
        let line = match linear_regression(&data_x[i], &data_y[i]) {
            Ok(l) => l,
            Err(e) => {
                return Err(e);
            },
        };
        out.push(line);
        i = i + 1;
    }
    Ok(out)
}

} // verus!
