//! Per-series box-plot decomposition: quartiles, whiskers and outliers.
//!
//! Each series is sorted; the quartiles come from the percentile
//! engine, outliers lie strictly outside the interquartile limits, and
//! the whiskers span the remaining values (a value exactly on a limit
//! stays inside the whiskers).

use vstd::prelude::*;
use crate::percentile::{QUARTER, HALF, THREE_QUARTERS, percentile_spec, percentile_in_range, percentile};
use crate::outlier::{lower_limit_spec, upper_limit_spec, limits_in_range, quartile_bounds_sorted};
use crate::sort::{sorted, sorted_of, sort_values, lemma_filter_take_step};
use crate::ChartError;

verus! {

/// The five-number summary of one series, with its outliers.
#[derive(Clone, Debug, PartialEq, Eq)]
pub struct BoxPlotSummary {
    pub q1: i128,
    pub median: i128,
    pub q3: i128,
    pub whisker_min: i128,
    pub whisker_max: i128,
    pub outliers: Vec<i128>,
}

/// The outliers of a sorted series: values strictly outside the limits,
/// in ascending order.
pub open spec fn outliers_spec(s: Seq<i128>) -> Seq<i128> {
    s.filter(|x: i128| x < lower_limit_spec(s) || x > upper_limit_spec(s))
}

/// The non-outlier values of a sorted series, in ascending order: the
/// inclusive complement of `outliers_spec`.
pub open spec fn retained_spec(s: Seq<i128>) -> Seq<i128> {
    s.filter(|x: i128| lower_limit_spec(s) <= x <= upper_limit_spec(s))
}

/// A series fit for a box plot: non-empty, quartile arithmetic in
/// range, and at least one value inside the limits for the whiskers.
pub open spec fn box_ok(s: Seq<i128>) -> bool {
    &&& s.len() > 0
    &&& limits_in_range(sorted_of(s))
    &&& percentile_in_range(sorted_of(s), HALF as int)
    &&& retained_spec(sorted_of(s)).len() > 0
}

/// The summary fields a correct decomposition of series `s` must hold:
/// quartiles by the percentile engine over the sorted arrangement,
/// outliers strictly outside the limits in ascending order, whiskers
/// the least and greatest of the remaining values.
pub open spec fn summary_matches(s: Seq<i128>, b: BoxPlotSummary) -> bool {
    let sd = sorted_of(s);
    &&& b.q1 == percentile_spec(sd, QUARTER as int)
    &&& b.median == percentile_spec(sd, HALF as int)
    &&& b.q3 == percentile_spec(sd, THREE_QUARTERS as int)
    &&& b.outliers@ == outliers_spec(sd)
    &&& b.whisker_min == retained_spec(sd).first()
    &&& b.whisker_max == retained_spec(sd).last()
    &&& forall|x: i128| retained_spec(sd).contains(x) ==> b.whisker_min <= x <= b.whisker_max
}

/// One summary per input series, order preserved: quartiles by the
/// percentile engine, outliers strictly outside the limits, whiskers
/// the least and greatest of the remaining values.
pub fn box_plot_summary(data: &Vec<Vec<i128>>) -> (r: Result<Vec<BoxPlotSummary>, ChartError>)
    ensures
        r is Ok <==> forall|i: int| 0 <= i < data@.len() ==> box_ok(data@[i]@),
        r matches Ok(v) ==> v@.len() == data@.len() && forall|i: int|
            0 <= i < data@.len() ==> summary_matches(data@[i]@, #[trigger] v@[i]),
        r is Err ==> exists|i: int| 0 <= i < data@.len() && !box_ok(data@[i]@),
        r == Err::<Vec<BoxPlotSummary>, ChartError>(ChartError::InvalidInput) ==> exists|i: int|
            0 <= i < data@.len() && data@[i]@.len() == 0,
{
    let mut out: Vec<BoxPlotSummary> = Vec::new();
    let mut i: usize = 0;
    while i < data.len()
        invariant
            i <= data.len(),
            out@.len() == i,
            forall|k: int| 0 <= k < i ==> box_ok(data@[k]@),
            forall|k: int| 0 <= k < i ==> summary_matches(data@[k]@, #[trigger] out@[k]),
        decreases data.len() - i,
    {
        let series = &data[i];
        let sorted_data = sort_values(series);
        let limits = match quartile_bounds_sorted(&sorted_data) {
            Ok(l) => l,
            Err(e) => {
                return Err(e);
            },
        };
        let (lower, upper) = limits;
        let q1 = match percentile(&sorted_data, QUARTER) {
            Ok(v) => v,
            Err(_) => {
                return Err(ChartError::NumericInstability);
            },
        };
        let median = match percentile(&sorted_data, HALF) {
            Ok(v) => v,
            Err(_) => {
                return Err(ChartError::NumericInstability);
            },
        };
        let q3 = match percentile(&sorted_data, THREE_QUARTERS) {
            Ok(v) => v,
            Err(_) => {
                return Err(ChartError::NumericInstability);
            },
        };
        let ghost sd = sorted_of(series@);
        let ghost out_pred = |x: i128| x < lower_limit_spec(sd) || x > upper_limit_spec(sd);
        let ghost keep_pred = |x: i128| lower_limit_spec(sd) <= x <= upper_limit_spec(sd);
        let mut outliers: Vec<i128> = Vec::new();
        let mut retained: Vec<i128> = Vec::new();
        let mut j: usize = 0;
        proof {
            reveal_with_fuel(Seq::<_>::filter, 1);
            assert(sorted_data@.take(0).filter(out_pred) =~= Seq::<i128>::empty());
            assert(sorted_data@.take(0).filter(keep_pred) =~= Seq::<i128>::empty());
        }
        while j < sorted_data.len()
            invariant
                j <= sorted_data.len(),
                sorted_data@ == sd,
                lower == lower_limit_spec(sd),
                upper == upper_limit_spec(sd),
                out_pred == (|x: i128| x < lower_limit_spec(sd) || x > upper_limit_spec(sd)),
                keep_pred == (|x: i128| lower_limit_spec(sd) <= x <= upper_limit_spec(sd)),
                outliers@ == sorted_data@.take(j as int).filter(out_pred),
                retained@ == sorted_data@.take(j as int).filter(keep_pred),
            decreases sorted_data.len() - j,
        {
            let v = sorted_data[j];
            proof {
                lemma_filter_take_step(sorted_data@, out_pred, j as int);
                lemma_filter_take_step(sorted_data@, keep_pred, j as int);
            }
            if v < lower || v > upper {
                outliers.push(v);
            }
            if v >= lower && v <= upper {
                retained.push(v);
            }
            j = j + 1;
        }
        proof {
            assert(sorted_data@.take(sorted_data@.len() as int) =~= sorted_data@);
        }
        if retained.len() == 0 {
            return Err(ChartError::NumericInstability);
        }
        let whisker_min = retained[0];
        let whisker_max = retained[retained.len() - 1];
        proof {
            lemma_filter_of_sorted_bounds(sd, keep_pred);
        }
        out.push(
            BoxPlotSummary {
                q1,
                median,
                q3,
                whisker_min,
                whisker_max,
                outliers,
            },
        );
        i = i + 1;
    }
    Ok(out)
}

/// Every value of a filtered sorted sequence lies between the filtered
/// sequence's first and last element.
proof fn lemma_filter_of_sorted_bounds(s: Seq<i128>, pred: spec_fn(i128) -> bool)
    requires
        sorted(s),
    ensures
        sorted(s.filter(pred)),
        forall|x: i128|
            s.filter(pred).contains(x) && s.filter(pred).len() > 0 ==> s.filter(pred).first() <= x
                <= s.filter(pred).last(),
    decreases s.len(),
{
    reveal_with_fuel(Seq::<_>::filter, 2);
    if s.len() == 0 {
    } else {
        let prefix = s.drop_last();
        assert(sorted(prefix)) by {
            assert(forall|a: int| 0 <= a < prefix.len() ==> prefix[a] == s[a]);
        }
        lemma_filter_of_sorted_bounds(prefix, pred);
        let f = s.filter(pred);
        let fp = prefix.filter(pred);
        broadcast use vstd::seq_lib::group_filter_ensures;

        assert forall|a: int, b: int| 0 <= a < b < f.len() implies f[a] <= f[b] by {
            if pred(s.last()) {
                assert(f == fp.push(s.last()));
                if b < fp.len() {
                    assert(f[a] == fp[a] && f[b] == fp[b]);
                } else {
                    assert(f[b] == s.last());
                    assert(f[a] == fp[a]);
                    assert(fp.contains(fp[a]));
                    prefix.lemma_filter_contains_rev(pred, fp[a]);
                    assert(prefix.contains(fp[a]));
                    let w = choose|w: int| 0 <= w < prefix.len() && prefix[w] == fp[a];
                    assert(s[w] == prefix[w]);
                    assert(s[w] <= s.last());
                }
            } else {
                assert(f == fp);
            }
        }
        assert forall|x: i128|
            f.contains(x) && f.len() > 0 implies f.first() <= x <= f.last() by {
            let w = choose|w: int| 0 <= w < f.len() && f[w] == x;
            assert(f[0] <= f[w]);
            assert(f[w] <= f[f.len() - 1]);
        }
    }
}

} // verus!
