//! Interquartile-range outlier detection.
//!
//! Over a sorted series the lower and upper quartiles give the
//! interquartile range; values more than one and a half times that range
//! outside the quartiles count as outliers. Detection flags a value
//! strictly beyond a limit, while removal keeps a value lying exactly on
//! a limit: the two predicates are deliberately distinct.

use vstd::prelude::*;
use crate::fixed::{round_div_spec, round_div, mul_in_range};
use crate::percentile::{
    QUARTER, THREE_QUARTERS, percentile_spec, percentile_in_range, percentile,
    lemma_percentile_monotone,
};
use crate::sort::{sorted, sorted_of, sort_values, lemma_filter_take_step};
use crate::ChartError;

verus! {

/// Half of three times the interquartile range of a sorted series: the
/// margin added beyond each quartile.
pub open spec fn iqr_margin_spec(s: Seq<i128>) -> int {
    let q1 = percentile_spec(s, QUARTER as int);
    let q3 = percentile_spec(s, THREE_QUARTERS as int);
    round_div_spec(3 * (q3 - q1), 2)
}

/// The limit below which a value of the sorted series `s` counts as low:
/// `Q1 - 1.5 * IQR`.
pub open spec fn lower_limit_spec(s: Seq<i128>) -> int {
    percentile_spec(s, QUARTER as int) - iqr_margin_spec(s)
}

/// The limit above which a value of the sorted series `s` counts as
/// high: `Q3 + 1.5 * IQR`.
pub open spec fn upper_limit_spec(s: Seq<i128>) -> int {
    percentile_spec(s, THREE_QUARTERS as int) + iqr_margin_spec(s)
}

/// Whether the quartiles and the limits of the sorted series `s` stay
/// within the machine range.
pub open spec fn limits_in_range(s: Seq<i128>) -> bool {
    &&& percentile_in_range(s, QUARTER as int)
    &&& percentile_in_range(s, THREE_QUARTERS as int)
    &&& mul_in_range(3, percentile_spec(s, THREE_QUARTERS as int) - percentile_spec(
        s,
        QUARTER as int,
    ))
    &&& i128::MIN <= lower_limit_spec(s)
    &&& upper_limit_spec(s) <= i128::MAX
}

/// A series is fit for outlier analysis when it has a value and its
/// quartile arithmetic stays in range.
pub open spec fn series_ok(s: Seq<i128>) -> bool {
    s.len() > 0 && limits_in_range(sorted_of(s))
}

/// Computes `(Q1 - 1.5 * IQR, Q3 + 1.5 * IQR)` over a copy of `data`
/// sorted ascending. An empty series is `InvalidInput`; arithmetic
/// beyond the fixed-point range is `NumericInstability`.
pub fn quartile_bounds(data: &Vec<i128>) -> (r: Result<(i128, i128), ChartError>)
    ensures
        r is Ok <==> series_ok(data@),
        r matches Ok(b) ==> b.0 == lower_limit_spec(sorted_of(data@)) && b.1 == upper_limit_spec(
            sorted_of(data@),
        ),
        data@.len() == 0 ==> r == Err::<(i128, i128), ChartError>(ChartError::InvalidInput),
        data@.len() > 0 && !limits_in_range(sorted_of(data@)) ==> r == Err::<
            (i128, i128),
            ChartError,
        >(ChartError::NumericInstability),
{
    let sorted_data = sort_values(data);
    quartile_bounds_sorted(&sorted_data)
}

/// `quartile_bounds` over data already arranged in ascending order.
pub fn quartile_bounds_sorted(data: &Vec<i128>) -> (r: Result<(i128, i128), ChartError>)
    requires
        sorted(data@),
    ensures
        r is Ok <==> data@.len() > 0 && limits_in_range(data@),
        r matches Ok(b) ==> b.0 == lower_limit_spec(data@) && b.1 == upper_limit_spec(data@),
        data@.len() == 0 ==> r == Err::<(i128, i128), ChartError>(ChartError::InvalidInput),
        data@.len() > 0 && !limits_in_range(data@) ==> r == Err::<
            (i128, i128),
            ChartError,
        >(ChartError::NumericInstability),
{
    proof {
        crate::sort::lemma_sorted_of(data@, data@);
    }
    let q1 = match percentile(data, QUARTER) {
        Ok(v) => v,
        Err(e) => {
            return Err(e);
        },
    };
    let q3 = match percentile(data, THREE_QUARTERS) {
        Ok(v) => v,
        Err(e) => {
            return Err(e);
        },
    };
    proof {
        lemma_percentile_monotone(data@, QUARTER as int, THREE_QUARTERS as int);
    }
    let iqr = match q3.checked_sub(q1) {
        Some(v) => v,
        None => {
            proof {
                assert(q3 - q1 > i128::MAX ==> 3 * (q3 - q1) > i128::MAX) by (nonlinear_arith);
            }
            return Err(ChartError::NumericInstability);
        },
    };
    let tripled = match 3i128.checked_mul(iqr) {
        Some(t) => t,
        None => {
            return Err(ChartError::NumericInstability);
        },
    };
    let margin = round_div(tripled, 2);
    let lower = match q1.checked_sub(margin) {
        Some(v) => v,
        None => {
            return Err(ChartError::NumericInstability);
        },
    };
    let upper = match q3.checked_add(margin) {
        Some(v) => v,
        None => {
            return Err(ChartError::NumericInstability);
        },
    };
    Ok((lower, upper))
}

/// Whether some value of the series set lies strictly outside the
/// limits of its own series: the advisory outlier flag.
pub open spec fn has_outliers_spec(set: Seq<Seq<i128>>) -> bool {
    exists|i: int, j: int|
        0 <= i < set.len() && 0 <= j < set[i].len() && (set[i][j] < lower_limit_spec(
            sorted_of(set[i]),
        ) || set[i][j] > upper_limit_spec(sorted_of(set[i])))
}

/// Flags whether any series of the set holds a value strictly below its
/// lower limit or strictly above its upper limit. The flag is advisory:
/// callers may report it but never let it block layout.
pub fn has_outliers(data: &Vec<Vec<i128>>) -> (r: Result<bool, ChartError>)
    ensures
        r is Ok <==> forall|i: int| 0 <= i < data@.len() ==> series_ok(data@[i]@),
        r matches Ok(b) ==> b == has_outliers_spec(data@.map_values(|v: Vec<i128>| v@)),
        r == Err::<bool, ChartError>(ChartError::InvalidInput) ==> exists|i: int|
            0 <= i < data@.len() && data@[i]@.len() == 0,
{
    let ghost set = data@.map_values(|v: Vec<i128>| v@);
    let mut found = false;
    let mut i: usize = 0;
    while i < data.len()
        invariant
            i <= data.len(),
            set == data@.map_values(|v: Vec<i128>| v@),
            forall|k: int| 0 <= k < i ==> series_ok(data@[k]@),
            found == exists|k: int, j: int|
                0 <= k < i && 0 <= j < set[k].len() && (set[k][j] < lower_limit_spec(
                    sorted_of(set[k]),
                ) || set[k][j] > upper_limit_spec(sorted_of(set[k]))),
        decreases data.len() - i,
    {
        let series = &data[i];
        let sorted_data = sort_values(series);
        let limits = match quartile_bounds_sorted(&sorted_data) {
            Ok(l) => l,
            Err(e) => {
                return Err(e);
            },
        };
        let (lower, upper) = limits;
        let mut j: usize = 0;
        let mut here = false;
        while j < sorted_data.len()
            invariant
                j <= sorted_data.len(),
                here == exists|t: int|
                    0 <= t < j && (sorted_data@[t] < lower || sorted_data@[t] > upper),
            decreases sorted_data.len() - j,
        {
            if sorted_data[j] < lower || sorted_data[j] > upper {
                here = true;
            }
            j = j + 1;
        }
        proof {
            // A flagged value of the sorted copy is a value of the series,
            // and the other way round: the two hold the same values.
            broadcast use vstd::seq_lib::group_to_multiset_ensures;
            assert(set[i as int] == series@);
            if here {
                let t = choose|t: int|
                    0 <= t < sorted_data@.len() && (sorted_data@[t] < lower || sorted_data@[t]
                        > upper);
                assert(sorted_data@.contains(sorted_data@[t]));
                assert(series@.to_multiset().count(sorted_data@[t]) > 0);
                assert(series@.contains(sorted_data@[t]));
            }
            if !here && exists|j2: int|
                0 <= j2 < set[i as int].len() && (set[i as int][j2] < lower_limit_spec(
                    sorted_of(set[i as int]),
                ) || set[i as int][j2] > upper_limit_spec(sorted_of(set[i as int]))) {
                let j2 = choose|j2: int|
                    0 <= j2 < set[i as int].len() && (set[i as int][j2] < lower_limit_spec(
                        sorted_of(set[i as int]),
                    ) || set[i as int][j2] > upper_limit_spec(sorted_of(set[i as int])));
                assert(series@.contains(series@[j2]));
                assert(sorted_data@.to_multiset().count(series@[j2]) > 0);
                assert(sorted_data@.contains(series@[j2]));
                let t = choose|t: int| 0 <= t < sorted_data@.len() && sorted_data@[t] == series@[j2];
                assert(sorted_data@[t] < lower || sorted_data@[t] > upper);
            }
        }
        if here {
            found = true;
        }
        i = i + 1;
    }
    Ok(found)
}

/// Keeps, from a copy of `data` sorted ascending, exactly the values
/// lying inclusively within the quartile limits; values on a limit stay.
pub fn remove_outliers(data: &Vec<i128>) -> (r: Result<Vec<i128>, ChartError>)
    ensures
        r is Ok <==> series_ok(data@),
        r matches Ok(v) ==> v@ == sorted_of(data@).filter(
            |x: i128| lower_limit_spec(sorted_of(data@)) <= x <= upper_limit_spec(sorted_of(data@)),
        ),
        data@.len() == 0 ==> r == Err::<Vec<i128>, ChartError>(ChartError::InvalidInput),
        data@.len() > 0 && !limits_in_range(sorted_of(data@)) ==> r == Err::<
            Vec<i128>,
            ChartError,
        >(ChartError::NumericInstability),
{
    let sorted_data = sort_values(data);
    let limits = match quartile_bounds_sorted(&sorted_data) {
        Ok(l) => l,
        Err(e) => {
            return Err(e);
        },
    };
    let (lower, upper) = limits;
    let ghost pred = |x: i128|
        lower_limit_spec(sorted_of(data@)) <= x <= upper_limit_spec(sorted_of(data@));
    let mut kept: Vec<i128> = Vec::new();
    let mut i: usize = 0;
    proof {
        reveal_with_fuel(Seq::<_>::filter, 1);
        assert(sorted_data@.take(0).filter(pred) =~= Seq::<i128>::empty());
    }
    while i < sorted_data.len()
        invariant
            i <= sorted_data.len(),
            lower == lower_limit_spec(sorted_of(data@)),
            upper == upper_limit_spec(sorted_of(data@)),
            sorted_data@ == sorted_of(data@),
            pred == (|x: i128|
                lower_limit_spec(sorted_of(data@)) <= x <= upper_limit_spec(sorted_of(data@))),
            kept@ == sorted_data@.take(i as int).filter(pred),
        decreases sorted_data.len() - i,
    {
        let v = sorted_data[i];
        proof {
            lemma_filter_take_step(sorted_data@, pred, i as int);
        }
        if v >= lower && v <= upper {
            kept.push(v);
        }
        i = i + 1;
    }
    proof {
        assert(sorted_data@.take(sorted_data@.len() as int) == sorted_data@);
    }
    Ok(kept)
}

} // verus!
