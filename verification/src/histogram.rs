//! Histogram binning over a solved axis.
//!
//! A solved x-axis `(min, max, scale)` yields `round(1/scale)` bins of
//! equal width `round(span * scale)`; bin `i` spans
//! `[min + i*width, min + (i+1)*width)`, half-open except that a value
//! exactly equal to `max` falls into the last bin. The frequencies then
//! get a y-axis of their own, solved with a zero baseline.

use vstd::prelude::*;
use crate::fixed::{
    UNIT, round_div_spec, round_div, floor_div, mul_in_range,
};
use crate::range::{default_config, solve_range, pooled_min, pooled_max, set_view};
use crate::ChartError;

verus! {

/// One histogram bin: its half-open span and how many values fell in.
#[derive(Clone, Copy, Debug, PartialEq, Eq, Structural)]
pub struct Bin {
    pub lo: i128,
    pub hi: i128,
    pub count: usize,
}

/// The bin a value belongs to: its offset from the axis floor in whole
/// bin widths, except that the axis ceiling itself joins the last bin.
pub open spec fn bin_of(v: int, amin: int, amax: int, g: int, cnt: int) -> int {
    if v == amax {
        cnt - 1
    } else {
        (v - amin) / g
    }
}

/// The membership predicate of bin `i`.
pub open spec fn bin_pred(amin: int, amax: int, g: int, cnt: int, i: int) -> spec_fn(i128) -> bool {
    |v: i128| bin_of(v as int, amin, amax, g, cnt) == i
}

/// The total of the bin frequencies.
pub open spec fn freq_sum(bins: Seq<Bin>) -> int
    decreases bins.len(),
{
    if bins.len() == 0 {
        0
    } else {
        freq_sum(bins.drop_last()) + bins.last().count
    }
}

/// The number of bins of a scale: the rounded tick count `1 / scale`.
pub open spec fn bin_count_spec(scale: int) -> int {
    round_div_spec(UNIT as int, scale)
}

/// The bin width of a span and scale: the rounded interval
/// `span * scale`.
pub open spec fn bin_width_spec(ar: int, scale: int) -> int {
    round_div_spec(ar * scale, UNIT as int)
}

/// A solved axis fit for binning: the bins are at least one unit wide,
/// there is at least one and at most an addressable number of them,
/// and together they span the whole axis.
pub open spec fn binnable(amin: int, amax: int, scale: int) -> bool {
    let cnt = bin_count_spec(scale);
    let g = bin_width_spec(amax - amin, scale);
    &&& amin < amax
    &&& amax - amin <= i128::MAX
    &&& 0 < scale <= UNIT
    &&& mul_in_range(amax - amin, scale)
    &&& 1 <= cnt <= usize::MAX
    &&& g >= 1
    &&& amin + cnt * g <= i128::MAX
    &&& cnt * g <= i128::MAX
}

/// Whether every value lands in a bin: a value short of the axis
/// ceiling must fall below the end of the last bin (the ceiling itself
/// always joins the last bin).
pub open spec fn values_place(data: Seq<i128>, amin: int, amax: int, scale: int) -> bool {
    let cnt = bin_count_spec(scale);
    let g = bin_width_spec(amax - amin, scale);
    forall|j: int| 0 <= j < data.len() ==> #[trigger] data[j] == amax || data[j] < amin + cnt * g
}

/// Counts, for each bin of the solved axis, the values that fall in it.
/// Every value lands in exactly one bin, so the frequencies total the
/// length of the input series.
pub fn histogram_frequencies(data: &Vec<i128>, amin: i128, amax: i128, scale: i128) -> (bins: Vec<
    Bin,
>)
    requires
        binnable(amin as int, amax as int, scale as int),
        values_place(data@, amin as int, amax as int, scale as int),
        forall|j: int| 0 <= j < data@.len() ==> amin <= #[trigger] data@[j] <= amax,
    ensures
        bins@.len() == bin_count_spec(scale as int),
        ({
            let cnt = bin_count_spec(scale as int);
            let g = bin_width_spec(amax - amin, scale as int);
            forall|i: int|
                0 <= i < cnt ==> {
                    &&& (#[trigger] bins@[i]).lo == amin + i * g
                    &&& bins@[i].hi == amin + (i + 1) * g
                    &&& bins@[i].count == data@.filter(
                        bin_pred(amin as int, amax as int, g, cnt, i),
                    ).len()
                }
        }),
        freq_sum(bins@) == data@.len(),
{
    let ar = amax - amin;
    let cnt128 = round_div(UNIT, scale);
    let cnt = cnt128 as usize;
    let prod = ar * scale;
    let g = round_div(prod, UNIT);
    proof {
        assert(g == bin_width_spec(amax - amin, scale as int));
    }
    let ghost gcnt = cnt as int;
    let ghost gg = g as int;
    let mut counts: Vec<usize> = Vec::new();
    let mut z: usize = 0;
    proof {
        lemma_zero_counts(Seq::<usize>::empty());
    }
    while z < cnt
        invariant
            z <= cnt,
            counts@.len() == z,
            forall|i: int| 0 <= i < z ==> counts@[i] == 0,
            count_sum(counts@) == 0,
        decreases cnt - z,
    {
        let ghost before = counts@;
        counts.push(0);
        proof {
            assert(counts@.drop_last() =~= before);
        }
        z = z + 1;
    }
    proof {
        assert forall|i: int| 0 <= i < gcnt implies counts@[i] == data@.take(0).filter(
            bin_pred(amin as int, amax as int, gg, gcnt, i),
        ).len() by {
            reveal_with_fuel(Seq::<_>::filter, 1);
            assert(data@.take(0).filter(bin_pred(amin as int, amax as int, gg, gcnt, i))
                =~= Seq::<i128>::empty());
        }
    }
    let mut j: usize = 0;
    while j < data.len()
        invariant
            j <= data.len(),
            counts@.len() == gcnt == cnt,
            gg == g >= 1,
            binnable(amin as int, amax as int, scale as int),
            gcnt == bin_count_spec(scale as int),
            gg == bin_width_spec(amax - amin, scale as int),
            values_place(data@, amin as int, amax as int, scale as int),
            forall|t: int| 0 <= t < data@.len() ==> amin <= #[trigger] data@[t] <= amax,
            forall|i: int|
                0 <= i < gcnt ==> #[trigger] counts@[i] == data@.take(j as int).filter(
                    bin_pred(amin as int, amax as int, gg, gcnt, i),
                ).len(),
            forall|i: int| 0 <= i < gcnt ==> counts@[i] <= j,
            count_sum(counts@) == j,
        decreases data.len() - j,
    {
        let v = data[j];
        let idx: usize;
        if v == amax {
            idx = cnt - 1;
        } else {
            let off = v - amin;
            let q = floor_div(off, g);
            proof {
                assert(data@[j as int] < amin + gcnt * gg);
                vstd::arithmetic::div_mod::lemma_fundamental_div_mod(off as int, gg);
                assert((off as int) / gg < gcnt) by (nonlinear_arith)
                    requires
                        0 <= off as int,
                        (off as int) < gcnt * gg,
                        gg >= 1,
                        off as int == gg * ((off as int) / gg) + (off as int) % gg,
                        0 <= (off as int) % gg < gg;
            }
            idx = q as usize;
        }
        proof {
            assert(idx as int == bin_of(v as int, amin as int, amax as int, gg, gcnt));
        }
        let ghost before = counts@;
        let c = counts[idx];
        proof {
            lemma_count_sum_update(before, idx as int, (c + 1) as usize);
        }
        counts[idx] = c + 1;
        proof {
            assert forall|i: int|
                0 <= i < gcnt implies #[trigger] counts@[i] == data@.take(j + 1).filter(
                bin_pred(amin as int, amax as int, gg, gcnt, i),
            ).len() by {
                crate::sort::lemma_filter_take_step(
                    data@,
                    bin_pred(amin as int, amax as int, gg, gcnt, i),
                    j as int,
                );
                if i == idx as int {
                    assert(bin_pred(amin as int, amax as int, gg, gcnt, i)(data@[j as int]));
                } else {
                    assert(!(bin_pred(amin as int, amax as int, gg, gcnt, i)(data@[j as int])));
                    assert(counts@[i] == before[i]);
                }
            }
        }
        j = j + 1;
    }
    proof {
        assert(data@.take(data@.len() as int) =~= data@);
    }
    let mut bins: Vec<Bin> = Vec::new();
    let mut i: usize = 0;
    while i < cnt
        invariant
            i <= cnt,
            counts@.len() == gcnt == cnt,
            gg == g >= 1,
            amin < amax,
            amin + gcnt * gg <= i128::MAX,
            gcnt * gg <= i128::MAX,
            bins@.len() == i,
            forall|t: int|
                0 <= t < i ==> {
                    &&& (#[trigger] bins@[t]).lo == amin + t * gg
                    &&& bins@[t].hi == amin + (t + 1) * gg
                    &&& bins@[t].count == counts@[t]
                },
            freq_sum(bins@) == count_sum(counts@.take(i as int)),
        decreases cnt - i,
    {
        proof {
            assert(0 <= (i as int) * gg && (i as int) * gg <= ((i as int) + 1) * gg && ((i
                as int) + 1) * gg <= gcnt * gg) by (nonlinear_arith)
                requires
                    0 <= i as int,
                    (i as int) + 1 <= gcnt,
                    gg >= 1;
            assert(amin + ((i as int) + 1) * gg <= i128::MAX);
        }
        let lo = amin + (i as i128) * g;
        let hi = amin + (i as i128 + 1) * g;
        let ghost bins0 = bins@;
        bins.push(Bin { lo, hi, count: counts[i] });
        proof {
            assert(bins@.drop_last() =~= bins0);
            assert(counts@.take(i + 1).drop_last() =~= counts@.take(i as int));
        }
        i = i + 1;
    }
    proof {
        assert(counts@.take(gcnt) =~= counts@);
    }
    bins
}

/// The running total of a count vector.
pub open spec fn count_sum(s: Seq<usize>) -> int
    decreases s.len(),
{
    if s.len() == 0 {
        0
    } else {
        count_sum(s.drop_last()) + s.last()
    }
}

/// Updating one count moves the total by the difference.
proof fn lemma_count_sum_update(s: Seq<usize>, i: int, v: usize)
    requires
        0 <= i < s.len(),
    ensures
        count_sum(s.update(i, v)) == count_sum(s) - s[i] + v,
    decreases s.len(),
{
    let u = s.update(i, v);
    if i == s.len() - 1 {
        assert(u.drop_last() =~= s.drop_last());
    } else {
        assert(u.drop_last() =~= s.drop_last().update(i, v));
        assert(u.last() == s.last());
        lemma_count_sum_update(s.drop_last(), i, v);
    }
}

/// An empty count vector totals zero.
proof fn lemma_zero_counts(s: Seq<usize>)
    requires
        s.len() == 0,
    ensures
        count_sum(s) == 0,
{
}


/// A fully binned histogram: the solved x-axis, the bins, and the
/// y-axis solved over the frequencies with a zero baseline.
#[derive(Clone, Debug, PartialEq, Eq)]
pub struct HistogramSummary {
    pub x_min: i128,
    pub x_max: i128,
    pub x_scale: i128,
    pub bins: Vec<Bin>,
    pub y_min: i128,
    pub y_max: i128,
    pub y_scale: i128,
}

/// The frequency of each bin as a sample value (a count of one is the
/// value one).
pub open spec fn freq_values(data: Seq<i128>, amin: int, amax: int, scale: int) -> Seq<i128> {
    Seq::new(
        bin_count_spec(scale) as nat,
        |i: int|
            (data.filter(
                bin_pred(amin, amax, bin_width_spec(amax - amin, scale), bin_count_spec(scale), i),
            ).len() * UNIT) as i128,
    )
}

/// The two axes a histogram of `data` gets: the x-axis solved over the
/// data without a zero baseline, and, when that axis can be binned, the
/// y-axis solved over the bin frequencies with one. `None` when either
/// step fails.
pub open spec fn histogram_axes_spec(data: Seq<i128>) -> Option<
    (((int, int), int), ((int, int), int)),
> {
    if data.len() == 0 {
        None
    } else {
        match crate::range::solve_core_spec(
            crate::range::series_min(data),
            crate::range::series_max(data),
            crate::range::default_config_spec(false),
        ) {
            Option::None => None,
            Option::Some(((a, b), s)) => {
                if !binnable(a, b, s) || !values_place(data, a, b, s) {
                    None
                } else {
                    let fv = freq_values(data, a, b, s);
                    match crate::range::solve_core_spec(
                        crate::range::series_min(fv),
                        crate::range::series_max(fv),
                        crate::range::default_config_spec(true),
                    ) {
                        Option::None => None,
                        Option::Some(y) => Some((((a, b), s), y)),
                    }
                }
            },
        }
    }
}

/// Bins a series start to finish: solves the x-axis over the data,
/// counts the bin frequencies (their total is the series length), and
/// solves a y-axis over the frequencies with a zero baseline.
pub fn histogram(data: &Vec<i128>) -> (r: Result<HistogramSummary, ChartError>)
    ensures
        r is Ok <==> histogram_axes_spec(data@) is Some,
        data@.len() == 0 ==> r == Err::<HistogramSummary, ChartError>(ChartError::InvalidInput),
        data@.len() > 0 && histogram_axes_spec(data@) is None ==> r == Err::<
            HistogramSummary,
            ChartError,
        >(ChartError::NumericInstability),
        r matches Ok(h) ==> {
            let axes = histogram_axes_spec(data@)->0;
            &&& (((h.x_min as int, h.x_max as int), h.x_scale as int), (
                (h.y_min as int, h.y_max as int),
                h.y_scale as int,
            )) == axes
            &&& h.bins@.len() == bin_count_spec(h.x_scale as int)
            &&& ({
                let cnt = bin_count_spec(h.x_scale as int);
                let g = bin_width_spec(h.x_max - h.x_min, h.x_scale as int);
                forall|i: int|
                    0 <= i < cnt ==> {
                        &&& (#[trigger] h.bins@[i]).lo == h.x_min + i * g
                        &&& h.bins@[i].hi == h.x_min + (i + 1) * g
                        &&& h.bins@[i].count == data@.filter(
                            bin_pred(h.x_min as int, h.x_max as int, g, cnt, i),
                        ).len()
                    }
            })
            &&& freq_sum(h.bins@) == data@.len()
        },
{
    let mut set: Vec<Vec<i128>> = Vec::new();
    let mut copy: Vec<i128> = Vec::new();
    let mut t: usize = 0;
    while t < data.len()
        invariant
            t <= data.len(),
            copy@ == data@.take(t as int),
        decreases data.len() - t,
    {
        copy.push(data[t]);
        t = t + 1;
    }
    proof {
        assert(copy@ =~= data@);
    }
    set.push(copy);
    proof {
        assert(set_view(set@) =~~= seq![data@]);
        assert(pooled_min(Seq::<Seq<i128>>::empty()) is None);
        assert(pooled_max(Seq::<Seq<i128>>::empty()) is None);
        assert(seq![data@].drop_last() =~= Seq::<Seq<i128>>::empty());
        assert(seq![data@].last() == data@);
        if data@.len() > 0 {
            assert(pooled_min(set_view(set@)) == Some(crate::range::series_min(data@)));
            assert(pooled_max(set_view(set@)) == Some(crate::range::series_max(data@)));
        } else {
            assert(pooled_min(set_view(set@)) is None);
        }
    }
    let cfg = default_config(false);
    let x = match solve_range(&set, cfg) {
        Ok(v) => v,
        Err(e) => {
            return Err(e);
        },
    };
    let ((amin, amax), scale) = x;
    proof {
        crate::range::lemma_pooled_extent(set_view(set@));
        assert forall|j: int| 0 <= j < data@.len() implies amin <= #[trigger] data@[j] <= amax by {
            assert(set_view(set@)[0][j] == data@[j]);
        }
    }
    // The solved axis must carry whole bins that span it; a scale that
    // cannot is numeric instability, not a drawable histogram.
    let ar = amax - amin;
    if scale <= 0 {
        return Err(ChartError::NumericInstability);
    }
    let cnt128 = round_div(UNIT, scale);
    if cnt128 < 1 || cnt128 > usize::MAX as i128 {
        return Err(ChartError::NumericInstability);
    }
    let prod = match ar.checked_mul(scale) {
        Some(p) if p != i128::MIN => p,
        _ => {
            return Err(ChartError::NumericInstability);
        },
    };
    let g = round_div(prod, UNIT);
    if g < 1 {
        return Err(ChartError::NumericInstability);
    }
    let cg = match cnt128.checked_mul(g) {
        Some(p) => p,
        None => {
            return Err(ChartError::NumericInstability);
        },
    };
    let acg = match amin.checked_add(cg) {
        Some(p) => p,
        None => {
            return Err(ChartError::NumericInstability);
        },
    };
    assert(binnable(amin as int, amax as int, scale as int));
    let mut w: usize = 0;
    while w < data.len()
        invariant
            w <= data.len(),
            data@.len() > 0,
            crate::range::solve_core_spec(
                crate::range::series_min(data@),
                crate::range::series_max(data@),
                crate::range::default_config_spec(false),
            ) == Some(((amin as int, amax as int), scale as int)),
            binnable(amin as int, amax as int, scale as int),
            acg == amin + bin_count_spec(scale as int) * bin_width_spec(
                amax - amin,
                scale as int,
            ),
            forall|j: int| 0 <= j < w ==> #[trigger] data@[j] == amax || data@[j] < acg,
        decreases data.len() - w,
    {
        if data[w] != amax && data[w] >= acg {
            proof {
                assert(!values_place(data@, amin as int, amax as int, scale as int));
            }
            return Err(ChartError::NumericInstability);
        }
        w = w + 1;
    }
    assert(values_place(data@, amin as int, amax as int, scale as int));
    let bins = histogram_frequencies(data, amin, amax, scale);
    let ghost gcnt = bin_count_spec(scale as int);
    let mut yvals: Vec<i128> = Vec::new();
    let mut y: usize = 0;
    while y < bins.len()
        invariant
            y <= bins.len(),
            bins@.len() == gcnt,
            forall|i: int| 0 <= i < gcnt ==> (#[trigger] bins@[i]).count <= usize::MAX,
            yvals@.len() == y,
            forall|i: int| 0 <= i < y ==> #[trigger] yvals@[i] == bins@[i].count * UNIT,
        decreases bins.len() - y,
    {
        let c = bins[y].count;
        proof {
            assert((c as int) * (UNIT as int) <= 0xffff_ffff_ffff_ffff * 1_000_000_000_000_000)
                by (nonlinear_arith)
                requires
                    0 <= c as int <= 0xffff_ffff_ffff_ffff;
        }
        yvals.push((c as i128) * UNIT);
        y = y + 1;
    }
    let ghost fv = freq_values(data@, amin as int, amax as int, scale as int);
    proof {
        assert(yvals@ =~= fv);
    }
    let mut yset: Vec<Vec<i128>> = Vec::new();
    yset.push(yvals);
    proof {
        assert(set_view(yset@) =~~= seq![fv]);
        assert(pooled_min(Seq::<Seq<i128>>::empty()) is None);
        assert(pooled_max(Seq::<Seq<i128>>::empty()) is None);
        assert(seq![fv].drop_last() =~= Seq::<Seq<i128>>::empty());
        assert(seq![fv].last() == fv);
        assert(fv.len() >= 1);
        assert(pooled_min(set_view(yset@)) == Some(crate::range::series_min(fv)));
        assert(pooled_max(set_view(yset@)) == Some(crate::range::series_max(fv)));
    }
    let ycfg = default_config(true);
    let ysol = match solve_range(&yset, ycfg) {
        Ok(v) => v,
        Err(e) => {
            return Err(ChartError::NumericInstability);
        },
    };
    let ((ymin, ymax), yscale) = ysol;
    Ok(
        HistogramSummary {
            x_min: amin,
            x_max: amax,
            x_scale: scale,
            bins,
            y_min: ymin,
            y_max: ymax,
            y_scale: yscale,
        },
    )
}

} // verus!
