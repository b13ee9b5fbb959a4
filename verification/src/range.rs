//! The range solver: "nice" axis bounds and tick scale from raw series.
//!
//! The solver pools one or more series, widens the pooled extent outward
//! to a power-of-ten-aligned grid with a bounded share of wasted
//! padding, and then searches for a tick scale whose interval divides
//! the axis span evenly, within the configured tick-density band.
//!
//! Every quantity is a fixed-point value (`10^-15` units), so the
//! fifteen-decimal rounding that a floating-point formulation of this
//! algorithm needs to suppress noise is the identity here and is not
//! repeated; the twelve-decimal rounding inside the divisibility check
//! is kept, since it decides which scale wins at boundary cases.

use vstd::prelude::*;
use crate::fixed::{
    UNIT, round_div_spec, round_div, floor_div, ceil_div_spec, ceil_div, mul_in_range,
    mul_div_round, pow10_spec, pow10, is_log10_round, log10_round, clog10_spec, clog10,
    round12_spec, round12, lemma_pow10_increases, lemma_pow10_pos, lemma_pow10_add,
    lemma_pow10_table,
};
use crate::ChartError;

verus! {

/// Configuration of the range solver.
///
/// `data_fill` is the least share of the axis span that the data extent
/// must occupy; `min_delim_scale` and `max_delim_scale` bound the tick
/// scale (the tick interval as a share of the axis span). All three are
/// fixed-point fractions of `UNIT`.
#[derive(Clone, Copy, Debug)]
pub struct RangeConfig {
    pub start_zero: bool,
    pub data_fill: i128,
    pub min_delim_scale: i128,
    pub max_delim_scale: i128,
}

/// The stock configuration as a specification value.
pub open spec fn default_config_spec(start_zero: bool) -> RangeConfig {
    RangeConfig {
        start_zero,
        data_fill: 800_000_000_000_000i128,
        min_delim_scale: 80_000_000_000_000i128,
        max_delim_scale: 200_000_000_000_000i128,
    }
}

/// The configuration a chart uses unless a caller overrides it: at
/// least eight tenths of the axis filled with data, and a tick scale
/// between eight hundredths and one fifth (five to twelve ticks).
pub fn default_config(start_zero: bool) -> (c: RangeConfig)
    ensures
        c == default_config_spec(start_zero),
        config_ok(c),
{
    RangeConfig {
        start_zero,
        data_fill: 800_000_000_000_000,
        min_delim_scale: 80_000_000_000_000,
        max_delim_scale: 200_000_000_000_000,
    }
}

/// A usable configuration: a fill share below one and a positive,
/// ordered tick-scale band within one.
pub open spec fn config_ok(c: RangeConfig) -> bool {
    &&& 0 < c.data_fill < UNIT
    &&& 0 < c.min_delim_scale <= c.max_delim_scale <= UNIT
}

/// The least value of a non-empty series (by its last element and the
/// least of the rest).
pub open spec fn series_min(s: Seq<i128>) -> int
    recommends
        s.len() >= 1,
    decreases s.len(),
{
    if s.len() <= 1 {
        s[0] as int
    } else {
        let m = series_min(s.drop_last());
        if s.last() <= m {
            s.last() as int
        } else {
            m
        }
    }
}

/// The greatest value of a non-empty series.
pub open spec fn series_max(s: Seq<i128>) -> int
    recommends
        s.len() >= 1,
    decreases s.len(),
{
    if s.len() <= 1 {
        s[0] as int
    } else {
        let m = series_max(s.drop_last());
        if s.last() >= m {
            s.last() as int
        } else {
            m
        }
    }
}

/// The least value over a set of series, empty series skipped; `None`
/// when no series holds a value.
pub open spec fn pooled_min(set: Seq<Seq<i128>>) -> Option<int>
    decreases set.len(),
{
    if set.len() == 0 {
        None
    } else {
        let rest = pooled_min(set.drop_last());
        let s = set.last();
        if s.len() == 0 {
            rest
        } else {
            let m = series_min(s);
            match rest {
                Option::None => Some(m),
                Option::Some(r) => Some(if m <= r {
                    m
                } else {
                    r
                }),
            }
        }
    }
}

/// The greatest value over a set of series, empty series skipped.
pub open spec fn pooled_max(set: Seq<Seq<i128>>) -> Option<int>
    decreases set.len(),
{
    if set.len() == 0 {
        None
    } else {
        let rest = pooled_max(set.drop_last());
        let s = set.last();
        if s.len() == 0 {
            rest
        } else {
            let m = series_max(s);
            match rest {
                Option::None => Some(m),
                Option::Some(r) => Some(if m >= r {
                    m
                } else {
                    r
                }),
            }
        }
    }
}

/// The view of a set of series.
pub open spec fn set_view(data: Seq<Vec<i128>>) -> Seq<Seq<i128>> {
    data.map_values(|v: Vec<i128>| v@)
}

/// The pooled least and greatest value over all series, or `None` when
/// the set holds no value at all.
fn pooled_extent(data: &Vec<Vec<i128>>) -> (r: Option<(i128, i128)>)
    ensures
        r is Some <==> pooled_min(set_view(data@)) is Some,
        r matches Some(mm) ==> {
            &&& Some(mm.0 as int) == pooled_min(set_view(data@))
            &&& Some(mm.1 as int) == pooled_max(set_view(data@))
        },
{
    let ghost set = set_view(data@);
    let mut acc: Option<(i128, i128)> = None;
    let mut i: usize = 0;
    while i < data.len()
        invariant
            i <= data.len(),
            set == set_view(data@),
            acc is Some <==> pooled_min(set.take(i as int)) is Some,
            acc matches Some(mm) ==> {
                &&& Some(mm.0 as int) == pooled_min(set.take(i as int))
                &&& Some(mm.1 as int) == pooled_max(set.take(i as int))
            },
        decreases data.len() - i,
    {
        let s = &data[i];
        if s.len() > 0 {
            let mut mn = s[0];
            let mut mx = s[0];
            let mut j: usize = 1;
            proof {
                assert(s@.take(1)[0] == s@[0]);
            }
            while j < s.len()
                invariant
                    1 <= j <= s.len(),
                    s.len() >= 1,
                    mn == series_min(s@.take(j as int)),
                    mx == series_max(s@.take(j as int)),
                decreases s.len() - j,
            {
                proof {
                    assert(s@.take(j + 1).drop_last() =~= s@.take(j as int));
                    assert(s@.take(j + 1).last() == s@[j as int]);
                }
                if s[j] < mn {
                    mn = s[j];
                }
                if s[j] > mx {
                    mx = s[j];
                }
                j = j + 1;
            }
            proof {
                assert(s@.take(s@.len() as int) =~= s@);
            }
            acc = match acc {
                None => Some((mn, mx)),
                Some((amn, amx)) => Some(
                    (
                        if mn < amn {
                            mn
                        } else {
                            amn
                        },
                        if mx > amx {
                            mx
                        } else {
                            amx
                        },
                    ),
                ),
            };
        }
        proof {
            if pooled_min(set.take(i as int)) is None {
                lemma_pooled_min_none_empty(set.take(i as int));
            }
            assert(set.take(i + 1).drop_last() =~= set.take(i as int));
            assert(set.take(i + 1).last() == set[i as int]);
            assert(set[i as int] == data@[i as int]@);
            if data@[i as int]@.len() == 0 {
                assert(pooled_min(set.take(i + 1)) == pooled_min(set.take(i as int)));
                assert(pooled_max(set.take(i + 1)) == pooled_max(set.take(i as int)));
            } else {
                assert(pooled_min(set.take(i + 1)) matches Some(v) && v == (match pooled_min(
                    set.take(i as int),
                ) {
                    Option::None => series_min(set[i as int]),
                    Option::Some(r) => if series_min(set[i as int]) <= r {
                        series_min(set[i as int])
                    } else {
                        r
                    },
                }));
                assert(pooled_max(set.take(i + 1)) matches Some(v) && v == (match pooled_max(
                    set.take(i as int),
                ) {
                    Option::None => series_max(set[i as int]),
                    Option::Some(r) => if series_max(set[i as int]) >= r {
                        series_max(set[i as int])
                    } else {
                        r
                    },
                }));
            }
        }
        i = i + 1;
    }
    proof {
        assert(set.take(set.len() as int) =~= set);
    }
    acc
}

/// Every value of a non-empty series lies between its least and
/// greatest value, and both are values of it.
pub proof fn lemma_series_extent(s: Seq<i128>)
    requires
        s.len() >= 1,
    ensures
        forall|j: int| 0 <= j < s.len() ==> series_min(s) <= #[trigger] s[j] <= series_max(s),
        exists|j: int| 0 <= j < s.len() && s[j] == series_min(s),
        exists|j: int| 0 <= j < s.len() && s[j] == series_max(s),
    decreases s.len(),
{
    if s.len() <= 1 {
        assert(s[0] == series_min(s));
        assert(s[0] == series_max(s));
    } else {
        lemma_series_extent(s.drop_last());
        assert(forall|j: int| 0 <= j < s.len() - 1 ==> s.drop_last()[j] == s[j]);
        assert(s.last() == s[s.len() - 1]);
        let jm = choose|j: int| 0 <= j < s.len() - 1 && s.drop_last()[j] == series_min(s.drop_last());
        let jx = choose|j: int| 0 <= j < s.len() - 1 && s.drop_last()[j] == series_max(s.drop_last());
        if s.last() <= series_min(s.drop_last()) {
            assert(s[s.len() - 1] == series_min(s));
        } else {
            assert(s[jm] == series_min(s));
        }
        if s.last() >= series_max(s.drop_last()) {
            assert(s[s.len() - 1] == series_max(s));
        } else {
            assert(s[jx] == series_max(s));
        }
    }
}


/// The pooled extent bounds every value of every series, and both ends
/// are values of some series.
pub proof fn lemma_pooled_extent(set: Seq<Seq<i128>>)
    requires
        pooled_min(set) is Some,
    ensures
        pooled_max(set) is Some,
        forall|i: int, j: int|
            0 <= i < set.len() && 0 <= j < set[i].len() ==> pooled_min(set)->0 <= #[trigger] set[i][j]
                <= pooled_max(set)->0,
        exists|i: int, j: int|
            0 <= i < set.len() && 0 <= j < set[i].len() && set[i][j] == pooled_min(set)->0,
        exists|i: int, j: int|
            0 <= i < set.len() && 0 <= j < set[i].len() && set[i][j] == pooled_max(set)->0,
    decreases set.len(),
{
    let rest = set.drop_last();
    let s = set.last();
    assert(forall|i: int| 0 <= i < set.len() - 1 ==> rest[i] == set[i]);
    if s.len() == 0 {
        lemma_pooled_extent(rest);
        let (i1, j1) = choose|i: int, j: int|
            0 <= i < rest.len() && 0 <= j < rest[i].len() && rest[i][j] == pooled_min(rest)->0;
        assert(set[i1][j1] == pooled_min(set)->0);
        let (i2, j2) = choose|i: int, j: int|
            0 <= i < rest.len() && 0 <= j < rest[i].len() && rest[i][j] == pooled_max(rest)->0;
        assert(set[i2][j2] == pooled_max(set)->0);
    } else {
        lemma_series_extent(s);
        let jm = choose|j: int| 0 <= j < s.len() && s[j] == series_min(s);
        let jx = choose|j: int| 0 <= j < s.len() && s[j] == series_max(s);
        assert(set[set.len() - 1] == s);
        if pooled_min(rest) is Some {
            lemma_pooled_extent(rest);
            let (i1, j1) = choose|i: int, j: int|
                0 <= i < rest.len() && 0 <= j < rest[i].len() && rest[i][j] == pooled_min(rest)->0;
            let (i2, j2) = choose|i: int, j: int|
                0 <= i < rest.len() && 0 <= j < rest[i].len() && rest[i][j] == pooled_max(rest)->0;
            if series_min(s) <= pooled_min(rest)->0 {
                assert(set[set.len() - 1][jm] == pooled_min(set)->0);
            } else {
                assert(set[i1][j1] == pooled_min(set)->0);
            }
            if series_max(s) >= pooled_max(rest)->0 {
                assert(set[set.len() - 1][jx] == pooled_max(set)->0);
            } else {
                assert(set[i2][j2] == pooled_max(set)->0);
            }
        } else {
            lemma_pooled_min_none_empty(rest);
            assert(set[set.len() - 1][jm] == pooled_min(set)->0);
            assert(set[set.len() - 1][jx] == pooled_max(set)->0);
            assert forall|i: int, j: int|
                0 <= i < set.len() && 0 <= j < set[i].len() implies pooled_min(set)->0
                <= #[trigger] set[i][j] <= pooled_max(set)->0 by {
                if i < set.len() - 1 {
                    lemma_pooled_min_none_empty(rest);
                }
            }
        }
    }
}

/// Without any pooled value every series of the set is empty.
proof fn lemma_pooled_min_none_empty(set: Seq<Seq<i128>>)
    requires
        pooled_min(set) is None,
    ensures
        forall|i: int| 0 <= i < set.len() ==> set[i].len() == 0,
        pooled_max(set) is None,
    decreases set.len(),
{
    if set.len() > 0 {
        lemma_pooled_min_none_empty(set.drop_last());
        assert(forall|i: int| 0 <= i < set.len() - 1 ==> set.drop_last()[i] == set[i]);
        assert(set[set.len() - 1] == set.last());
    }
}


/// The deterministic rounded base-10 logarithm (shifted by 15), as the
/// unique witness of `is_log10_round`.
pub open spec fn log10_round_spec(r: int) -> int {
    choose|m: int| is_log10_round(r, m)
}

/// The exec search agrees with the deterministic logarithm.
fn log10_round_det(r: i128) -> (m: u32)
    requires
        r >= 1,
    ensures
        m == log10_round_spec(r as int),
        is_log10_round(r as int, m as int),
{
    let m = log10_round(r);
    proof {
        assert(is_log10_round(r as int, m as int));
        let mc = log10_round_spec(r as int);
        assert(is_log10_round(r as int, mc));
        crate::fixed::lemma_log10_round_unique(r as int, m as int, mc);
    }
    m
}

/// The twelve-decimal normalized divisibility check: whether the axis
/// span does **not** divide evenly by the interval.
///
/// An interval below one is first scaled, together with the span, by
/// `1000 / 10^ceil(log10(interval))`; both operands are then rounded to
/// twelve decimal places before the remainder test. A non-positive
/// interval never divides; `None` stands for an operand beyond the
/// fixed-point range.
pub open spec fn decimal_mod_spec(r: int, i: int) -> Option<bool> {
    if i <= 0 {
        Some(true)
    } else {
        let mult = if i < UNIT {
            pow10_spec((18 - clog10_spec(i)) as nat)
        } else {
            1
        };
        let rm = r * mult;
        let im = i * mult;
        if rm > i128::MAX - 500 || im > i128::MAX - 500 {
            None
        } else {
            Some(round12_spec(rm) % round12_spec(im) != 0)
        }
    }
}

/// Exec form of `decimal_mod_spec`.
fn decimal_mod(r: i128, i: i128) -> (res: Option<bool>)
    requires
        r >= 1,
    ensures
        res == decimal_mod_spec(r as int, i as int),
{
    if i <= 0 {
        return Some(true);
    }
    let mult: i128;
    if i < UNIT {
        let g = clog10(i);
        proof {
            lemma_pow10_table();
            if g > 15 {
                lemma_pow10_increases(15, (g - 1) as nat);
                assert(i as int > pow10_spec((g - 1) as nat));
            }
            assert(g <= 15);
        }
        mult = pow10(18 - g);
        proof {
            lemma_pow10_add(g as nat, (18 - g) as nat);
            lemma_pow10_pos((18 - g) as nat);
            assert((i as int) * (mult as int) <= pow10_spec(18)) by (nonlinear_arith)
                requires
                    i as int <= pow10_spec(g as nat),
                    mult as int == pow10_spec((18 - g) as nat),
                    mult >= 1,
                    pow10_spec(18) == pow10_spec(g as nat) * pow10_spec((18 - g) as nat);
            if g >= 1 {
                lemma_pow10_add((g - 1) as nat, (18 - g) as nat);
                assert((i as int) * (mult as int) > pow10_spec(17)) by (nonlinear_arith)
                    requires
                        i as int > pow10_spec((g - 1) as nat),
                        mult as int == pow10_spec((18 - g) as nat),
                        mult >= 1,
                        pow10_spec(17) == pow10_spec((g - 1) as nat) * pow10_spec(
                            (18 - g) as nat,
                        );
            }
            if g == 0 {
                assert(i == 1);
            }
            assert(pow10_spec(17) >= 1000 && pow10_spec(18) < i128::MAX - 500);
            assert((i as int) * (mult as int) >= 1000);
        }
    } else {
        mult = 1;
    }
    let rm = match r.checked_mul(mult) {
        Some(v) => v,
        None => {
            proof {
                assert((r as int) * (mult as int) > i128::MAX - 500) by (nonlinear_arith)
                    requires
                        r >= 1,
                        mult >= 1,
                        (r as int) * (mult as int) > i128::MAX || (r as int) * (mult as int)
                            < i128::MIN;
            }
            return None;
        },
    };
    let im = i * mult;
    if rm > i128::MAX - 500 || im > i128::MAX - 500 {
        return None;
    }
    proof {
        assert(rm >= 1) by (nonlinear_arith)
            requires
                rm as int == (r as int) * (mult as int),
                r >= 1,
                mult >= 1;
        assert(im >= 1000);
    }
    let r12 = round12(rm);
    let i12 = round12(im);
    proof {
        assert(i12 >= 500);
    }
    let rem = (r12 as u128) % (i12 as u128);
    Some(rem != 0)
}

/// The largest of `ivl, ivl / 10, ivl / 100, ...` that divides `r`
/// evenly, by the plain remainder test; zero when none is positive.
pub open spec fn fit_interval_spec(r: int, ivl: int) -> int
    decreases ivl when ivl >= 0
{
    if ivl < 1 {
        0
    } else if r % ivl == 0 {
        ivl
    } else {
        fit_interval_spec(r, ivl / 10)
    }
}

/// The tick scale for explicitly chosen axis bounds: the first of
/// `mag / 10, mag / 100, ...` dividing the span evenly (plain remainder,
/// no twelve-decimal normalization), expressed as a share of the span.
///
/// `mag` is ten to the rounded logarithm of the span. `None` stands for
/// a span too small to carry a tick interval or a product beyond the
/// fixed-point range.
pub open spec fn calc_scale_spec(min: int, max: int) -> Option<int> {
    let range = if max >= min {
        max - min
    } else {
        min - max
    };
    if !(-(i128::MAX as int) <= range <= i128::MAX as int) {
        None
    } else {
        let m = log10_round_spec(range);
        if m == 0 {
            None
        } else {
            let ivl = fit_interval_spec(range, pow10_spec((m - 1) as nat));
            if ivl == 0 || !mul_in_range(ivl, UNIT as int) {
                None
            } else {
                Some(round_div_spec(ivl * UNIT, range))
            }
        }
    }
}

/// Recomputes the tick scale after a caller overrides the axis bounds:
/// interval over span, with the interval the largest power-of-ten
/// fraction of the span's magnitude that divides it evenly.
///
/// Equal bounds never find an interval and spans at the very edge of
/// the fixed-point range overflow: both are `NumericInstability`.
pub fn calc_scale(min: i128, max: i128) -> (r: Result<i128, ChartError>)
    requires
        min != max,
    ensures
        calc_scale_spec(min as int, max as int) matches Some(s) ==> r == Ok::<i128, ChartError>(
            s as i128,
        ) && s == r->Ok_0,
        calc_scale_spec(min as int, max as int) is None ==> r == Err::<i128, ChartError>(
            ChartError::NumericInstability,
        ),
{
    let range = match if max >= min {
        max.checked_sub(min)
    } else {
        min.checked_sub(max)
    } {
        Some(v) => v,
        None => {
            return Err(ChartError::NumericInstability);
        },
    };
    assert(range >= 1);
    let m = log10_round_det(range);
    if m == 0 {
        return Err(ChartError::NumericInstability);
    }
    let mut interval = pow10(m - 1);
    let ghost mut e: nat = (m - 1) as nat;
    proof {
        lemma_pow10_pos((m - 1) as nat);
    }
    loop
        invariant
            range >= 1,
            interval >= 1,
            interval == pow10_spec(e),
            fit_interval_spec(range as int, interval as int) == fit_interval_spec(
                range as int,
                pow10_spec((m - 1) as nat),
            ),
        ensures
            interval >= 1,
            interval as int == fit_interval_spec(range as int, pow10_spec((m - 1) as nat)),
        decreases interval,
    {
        let rem = (range as u128) % (interval as u128);
        if rem == 0 {
            break;
        }
        proof {
            if e == 0 {
                assert(interval == 1);
                assert(range as int % 1int == 0);
                assert(false);
            }
            assert(pow10_spec(e) == 10 * pow10_spec((e - 1) as nat));
            lemma_pow10_pos((e - 1) as nat);
            assert(pow10_spec(e) / 10 == pow10_spec((e - 1) as nat)) by (nonlinear_arith)
                requires
                    pow10_spec(e) == 10 * pow10_spec((e - 1) as nat);
            e = (e - 1) as nat;
        }
        interval = interval / 10;
    }
    match mul_div_round(interval, UNIT, range) {
        Some(s) => Ok(s),
        None => Err(ChartError::NumericInstability),
    }
}


/// Whether a mathematical integer fits the machine representation.
pub open spec fn in_i128(x: int) -> bool {
    i128::MIN <= x <= i128::MAX
}

/// The iteration allowance of the scale-fitting search: ample for every
/// well-formed input, a hard stop for pathological magnitudes.
pub const SOLVER_CAP: u32 = 10_000;

/// Floor and ceiling multiples bracket the value within one divisor.
proof fn lemma_floor_ceil_mul(a: int, b: int)
    requires
        b > 0,
    ensures
        (a / b) * b <= a,
        a < (a / b) * b + b,
        ceil_div_spec(a, b) * b >= a,
        ceil_div_spec(a, b) * b < a + b,
{
    vstd::arithmetic::div_mod::lemma_fundamental_div_mod(a, b);
    vstd::arithmetic::div_mod::lemma_fundamental_div_mod(-a, b);
    assert((a / b) * b == b * (a / b)) by (nonlinear_arith);
    assert((-((-a) / b)) * b == -(b * ((-a) / b))) by (nonlinear_arith);
}

/// The power-of-ten grid search for nice bounds: with magnitude `10^exp`
/// the pooled extent is pushed outward to the grid; the first exponent,
/// searched downward, whose span is filled beyond the `fill` share wins.
/// `None` stands for a span that cannot satisfy the share before the
/// grid becomes finer than one unit, or for an amount beyond the
/// fixed-point range.
pub open spec fn nice_search_spec(mn: int, mx: int, dr: int, fill: int, exp: int) -> Option<
    (int, int),
>
    decreases exp + 1 when exp >= -1
{
    if exp < 0 {
        None
    } else {
        let mag = pow10_spec(exp as nat);
        let amin = (mn / mag) * mag;
        let amax = ceil_div_spec(mx, mag) * mag;
        if !in_i128(amin) || !in_i128(amax) {
            None
        } else if amax - amin > i128::MAX {
            None
        } else if !mul_in_range(dr, UNIT as int) || !mul_in_range(fill, amax - amin) {
            None
        } else if dr * UNIT > fill * (amax - amin) {
            Some((amin, amax))
        } else {
            nice_search_spec(mn, mx, dr, fill, exp - 1)
        }
    }
}

/// Exec form of `nice_search_spec`, searched downward from `exp0`.
fn nice_search(mn: i128, mx: i128, dr: i128, fill: i128, exp0: u32) -> (r: Option<(i128, i128)>)
    requires
        mn > i128::MIN,
        mx < i128::MAX,
        mn < mx,
        dr >= 1,
        fill >= 1,
        exp0 <= 38,
    ensures
        r is Some <==> nice_search_spec(mn as int, mx as int, dr as int, fill as int, exp0 as int)
            is Some,
        r matches Some(b) ==> nice_search_spec(mn as int, mx as int, dr as int, fill as int, exp0 as int)
            == Some((b.0 as int, b.1 as int)) && b.0 <= mn && mx <= b.1,
{
    let mut exp: i64 = exp0 as i64;
    loop
        invariant
            mn > i128::MIN,
            mx < i128::MAX,
            mn < mx,
            dr >= 1,
            fill >= 1,
            -1 <= exp <= 38,
            nice_search_spec(mn as int, mx as int, dr as int, fill as int, exp as int)
                == nice_search_spec(mn as int, mx as int, dr as int, fill as int, exp0 as int),
        decreases exp + 1,
    {
        if exp < 0 {
            return None;
        }
        let mag = pow10(exp as u32);
        proof {
            lemma_pow10_pos(exp as nat);
            lemma_floor_ceil_mul(mn as int, mag as int);
            lemma_floor_ceil_mul(mx as int, mag as int);
        }
        let fl = floor_div(mn, mag);
        let amin = match fl.checked_mul(mag) {
            Some(v) => v,
            None => {
                return None;
            },
        };
        let cl = ceil_div(mx, mag);
        let amax = match cl.checked_mul(mag) {
            Some(v) => v,
            None => {
                return None;
            },
        };
        proof {
            assert(amin <= mn && mx <= amax);
        }
        let ra = match amax.checked_sub(amin) {
            Some(v) => v,
            None => {
                return None;
            },
        };
        let lhs = match dr.checked_mul(UNIT) {
            Some(v) => v,
            None => {
                return None;
            },
        };
        let rhs = match fill.checked_mul(ra) {
            Some(v) => v,
            None => {
                return None;
            },
        };
        if lhs > rhs {
            return Some((amin, amax));
        }
        exp = exp - 1;
    }
}

/// One widening step state: bounds, span, interval and scale.
pub open spec fn widen_spec(
    mn: int,
    mx: int,
    amin: int,
    amax: int,
    ivl: int,
    s: int,
    min_delim: int,
    fuel: nat,
) -> Option<(int, int, int, int)>
    decreases fuel,
{
    if s >= min_delim {
        Some((amin, amax, ivl, s))
    } else if fuel == 0 {
        None
    } else {
        let ar = amax - amin;
        let s2 = 2 * s;
        if !mul_in_range(s2, ar) {
            None
        } else {
            let ivl2 = round_div_spec(s2 * ar, UNIT as int);
            match decimal_mod_spec(ar, ivl2) {
                Option::None => None,
                Option::Some(false) => widen_spec(
                    mn,
                    mx,
                    amin,
                    amax,
                    ivl2,
                    s2,
                    min_delim,
                    (fuel - 1) as nat,
                ),
                Option::Some(true) => {
                    let half = round_div_spec(ivl2, 2);
                    let extend_max = amin == 0 || (amin > 0 && amin - half < 0) || (amax - mx < mn
                        - amin);
                    let amin2 = if extend_max {
                        amin
                    } else {
                        amin - half
                    };
                    let amax2 = if extend_max {
                        amax + half
                    } else {
                        amax
                    };
                    if !in_i128(amin2) || !in_i128(amax2) {
                        None
                    } else if amax2 - amin2 > i128::MAX {
                        None
                    } else if !mul_in_range(ivl2, UNIT as int) {
                        None
                    } else {
                        let s3 = round_div_spec(ivl2 * UNIT, amax2 - amin2);
                        widen_spec(mn, mx, amin2, amax2, ivl2, s3, min_delim, (fuel - 1) as nat)
                    }
                },
            }
        }
    }
}

/// The widening loop: while the scale is below the band, double it and
/// recompute the interval; when the doubled interval no longer divides
/// the span, extend the bound lying closer to its data extreme by half
/// the interval (never across zero) and rescale.
fn widen(
    mn: i128,
    mx: i128,
    amin0: i128,
    amax0: i128,
    ivl0: i128,
    s0: i128,
    min_delim: i128,
) -> (r: Option<(i128, i128, i128, i128)>)
    requires
        amin0 <= mn <= mx <= amax0,
        amin0 < amax0,
        amax0 - amin0 <= i128::MAX,
        s0 >= 0,
        1 <= min_delim <= UNIT,
    ensures
        r is Some <==> widen_spec(
            mn as int,
            mx as int,
            amin0 as int,
            amax0 as int,
            ivl0 as int,
            s0 as int,
            min_delim as int,
            SOLVER_CAP as nat,
        ) is Some,
        r matches Some(w) ==> widen_spec(
            mn as int,
            mx as int,
            amin0 as int,
            amax0 as int,
            ivl0 as int,
            s0 as int,
            min_delim as int,
            SOLVER_CAP as nat,
        ) == Some((w.0 as int, w.1 as int, w.2 as int, w.3 as int)),
        r matches Some(w) ==> w.0 <= amin0 && amax0 <= w.1 && w.0 < w.1 && w.3 >= min_delim
            && w.0 <= mn && mx <= w.1 && w.1 - w.0 <= i128::MAX,
{
    let mut amin = amin0;
    let mut amax = amax0;
    let mut ivl = ivl0;
    let mut s = s0;
    let mut fuel: u32 = SOLVER_CAP;
    loop
        invariant
            amin <= amin0,
            amax >= amax0,
            amin <= mn <= mx <= amax,
            amin < amax,
            amax - amin <= i128::MAX,
            s >= 0,
            1 <= min_delim <= UNIT,
            fuel <= SOLVER_CAP,
            widen_spec(
                mn as int,
                mx as int,
                amin as int,
                amax as int,
                ivl as int,
                s as int,
                min_delim as int,
                fuel as nat,
            ) == widen_spec(
                mn as int,
                mx as int,
                amin0 as int,
                amax0 as int,
                ivl0 as int,
                s0 as int,
                min_delim as int,
                SOLVER_CAP as nat,
            ),
        decreases fuel,
    {
        if s >= min_delim {
            return Some((amin, amax, ivl, s));
        }
        if fuel == 0 {
            return None;
        }
        let ar = amax - amin;
        assert(ar >= 1);
        let s2 = 2 * s;
        let ivl2 = match mul_div_round(s2, ar, UNIT) {
            Some(v) => v,
            None => {
                return None;
            },
        };
        proof {
            crate::fixed::lemma_round_div_mono(0, (s2 as int) * (ar as int), UNIT as int);
            assert((s2 as int) * (ar as int) >= 0) by (nonlinear_arith)
                requires
                    s2 >= 0,
                    ar >= 1;
        }
        match decimal_mod(ar, ivl2) {
            None => {
                return None;
            },
            Some(false) => {
                ivl = ivl2;
                s = s2;
            },
            Some(true) => {
                let half = round_div(ivl2, 2);
                let extend_max = amin == 0 || (amin > 0 && amin - half < 0) || (amax - mx < mn
                    - amin);
                if extend_max {
                    amax = match amax.checked_add(half) {
                        Some(v) => v,
                        None => {
                            return None;
                        },
                    };
                } else {
                    amin = match amin.checked_sub(half) {
                        Some(v) => v,
                        None => {
                            return None;
                        },
                    };
                }
                let ar2 = match amax.checked_sub(amin) {
                    Some(v) => v,
                    None => {
                        return None;
                    },
                };
                s = match mul_div_round(ivl2, UNIT, ar2) {
                    Some(v) => v,
                    None => {
                        return None;
                    },
                };
                proof {
                    crate::fixed::lemma_round_div_mono(0, (ivl2 as int) * (UNIT as int), ar2 as int);
                    assert((ivl2 as int) * (UNIT as int) >= 0) by (nonlinear_arith)
                        requires
                            ivl2 >= 0,
                            UNIT > 0;
                }
                ivl = ivl2;
            },
        }
        fuel = fuel - 1;
    }
}

/// Halving a scale down into the band.
pub open spec fn shrink_spec(s: int, max_delim: int) -> int
    decreases s when s >= 0 && max_delim >= 1
{
    if s <= max_delim {
        s
    } else {
        shrink_spec(round_div_spec(s, 2), max_delim)
    }
}

/// While the scale is above the band, halve it; the bounds stay, only
/// the tick density grows.
fn shrink(s0: i128, max_delim: i128) -> (r: i128)
    requires
        s0 >= 0,
        max_delim >= 1,
    ensures
        r == shrink_spec(s0 as int, max_delim as int),
        r <= max_delim || r == s0,
        r >= 0,
{
    let mut s = s0;
    while s > max_delim
        invariant
            s >= 0,
            max_delim >= 1,
            shrink_spec(s as int, max_delim as int) == shrink_spec(s0 as int, max_delim as int),
        decreases s,
    {
        s = round_div(s, 2);
    }
    s
}

/// A halved scale stays at or above half the band ceiling, so a band at
/// least twice as wide as its floor keeps the floor.
proof fn lemma_shrink_floor(s: int, max_delim: int, min_delim: int)
    requires
        s >= min_delim,
        min_delim >= 1,
        2 * min_delim <= max_delim,
    ensures
        shrink_spec(s, max_delim) >= min_delim,
    decreases s,
{
    if s > max_delim {
        vstd::arithmetic::div_mod::lemma_fundamental_div_mod(s, 2);
        assert(round_div_spec(s, 2) >= min_delim);
        lemma_shrink_floor(round_div_spec(s, 2), max_delim, min_delim);
    }
}



/// The first of `ivl, ivl / 10, ...` that divides the span under the
/// twelve-decimal check; `None` when the interval underflows one unit or
/// an operand leaves the fixed-point range.
pub open spec fn fit_decimal_spec(ar: int, ivl: int) -> Option<int>
    decreases ivl when ivl >= 0
{
    if ivl < 1 {
        None
    } else {
        match decimal_mod_spec(ar, ivl) {
            Option::None => None,
            Option::Some(false) => Some(ivl),
            Option::Some(true) => fit_decimal_spec(ar, ivl / 10),
        }
    }
}

/// Exec form of `fit_decimal_spec`, from the starting interval
/// `10^(m-1)` of a span with magnitude exponent `m`.
fn fit_decimal(ar: i128, m: u32) -> (r: Option<i128>)
    requires
        ar >= 1,
        1 <= m <= 38,
    ensures
        r is Some <==> fit_decimal_spec(ar as int, pow10_spec((m - 1) as nat)) is Some,
        r matches Some(v) ==> fit_decimal_spec(ar as int, pow10_spec((m - 1) as nat)) == Some(
            v as int,
        ) && v >= 1,
{
    let mut interval = pow10(m - 1);
    let ghost mut e: nat = (m - 1) as nat;
    proof {
        lemma_pow10_pos(e);
    }
    loop
        invariant
            ar >= 1,
            interval >= 1,
            interval == pow10_spec(e),
            fit_decimal_spec(ar as int, interval as int) == fit_decimal_spec(
                ar as int,
                pow10_spec((m - 1) as nat),
            ),
        decreases interval,
    {
        match decimal_mod(ar, interval) {
            None => {
                return None;
            },
            Some(false) => {
                return Some(interval);
            },
            Some(true) => {
                proof {
                    if e == 0 {
                        assert(interval == 1);
                        assert((interval as int) / 10 == 0);
                        assert(fit_decimal_spec(ar as int, 0) is None);
                    } else {
                        assert(pow10_spec(e) == 10 * pow10_spec((e - 1) as nat));
                        lemma_pow10_pos((e - 1) as nat);
                        assert(pow10_spec(e) / 10 == pow10_spec((e - 1) as nat))
                            by (nonlinear_arith)
                            requires
                                pow10_spec(e) == 10 * pow10_spec((e - 1) as nat);
                    }
                }
                if interval < 10 {
                    return None;
                }
                proof {
                    e = (e - 1) as nat;
                }
                interval = interval / 10;
            },
        }
    }
}

/// The whole solver over a pooled extent `[mn, mx]`: degenerate
/// fallback or nice-bound search, the zero clamp, the interval fit, the
/// widening into the band and the final halving. `None` stands for
/// numeric instability: an amount beyond the fixed-point range, a span
/// finer than one unit, or the iteration allowance spent.
pub open spec fn solve_core_spec(mn: int, mx: int, c: RangeConfig) -> Option<((int, int), int)> {
    if mn == i128::MIN || mx == i128::MAX || mn > mx {
        None
    } else {
        let bounds = if mn == mx {
            if mn == 0 {
                Some((0int, UNIT as int))
            } else if mn > 0 {
                if in_i128(2 * mx) {
                    Some((0int, 2 * mx))
                } else {
                    None
                }
            } else {
                if in_i128(2 * mn) {
                    Some((2 * mn, 0int))
                } else {
                    None
                }
            }
        } else {
            if mx - mn > i128::MAX {
                None
            } else {
                match nice_search_spec(mn, mx, mx - mn, c.data_fill as int, log10_round_spec(mx - mn)) {
                    Option::None => None,
                    Option::Some((a, b)) => Some(
                        (
                            if c.start_zero && a > 0 {
                                0int
                            } else {
                                a
                            },
                            if c.start_zero && b < 0 {
                                0int
                            } else {
                                b
                            },
                        ),
                    ),
                }
            }
        };
        match bounds {
            Option::None => None,
            Option::Some((amin, amax)) => {
                if amax - amin > i128::MAX {
                    None
                } else {
                    let ar = amax - amin;
                    let m = log10_round_spec(ar);
                    if m == 0 {
                        None
                    } else {
                        match fit_decimal_spec(ar, pow10_spec((m - 1) as nat)) {
                            Option::None => None,
                            Option::Some(ivl) => {
                                if !mul_in_range(ivl, UNIT as int) {
                                    None
                                } else {
                                    let s = round_div_spec(ivl * UNIT, ar);
                                    match widen_spec(
                                        mn,
                                        mx,
                                        amin,
                                        amax,
                                        ivl,
                                        s,
                                        c.min_delim_scale as int,
                                        SOLVER_CAP as nat,
                                    ) {
                                        Option::None => None,
                                        Option::Some((amin2, amax2, ivl2, s2)) => Some(
                                            (
                                                (amin2, amax2),
                                                shrink_spec(s2, c.max_delim_scale as int),
                                            ),
                                        ),
                                    }
                                }
                            },
                        }
                    }
                }
            },
        }
    }
}

/// Derives nice axis bounds and a tick scale from one or more pooled
/// series.
///
/// A set without a single value is `InvalidInput`. Otherwise the result
/// is exactly `solve_core_spec` over the pooled extent, with `None`
/// surfaced as `NumericInstability`. On success the bounds enclose the
/// data, and the scale lies within the configured band whenever the
/// band is at least twice as wide as its floor (as the default band
/// is); the scale never exceeds the band ceiling.
pub fn solve_range(data: &Vec<Vec<i128>>, c: RangeConfig) -> (r: Result<
    ((i128, i128), i128),
    ChartError,
>)
    requires
        config_ok(c),
    ensures
        r == Err::<((i128, i128), i128), ChartError>(ChartError::InvalidInput) <==> pooled_min(
            set_view(data@),
        ) is None,
        pooled_min(set_view(data@)) matches Some(mn) ==> match solve_core_spec(
            mn,
            pooled_max(set_view(data@))->0,
            c,
        ) {
            Option::None => r == Err::<((i128, i128), i128), ChartError>(
                ChartError::NumericInstability,
            ),
            Option::Some(v) => r matches Ok(o) && v == (((o.0.0 as int, o.0.1 as int)), o.1 as int),
        },
        r matches Ok(o) ==> {
            &&& pooled_min(set_view(data@)) matches Some(mn) && o.0.0 <= mn
            &&& pooled_max(set_view(data@)) matches Some(mx) && mx <= o.0.1
            &&& o.0.0 < o.0.1
            &&& o.0.1 - o.0.0 <= i128::MAX
            &&& 1 <= o.1 <= c.max_delim_scale
            &&& 2 * c.min_delim_scale <= c.max_delim_scale ==> c.min_delim_scale <= o.1
        },
{
    let (mn, mx) = match pooled_extent(data) {
        Some(mm) => mm,
        None => {
            return Err(ChartError::InvalidInput);
        },
    };
    proof {
        lemma_pooled_extent(set_view(data@));
        let (i1, j1) = choose|i: int, j: int|
            0 <= i < set_view(data@).len() && 0 <= j < set_view(data@)[i].len() && set_view(
                data@,
            )[i][j] == pooled_min(set_view(data@))->0;
        assert(mn <= set_view(data@)[i1][j1] <= mx);
    }
    if mn == i128::MIN || mx == i128::MAX {
        return Err(ChartError::NumericInstability);
    }
    let bounds: (i128, i128);
    if mn == mx {
        if mn == 0 {
            bounds = (0, UNIT);
        } else if mn > 0 {
            bounds = match mx.checked_mul(2) {
                Some(v) => (0, v),
                None => {
                    return Err(ChartError::NumericInstability);
                },
            };
        } else {
            bounds = match mn.checked_mul(2) {
                Some(v) => (v, 0),
                None => {
                    return Err(ChartError::NumericInstability);
                },
            };
        }
    } else {
        let dr = match mx.checked_sub(mn) {
            Some(v) => v,
            None => {
                return Err(ChartError::NumericInstability);
            },
        };
        let exp0 = log10_round_det(dr);
        let nice = match nice_search(mn, mx, dr, c.data_fill, exp0) {
            Some(b) => b,
            None => {
                return Err(ChartError::NumericInstability);
            },
        };
        let (a, b) = nice;
        bounds = (
            if c.start_zero && a > 0 {
                0
            } else {
                a
            },
            if c.start_zero && b < 0 {
                0
            } else {
                b
            },
        );
    }
    let (amin, amax) = bounds;
    proof {
        assert(amin <= mn && mx <= amax && amin < amax);
    }
    let ar = match amax.checked_sub(amin) {
        Some(v) => v,
        None => {
            return Err(ChartError::NumericInstability);
        },
    };
    let m = log10_round_det(ar);
    if m == 0 {
        return Err(ChartError::NumericInstability);
    }
    let ivl = match fit_decimal(ar, m) {
        Some(v) => v,
        None => {
            return Err(ChartError::NumericInstability);
        },
    };
    let s = match mul_div_round(ivl, UNIT, ar) {
        Some(v) => v,
        None => {
            return Err(ChartError::NumericInstability);
        },
    };
    proof {
        crate::fixed::lemma_round_div_mono(0, (ivl as int) * (UNIT as int), ar as int);
        assert((ivl as int) * (UNIT as int) >= 0) by (nonlinear_arith)
            requires
                ivl >= 1,
                UNIT > 0;
    }
    let w = match widen(mn, mx, amin, amax, ivl, s, c.min_delim_scale) {
        Some(v) => v,
        None => {
            return Err(ChartError::NumericInstability);
        },
    };
    let (wmin, wmax, _wivl, ws) = w;
    let scale = shrink(ws, c.max_delim_scale);
    proof {
        if 2 * c.min_delim_scale <= c.max_delim_scale {
            lemma_shrink_floor(ws as int, c.max_delim_scale as int, c.min_delim_scale as int);
        }
        lemma_shrink_le(ws as int, c.max_delim_scale as int);
    }
    Ok(((wmin, wmax), scale))
}

/// The halving result never exceeds the band ceiling, and a positive
/// scale stays positive.
proof fn lemma_shrink_le(s: int, max_delim: int)
    requires
        s >= 0,
        max_delim >= 1,
    ensures
        shrink_spec(s, max_delim) <= max_delim,
        shrink_spec(s, max_delim) >= 0,
        s >= 1 ==> shrink_spec(s, max_delim) >= 1,
    decreases s,
{
    if s > max_delim {
        vstd::arithmetic::div_mod::lemma_fundamental_div_mod(s, 2);
        lemma_shrink_le(round_div_spec(s, 2), max_delim);
    }
}


} // verus!
