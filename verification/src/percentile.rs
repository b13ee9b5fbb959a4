//! Interpolated rank-based percentiles over sorted data.
//!
//! For a series of length `len` and a fraction `p` (fixed-point, `0..=UNIT`),
//! the rank is `n = (len - 1) * p + 1` (in rank space scaled by `UNIT`).
//! A rank of exactly one picks the first element and a rank of exactly
//! `len` the last; otherwise the value is interpolated between the two
//! neighbouring elements, with the interpolation product rounded to the
//! nearest unit.

use vstd::prelude::*;
use crate::fixed::{
    UNIT, round_div_spec, round_div, mul_in_range, lemma_round_div_mono, lemma_round_div_exact,
};
use crate::sort::sorted;
use crate::ChartError;

verus! {

/// The fraction one quarter: picks the lower quartile.
pub const QUARTER: i128 = 250_000_000_000_000;

/// The fraction one half: picks the median.
pub const HALF: i128 = 500_000_000_000_000;

/// The fraction three quarters: picks the upper quartile.
pub const THREE_QUARTERS: i128 = 750_000_000_000_000;

/// Interpolation rank of fraction `p` over `len` elements, scaled by
/// `UNIT`: the value `((len - 1) * p + 1) * UNIT` of the familiar rank.
pub open spec fn rank_units(len: int, p: int) -> int {
    (len - 1) * p + UNIT
}

/// The interpolated percentile of a sorted sequence at fraction `p`.
pub open spec fn percentile_spec(s: Seq<i128>, p: int) -> int
    recommends
        s.len() >= 1,
        0 <= p <= UNIT,
{
    let n = rank_units(s.len() as int, p);
    if n == UNIT {
        s[0] as int
    } else if n == s.len() * (UNIT as int) {
        s[s.len() - 1] as int
    } else {
        let k = n / (UNIT as int);
        let d = n % (UNIT as int);
        s[k - 1] + round_div_spec(d * (s[k] - s[k - 1]), UNIT as int)
    }
}

/// Whether the interpolation at fraction `p` stays within the machine
/// range: the gap between the two neighbouring elements and its product
/// with the fractional rank must fit.
pub open spec fn percentile_in_range(s: Seq<i128>, p: int) -> bool {
    let n = rank_units(s.len() as int, p);
    n == UNIT || n == s.len() * (UNIT as int) || {
        let k = n / (UNIT as int);
        &&& s[k] - s[k - 1] <= i128::MAX
        &&& mul_in_range(n % (UNIT as int), s[k] - s[k - 1])
    }
}

/// The interpolated percentile of `data` (sorted ascending) at fraction
/// `p`. An empty series is `InvalidInput`; a neighbour gap beyond the
/// fixed-point range is `NumericInstability`; every other input has the
/// exact interpolated value.
pub fn percentile(data: &Vec<i128>, p: i128) -> (r: Result<i128, ChartError>)
    requires
        sorted(data@),
        0 <= p <= UNIT,
    ensures
        r is Ok <==> data@.len() > 0 && percentile_in_range(data@, p as int),
        r matches Ok(v) ==> v == percentile_spec(data@, p as int),
        data@.len() == 0 ==> r == Err::<i128, ChartError>(ChartError::InvalidInput),
        data@.len() > 0 && !percentile_in_range(data@, p as int) ==> r == Err::<
            i128,
            ChartError,
        >(ChartError::NumericInstability),
{
    let len = data.len();
    if len == 0 {
        return Err(ChartError::InvalidInput);
    }
    let lm1 = (len - 1) as i128;
    proof {
        assert(lm1 * p <= lm1 * UNIT) by (nonlinear_arith)
            requires
                0 <= p <= UNIT,
                lm1 >= 0;
        assert(lm1 * (UNIT as int) >= 0) by (nonlinear_arith)
            requires
                lm1 >= 0,
                UNIT > 0;
    }
    let n: i128 = lm1 * p + UNIT;
    let ghost nn = rank_units(len as int, p as int);
    assert(n == nn);
    if n == UNIT {
        Ok(data[0])
    } else if n == (len as i128) * UNIT {
        Ok(data[len - 1])
    } else {
        proof {
            assert(nn > UNIT);
            assert(nn < len * (UNIT as int)) by (nonlinear_arith)
                requires
                    nn == (len as int - 1) * p + UNIT,
                    nn != len * (UNIT as int),
                    0 <= p <= UNIT,
                    len >= 1,
                    UNIT > 0;
            vstd::arithmetic::div_mod::lemma_fundamental_div_mod(nn, UNIT as int);
            assert(nn / (UNIT as int) >= 1 && nn / (UNIT as int) <= len - 1) by (nonlinear_arith)
                requires
                    UNIT < nn < len * (UNIT as int),
                    UNIT > 0,
                    nn == (UNIT as int) * (nn / (UNIT as int)) + nn % (UNIT as int),
                    0 <= nn % (UNIT as int) < UNIT;
        }
        let k128: i128 = crate::fixed::floor_div(n, UNIT);
        let k = k128 as usize;
        let d: i128 = n - k128 * UNIT;
        proof {
            assert(d == nn % (UNIT as int)) by {
                vstd::arithmetic::div_mod::lemma_fundamental_div_mod(nn, UNIT as int);
            }
        }
        let gap = match data[k].checked_sub(data[k - 1]) {
            Some(g) => g,
            None => {
                return Err(ChartError::NumericInstability);
            },
        };
        assert(gap >= 0);
        let prod = match d.checked_mul(gap) {
            Some(pr) => pr,
            None => {
                return Err(ChartError::NumericInstability);
            },
        };
        let frac = round_div(prod, UNIT);
        proof {
            assert(d * gap <= (UNIT as int) * (gap as int)) by (nonlinear_arith)
                requires
                    0 <= d <= UNIT,
                    gap >= 0;
            lemma_round_div_mono(0, prod as int, UNIT as int);
            lemma_round_div_mono(prod as int, (UNIT as int) * (gap as int), UNIT as int);
            lemma_round_div_exact(gap as int, UNIT as int);
            assert(0 <= frac <= gap);
        }
        Ok(data[k - 1] + frac)
    }
}

/// The endpoints of the percentile range: fraction zero is the first
/// element of a sorted series and fraction one the last.
pub proof fn lemma_percentile_extremes(s: Seq<i128>)
    requires
        s.len() >= 1,
    ensures
        percentile_spec(s, 0) == s[0],
        percentile_spec(s, UNIT as int) == s[s.len() - 1],
{
    assert(rank_units(s.len() as int, 0) == UNIT);
    assert(rank_units(s.len() as int, UNIT as int) == s.len() * (UNIT as int)) by (nonlinear_arith);
    if s.len() == 1 {
        assert(rank_units(1, UNIT as int) == UNIT);
    } else {
        assert(s.len() * (UNIT as int) != UNIT) by (nonlinear_arith)
            requires
                s.len() >= 2,
                UNIT > 0;
    }
}

/// Interpolated values never leave the envelope of the two neighbouring
/// elements.
proof fn lemma_percentile_envelope(s: Seq<i128>, p: int)
    requires
        sorted(s),
        s.len() >= 1,
        0 <= p <= UNIT,
        rank_units(s.len() as int, p) != UNIT,
        rank_units(s.len() as int, p) != s.len() * (UNIT as int),
    ensures
        1 <= rank_units(s.len() as int, p) / (UNIT as int) <= s.len() - 1,
        s[rank_units(s.len() as int, p) / (UNIT as int) - 1] <= percentile_spec(s, p),
        percentile_spec(s, p) <= s[rank_units(s.len() as int, p) / (UNIT as int)],
{
    let n = rank_units(s.len() as int, p);
    let len = s.len() as int;
    assert(n > UNIT) by (nonlinear_arith)
        requires
            n == (len - 1) * p + UNIT,
            n != UNIT,
            0 <= p <= UNIT,
            len >= 1;
    assert(n < len * (UNIT as int)) by (nonlinear_arith)
        requires
            n == (len - 1) * p + UNIT,
            n != len * (UNIT as int),
            0 <= p <= UNIT,
            len >= 1,
            UNIT > 0;
    vstd::arithmetic::div_mod::lemma_fundamental_div_mod(n, UNIT as int);
    let k = n / (UNIT as int);
    let d = n % (UNIT as int);
    assert(1 <= k <= len - 1) by (nonlinear_arith)
        requires
            UNIT < n < len * (UNIT as int),
            UNIT > 0,
            n == (UNIT as int) * k + d,
            0 <= d < UNIT;
    let gap = s[k] - s[k - 1];
    assert(gap >= 0);
    assert(0 <= d * gap <= (UNIT as int) * gap) by (nonlinear_arith)
        requires
            0 <= d <= UNIT,
            gap >= 0;
    lemma_round_div_mono(0, d * gap, UNIT as int);
    lemma_round_div_mono(d * gap, (UNIT as int) * gap, UNIT as int);
    lemma_round_div_exact(gap, UNIT as int);
}

/// Monotonicity of the percentile in its fraction: over one sorted
/// series, a larger fraction never yields a smaller value. In
/// particular the lower quartile is at most the median, which is at
/// most the upper quartile.
pub proof fn lemma_percentile_monotone(s: Seq<i128>, p: int, q: int)
    requires
        sorted(s),
        s.len() >= 1,
        0 <= p <= q <= UNIT,
    ensures
        percentile_spec(s, p) <= percentile_spec(s, q),
{
    let len = s.len() as int;
    let np = rank_units(len, p);
    let nq = rank_units(len, q);
    assert(np <= nq) by (nonlinear_arith)
        requires
            np == (len - 1) * p + UNIT,
            nq == (len - 1) * q + UNIT,
            p <= q,
            len >= 1;
    assert(np >= UNIT) by (nonlinear_arith)
        requires
            np == (len - 1) * p + UNIT,
            p >= 0,
            len >= 1;
    assert(nq <= len * (UNIT as int)) by (nonlinear_arith)
        requires
            nq == (len - 1) * q + UNIT,
            0 <= q <= UNIT,
            len >= 1;
    if np == UNIT {
        lemma_percentile_first_smallest(s, q);
    } else if nq == len * (UNIT as int) {
        lemma_percentile_last_largest(s, p);
    } else {
        // Both ranks are interior (nq < len * UNIT rules out nq == UNIT
        // only when len >= 2; np > UNIT already gives len >= 2).
        assert(np != UNIT && nq != UNIT);
        assert(np != len * (UNIT as int));
        lemma_percentile_envelope(s, p);
        lemma_percentile_envelope(s, q);
        let kp = np / (UNIT as int);
        let kq = nq / (UNIT as int);
        vstd::arithmetic::div_mod::lemma_div_is_ordered(np, nq, UNIT as int);
        if kp == kq {
            let dp = np % (UNIT as int);
            let dq = nq % (UNIT as int);
            vstd::arithmetic::div_mod::lemma_fundamental_div_mod(np, UNIT as int);
            vstd::arithmetic::div_mod::lemma_fundamental_div_mod(nq, UNIT as int);
            assert(dp <= dq);
            let gap = s[kp] - s[kp - 1];
            assert(gap >= 0);
            assert(dp * gap <= dq * gap) by (nonlinear_arith)
                requires
                    dp <= dq,
                    gap >= 0;
            lemma_round_div_mono(dp * gap, dq * gap, UNIT as int);
        } else {
            assert(kp < kq);
            assert(s[kp] <= s[kq - 1]);
        }
    }
}

/// The first element of a sorted series is a lower bound for every
/// percentile of it.
proof fn lemma_percentile_first_smallest(s: Seq<i128>, q: int)
    requires
        sorted(s),
        s.len() >= 1,
        0 <= q <= UNIT,
    ensures
        s[0] <= percentile_spec(s, q),
{
    let len = s.len() as int;
    let nq = rank_units(len, q);
    if nq == UNIT {
    } else if nq == len * (UNIT as int) {
        assert(len >= 1);
    } else {
        lemma_percentile_envelope(s, q);
        let kq = nq / (UNIT as int);
        assert(kq - 1 >= 0);
        assert(s[0] <= s[kq - 1]);
    }
}

/// The last element of a sorted series is an upper bound for every
/// percentile of it.
proof fn lemma_percentile_last_largest(s: Seq<i128>, p: int)
    requires
        sorted(s),
        s.len() >= 1,
        0 <= p <= UNIT,
    ensures
        percentile_spec(s, p) <= s[s.len() - 1],
{
    let len = s.len() as int;
    let np = rank_units(len, p);
    if np == UNIT {
    } else if np == len * (UNIT as int) {
    } else {
        lemma_percentile_envelope(s, p);
        let kp = np / (UNIT as int);
        assert(s[kp] <= s[len - 1]);
    }
}


/// Quartile ordering: over any series, the lower quartile is at most
/// the median, which is at most the upper quartile (stated over the
/// series' ascending arrangement, which is how quartiles are taken).
pub proof fn lemma_quartiles_ordered(s: Seq<i128>)
    requires
        sorted(s),
        s.len() >= 1,
    ensures
        percentile_spec(s, QUARTER as int) <= percentile_spec(s, HALF as int),
        percentile_spec(s, HALF as int) <= percentile_spec(s, THREE_QUARTERS as int),
{
    lemma_percentile_monotone(s, QUARTER as int, HALF as int);
    lemma_percentile_monotone(s, HALF as int, THREE_QUARTERS as int);
}


/// Quartile ordering over any series: the quartiles of a series are
/// taken over its ascending arrangement, and there the lower quartile
/// is at most the median, which is at most the upper quartile.
pub proof fn lemma_quartiles_ordered_any(s: Seq<i128>)
    requires
        s.len() >= 1,
    ensures
        percentile_spec(crate::sort::sorted_of(s), QUARTER as int) <= percentile_spec(
            crate::sort::sorted_of(s),
            HALF as int,
        ),
        percentile_spec(crate::sort::sorted_of(s), HALF as int) <= percentile_spec(
            crate::sort::sorted_of(s),
            THREE_QUARTERS as int,
        ),
{
    crate::sort::lemma_sorted_of_sorted(s);
    lemma_quartiles_ordered(crate::sort::sorted_of(s));
}

} // verus!
