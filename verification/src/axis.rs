//! Axis state: bounds, tick scale, titles, and the layout kind.
//!
//! A chart stores the solved bounds and scale of each axis here. A
//! caller may override the bounds or the tick interval afterwards, in
//! which case the scale is recomputed directly, without re-checking the
//! solver's fill-ratio or tick-density constraints.

use vstd::prelude::*;
use crate::fixed::{UNIT, round_div_spec, round_div, mul_in_range};
use crate::range::{
    RangeConfig, default_config, solve_range, solve_core_spec, calc_scale, calc_scale_spec,
    pooled_min, pooled_max, set_view,
};
use crate::outlier::{series_ok, has_outliers, has_outliers_spec};
use crate::ChartError;

verus! {

/// How the axes cross: which of them must be drawn twice because data
/// straddles zero.
#[derive(Clone, Copy, Debug, PartialEq, Eq, Structural)]
pub enum AxisKind {
    NoAxis,
    Single,
    DoubleHorizontal,
    DoubleVertical,
    Full,
}

/// The layout kind of a pair of solved axes: both straddling zero is a
/// full cross, one straddling doubles that direction, neither is a
/// single corner layout.
pub fn axis_kind(x_min: i128, x_max: i128, y_min: i128, y_max: i128) -> (k: AxisKind)
    ensures
        k == AxisKind::Full <==> (x_min < 0 && x_max > 0 && y_min < 0 && y_max > 0),
        k == AxisKind::DoubleHorizontal <==> (x_min < 0 && x_max > 0 && !(y_min < 0 && y_max > 0)),
        k == AxisKind::DoubleVertical <==> (!(x_min < 0 && x_max > 0) && y_min < 0 && y_max > 0),
        k == AxisKind::Single <==> (!(x_min < 0 && x_max > 0) && !(y_min < 0 && y_max > 0)),
{
    if x_min < 0 && x_max > 0 && y_min < 0 && y_max > 0 {
        AxisKind::Full
    } else if x_min < 0 && x_max > 0 {
        AxisKind::DoubleHorizontal
    } else if y_min < 0 && y_max > 0 {
        AxisKind::DoubleVertical
    } else {
        AxisKind::Single
    }
}

/// The bounds, tick scales and titles of a chart's two axes.
#[derive(Clone, Debug)]
pub struct AxisProp {
    pub x_min: i128,
    pub x_max: i128,
    pub y_min: i128,
    pub y_max: i128,
    pub x_scale: i128,
    pub y_scale: i128,
    pub x_title: String,
    pub y_title: String,
}

impl AxisProp {
    /// Fresh axis state with the given bounds and scales and the stock
    /// titles.
    pub fn new(x_bounds: (i128, i128), y_bounds: (i128, i128), x_scale: i128, y_scale: i128) -> (a:
        AxisProp)
        ensures
            a.x_min == x_bounds.0 && a.x_max == x_bounds.1,
            a.y_min == y_bounds.0 && a.y_max == y_bounds.1,
            a.x_scale == x_scale && a.y_scale == y_scale,
            a.x_title@ == "x-axis"@ && a.y_title@ == "y-axis"@,
    {
        AxisProp {
            x_min: x_bounds.0,
            x_max: x_bounds.1,
            y_min: y_bounds.0,
            y_max: y_bounds.1,
            x_scale,
            y_scale,
            x_title: "x-axis".to_string(),
            y_title: "y-axis".to_string(),
        }
    }

    /// Overrides the x-axis bounds and recomputes the tick scale from
    /// them; on a failed scale computation the state is unchanged.
    pub fn set_x_axis_bounds(&mut self, min: i128, max: i128) -> (r: Result<(), ChartError>)
        requires
            min != max,
        ensures
            r is Ok <==> calc_scale_spec(min as int, max as int) is Some,
            r is Ok ==> *final(self) == (AxisProp {
                x_min: min,
                x_max: max,
                x_scale: calc_scale_spec(min as int, max as int)->0 as i128,
                ..*old(self)
            }),
            r is Err ==> *final(self) == *old(self) && r == Err::<(), ChartError>(
                ChartError::NumericInstability,
            ),
    {
        match calc_scale(min, max) {
            Ok(s) => {
                self.x_min = min;
                self.x_max = max;
                self.x_scale = s;
                Ok(())
            },
            Err(e) => Err(e),
        }
    }

    /// Overrides the y-axis bounds and recomputes the tick scale from
    /// them; on a failed scale computation the state is unchanged.
    pub fn set_y_axis_bounds(&mut self, min: i128, max: i128) -> (r: Result<(), ChartError>)
        requires
            min != max,
        ensures
            r is Ok <==> calc_scale_spec(min as int, max as int) is Some,
            r is Ok ==> *final(self) == (AxisProp {
                y_min: min,
                y_max: max,
                y_scale: calc_scale_spec(min as int, max as int)->0 as i128,
                ..*old(self)
            }),
            r is Err ==> *final(self) == *old(self) && r == Err::<(), ChartError>(
                ChartError::NumericInstability,
            ),
    {
        match calc_scale(min, max) {
            Ok(s) => {
                self.y_min = min;
                self.y_max = max;
                self.y_scale = s;
                Ok(())
            },
            Err(e) => Err(e),
        }
    }

    /// Sets the tick interval of the x-axis directly: the scale becomes
    /// the interval's share of the stored span. Call after any bounds
    /// override, which recomputes the scale.
    pub fn set_x_axis_interval(&mut self, new_interval: i128) -> (r: Result<(), ChartError>)
        ensures
            r is Ok <==> old(self).x_min < old(self).x_max && old(self).x_max - old(
                self,
            ).x_min <= i128::MAX && mul_in_range(new_interval as int, UNIT as int),
            r is Ok ==> *final(self) == (AxisProp {
                x_scale: round_div_spec(
                    new_interval * UNIT,
                    old(self).x_max - old(self).x_min,
                ) as i128,
                ..*old(self)
            }),
            r is Err ==> *final(self) == *old(self) && r == Err::<(), ChartError>(
                ChartError::NumericInstability,
            ),
    {
        if self.x_min >= self.x_max {
            return Err(ChartError::NumericInstability);
        }
        let d = match self.x_max.checked_sub(self.x_min) {
            Some(v) => v,
            None => {
                return Err(ChartError::NumericInstability);
            },
        };
        match crate::fixed::mul_div_round(new_interval, UNIT, d) {
            Some(s) => {
                self.x_scale = s;
                Ok(())
            },
            None => Err(ChartError::NumericInstability),
        }
    }

    /// Sets the tick interval of the y-axis directly: the scale becomes
    /// the interval's share of the stored span. Call after any bounds
    /// override, which recomputes the scale.
    pub fn set_y_axis_interval(&mut self, new_interval: i128) -> (r: Result<(), ChartError>)
        ensures
            r is Ok <==> old(self).y_min < old(self).y_max && old(self).y_max - old(
                self,
            ).y_min <= i128::MAX && mul_in_range(new_interval as int, UNIT as int),
            r is Ok ==> *final(self) == (AxisProp {
                y_scale: round_div_spec(
                    new_interval * UNIT,
                    old(self).y_max - old(self).y_min,
                ) as i128,
                ..*old(self)
            }),
            r is Err ==> *final(self) == *old(self) && r == Err::<(), ChartError>(
                ChartError::NumericInstability,
            ),
    {
        if self.y_min >= self.y_max {
            return Err(ChartError::NumericInstability);
        }
        let d = match self.y_max.checked_sub(self.y_min) {
            Some(v) => v,
            None => {
                return Err(ChartError::NumericInstability);
            },
        };
        match crate::fixed::mul_div_round(new_interval, UNIT, d) {
            Some(s) => {
                self.y_scale = s;
                Ok(())
            },
            None => Err(ChartError::NumericInstability),
        }
    }

    /// Sets the x-axis title.
    pub fn set_x_axis_title(&mut self, new_title: String) -> (r: ())
        ensures
            *final(self) == (AxisProp { x_title: new_title, ..*old(self) }),
    {
        self.x_title = new_title;
    }

    /// Sets the y-axis title.
    pub fn set_y_axis_title(&mut self, new_title: String) -> (r: ())
        ensures
            *final(self) == (AxisProp { y_title: new_title, ..*old(self) }),
    {
        self.y_title = new_title;
    }
}

/// Solves an axis over a set of series with the stock configuration,
/// and reports the advisory outlier flag alongside, for the caller to
/// surface as a diagnostic; the flag never changes the layout.
pub fn calc_axis_props(data: &Vec<Vec<i128>>, start_zero: bool) -> (r: Result<
    (((i128, i128), i128), bool),
    ChartError,
>)
    ensures
        r is Ok ==> {
            &&& (forall|i: int| 0 <= i < data@.len() ==> series_ok(data@[i]@))
            &&& r->Ok_0.1 == has_outliers_spec(data@.map_values(|v: Vec<i128>| v@))
            &&& pooled_min(set_view(data@)) matches Some(mn) && solve_core_spec(
                mn,
                pooled_max(set_view(data@))->0,
                crate::range::default_config_spec(start_zero),
            ) == Some(
                (
                    (r->Ok_0.0.0.0 as int, r->Ok_0.0.0.1 as int),
                    r->Ok_0.0.1 as int,
                ),
            )
        },
        r is Err ==> (exists|i: int| 0 <= i < data@.len() && !series_ok(data@[i]@))
            || pooled_min(set_view(data@)) is None || solve_core_spec(
            pooled_min(set_view(data@))->0,
            pooled_max(set_view(data@))->0,
            crate::range::default_config_spec(start_zero),
        ) is None,
{
    let flag = match has_outliers(data) {
        Ok(f) => f,
        Err(e) => {
            return Err(e);
        },
    };
    let cfg = default_config(start_zero);
    match solve_range(data, cfg) {
        Ok(sol) => Ok((sol, flag)),
        Err(e) => Err(e),
    }
}


/// Where a value lies between two bounds, as a fraction of their span:
/// zero at the lower bound, one at the upper, beyond the bounds the
/// fraction leaves `[0, 1]` accordingly.
pub fn get_percentage_in_bounds(value: i128, min: i128, max: i128) -> (r: Result<i128, ChartError>)
    requires
        min < max,
        max - min <= i128::MAX,
    ensures
        r is Ok <==> mul_in_range(value - min, UNIT as int) && -(i128::MAX as int) <= value - min
            <= i128::MAX,
        r matches Ok(p) ==> p == round_div_spec((value - min) * UNIT, max - min),
        r is Err ==> r == Err::<i128, ChartError>(ChartError::NumericInstability),
{
    let off = match value.checked_sub(min) {
        Some(v) if v != i128::MIN => v,
        _ => {
            proof {
                assert(value - min > i128::MAX ==> (value - min) * UNIT > i128::MAX)
                    by (nonlinear_arith)
                    requires
                        UNIT >= 1;
                assert(value - min < -(i128::MAX as int) ==> (value - min) * UNIT < -(
                i128::MAX as int)) by (nonlinear_arith)
                    requires
                        UNIT >= 1;
            }
            return Err(ChartError::NumericInstability);
        },
    };
    let d = max - min;
    match crate::fixed::mul_div_round(off, UNIT, d) {
        Some(p) => Ok(p),
        None => Err(ChartError::NumericInstability),
    }
}

} // verus!
