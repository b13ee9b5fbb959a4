//! Axis-layout and statistical-summary computation for chart rendering.
//!
//! Sample values are fixed-point numbers: an `i128` counts units of
//! `10^-15`, so every value carries exactly fifteen decimal places and all
//! arithmetic on them is exact integer arithmetic. The engine derives "nice"
//! axis bounds and tick spacing, interpolated percentiles and quartiles,
//! interquartile-range outlier detection, histogram binning and ordinary
//! least-squares regression over such values.

use vstd::prelude::*;

pub mod axis;
pub mod boxplot;
pub mod fixed;
pub mod histogram;
pub mod outlier;
pub mod palette;
pub mod parser;
pub mod percentile;
pub mod range;
pub mod regress;
pub mod sort;

pub use fixed::UNIT;

verus! {

/// Failures the numeric engine can surface.
///
/// An empty series where a value is needed is `InvalidInput`; an
/// iteration cap or an intermediate amount beyond the fixed-point range
/// is `NumericInstability`. A degenerate range (all values equal) is
/// not an error: the solver has an explicit fallback for it. All other
/// inputs have defined results.
#[derive(Clone, Copy, Debug, PartialEq, Eq, Structural)]
pub enum ChartError {
    InvalidInput,
    NumericInstability,
}

/// Implemented by every drawable chart: `draw` renders the chart by
/// whatever backend the implementor carries. Rendering itself lies
/// outside this crate; the engine only supplies the numbers.
pub trait Chart {
    fn draw(&self);
}

} // verus!
