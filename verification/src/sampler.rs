//! From a viewport in the complex plane to a grid of integer samples.
use vstd::prelude::*;
use crate::binary64::Binary64;
use crate::error::ConfigError;

verus! {

/// The rectangle of the complex plane to draw, and how densely to sample
/// it: `resolution` samples per unit length.
#[derive(Clone, Copy, Debug, PartialEq, Eq, Structural)]
pub struct ViewportConfig {
    pub real_start: Binary64,
    pub real_end: Binary64,
    pub complex_start: Binary64,
    pub complex_end: Binary64,
    pub resolution: i64,
}

/// The bounds of a viewport, each multiplied by the resolution.
#[derive(Clone, Copy, Debug, PartialEq, Eq, Structural)]
pub struct ScaledBounds {
    pub real_start: Binary64,
    pub real_end: Binary64,
    pub complex_start: Binary64,
    pub complex_end: Binary64,
}

/// The columns and rows to sample, both ends included. A range whose end is
/// below its start is empty.
#[derive(Clone, Copy, Debug, PartialEq, Eq, Structural)]
pub struct GridRange {
    pub col_start: i32,
    pub col_end: i32,
    pub row_start: i32,
    pub row_end: i32,
}

/// How many samples a cell of the output stands for.
#[derive(Clone, Copy, Debug, PartialEq, Eq, Structural)]
pub enum Sampling {
    /// One sample for each cell.
    Single,
    /// Two samples for each cell, one above the other: twice the vertical
    /// detail in the same number of lines.
    Stacked,
}

impl Sampling {
    /// The number of rows of samples that a row of cells takes.
    pub open spec fn stride(self) -> int {
        match self {
            Sampling::Single => 1,
            Sampling::Stacked => 2,
        }
    }
}

/// A sample by its place in the grid. It stands for the complex number
/// `col / resolution + (row / resolution) i`.
#[derive(Clone, Copy, Debug, PartialEq, Eq, Structural)]
pub struct GridCoordinate {
    pub col: i64,
    pub row: i64,
}

impl ViewportConfig {
    /// A viewport is fit to draw when its resolution is positive and
    /// neither axis ends before it starts.
    pub open spec fn well_formed(self) -> bool {
        &&& self.resolution >= 1
        &&& self.real_start.le(self.real_end)
        &&& self.complex_start.le(self.complex_end)
    }

    /// The first thing wrong with a viewport, if anything is.
    pub open spec fn defect(self) -> Option<ConfigError> {
        if self.resolution < 1 {
            Some(ConfigError::ResolutionNotPositive)
        } else if !self.real_start.le(self.real_end) {
            Some(ConfigError::RealBoundsInverted)
        } else if !self.complex_start.le(self.complex_end) {
            Some(ConfigError::ComplexBoundsInverted)
        } else {
            None
        }
    }

    /// Checks a viewport: the resolution first, then the real axis, then
    /// the imaginary one.
    pub fn new(
        real_start: Binary64,
        real_end: Binary64,
        complex_start: Binary64,
        complex_end: Binary64,
        resolution: i64,
    ) -> (checked: Result<ViewportConfig, ConfigError>)
        ensures
            checked == (match (ViewportConfig {
                real_start,
                real_end,
                complex_start,
                complex_end,
                resolution,
            }).defect() {
                Some(error) => Err::<ViewportConfig, ConfigError>(error),
                None => Ok::<ViewportConfig, ConfigError>(
                    ViewportConfig { real_start, real_end, complex_start, complex_end, resolution },
                ),
            }),
            checked is Ok ==> checked->Ok_0.well_formed(),
    {
        if resolution < 1 {
            Err(ConfigError::ResolutionNotPositive)
        } else if !real_start.is_le(real_end) {
            Err(ConfigError::RealBoundsInverted)
        } else if !complex_start.is_le(complex_end) {
            Err(ConfigError::ComplexBoundsInverted)
        } else {
            Ok(ViewportConfig { real_start, real_end, complex_start, complex_end, resolution })
        }
    }
}

impl Default for ViewportConfig {
    /// The viewport of a render that is given no setting: every bound at
    /// zero, one sample per unit length.
    fn default() -> (viewport: ViewportConfig)
        ensures
            viewport == (ViewportConfig {
                real_start: Binary64 { bits: 0 },
                real_end: Binary64 { bits: 0 },
                complex_start: Binary64 { bits: 0 },
                complex_end: Binary64 { bits: 0 },
                resolution: 1,
            }),
    {
        let zero = Binary64 { bits: 0 };
        ViewportConfig {
            real_start: zero,
            real_end: zero,
            complex_start: zero,
            complex_end: zero,
            resolution: 1,
        }
    }
}

impl ScaledBounds {
    /// The grid that the bounds span: each bound truncated toward zero, and
    /// the rows taken from the negated imaginary bounds, the upper one
    /// first.
    pub open spec fn grid(self) -> GridRange {
        GridRange {
            col_start: self.real_start.saturated() as i32,
            col_end: self.real_end.saturated() as i32,
            row_start: self.complex_end.negated().saturated() as i32,
            row_end: self.complex_start.negated().saturated() as i32,
        }
    }

    /// Negation reverses the order.
    pub proof fn lemma_negation_reverses(low: Binary64, high: Binary64)
        requires
            low.le(high),
        ensures
            high.negated().le(low.negated()),
    {
        low.lemma_negated();
        high.lemma_negated();
    }

    /// Ordered bounds span ordered ranges: where an axis does not end
    /// before it starts, neither does its range of samples.
    pub proof fn lemma_grid_ordered(self)
        ensures
            self.real_start.le(self.real_end) ==> self.grid().col_start <= self.grid().col_end,
            self.complex_start.le(self.complex_end) ==> self.grid().row_start
                <= self.grid().row_end,
    {
        if self.real_start.le(self.real_end) {
            self.real_start.lemma_truncation_monotone(self.real_end);
        }
        if self.complex_start.le(self.complex_end) {
            Self::lemma_negation_reverses(self.complex_start, self.complex_end);
            self.complex_end.negated().lemma_truncation_monotone(self.complex_start.negated());
        }
    }
}

impl GridRange {
    /// The number of samples in a row.
    pub open spec fn width(self) -> nat {
        if self.col_end < self.col_start {
            0
        } else {
            (self.col_end - self.col_start + 1) as nat
        }
    }

    /// The number of rows of cells. Stacked cells take the rows of samples
    /// two at a time, and the last cell reaches one row past the end where
    /// the count of rows is odd.
    pub open spec fn height(self, sampling: Sampling) -> nat {
        if self.row_end < self.row_start {
            0
        } else {
            ((self.row_end - self.row_start) / sampling.stride() + 1) as nat
        }
    }
}

/// Turns scaled bounds into the ranges of columns and rows to sample.
pub fn viewport_to_grid_range(scaled: ScaledBounds) -> (range: GridRange)
    ensures
        range == scaled.grid(),
        range.col_start == scaled.real_start.saturated(),
        range.col_end == scaled.real_end.saturated(),
        range.row_start == scaled.complex_end.negated().saturated(),
        range.row_end == scaled.complex_start.negated().saturated(),
{
    GridRange {
        col_start: scaled.real_start.to_i32(),
        col_end: scaled.real_end.to_i32(),
        row_start: scaled.complex_end.negate().to_i32(),
        row_end: scaled.complex_start.negate().to_i32(),
    }
}

} // verus!
