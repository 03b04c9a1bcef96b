//! The order in which a frame is drawn: row of cells by row of cells from
//! the first row of the grid, and within a row column by column.
use vstd::prelude::*;
use vstd::arithmetic::div_mod::*;
use crate::raster::glyph_text;
use crate::sampler::{GridCoordinate, GridRange, Sampling};

verus! {

/// What the drawing of a frame does next.
#[derive(Clone, Copy, Debug, PartialEq, Eq, Structural)]
pub enum FrameStep {
    /// Classify the sample and draw its cell.
    Point { sample: GridCoordinate },
    /// Classify the two samples and draw their cell.
    Cell { top: GridCoordinate, bottom: GridCoordinate },
    /// End the current line.
    EndOfRow,
    /// Nothing is left to draw.
    Done,
}

/// The place that the drawing of a frame has reached.
#[derive(Clone, Copy, Debug, PartialEq, Eq, Structural)]
pub struct FrameCursor {
    pub range: GridRange,
    pub sampling: Sampling,
    pub col: i64,
    pub row: i64,
}

impl FrameCursor {
    /// The cursor is on a place that drawing from the start passes.
    pub open spec fn well_formed(self) -> bool {
        &&& 0 <= self.col - self.range.col_start <= self.range.width()
        &&& 0 <= self.row - self.range.row_start <= self.sampling.stride() * self.range.height(
            self.sampling,
        )
        &&& (self.row - self.range.row_start) % self.sampling.stride() == 0
    }

    /// The cursor before anything is drawn.
    pub open spec fn initial(range: GridRange, sampling: Sampling) -> FrameCursor {
        FrameCursor { range, sampling, col: range.col_start as i64, row: range.row_start as i64 }
    }

    /// The step to take at the cursor.
    pub open spec fn step(self) -> FrameStep {
        if self.row > self.range.row_end {
            FrameStep::Done
        } else if self.col > self.range.col_end {
            FrameStep::EndOfRow
        } else {
            match self.sampling {
                Sampling::Single => FrameStep::Point {
                    sample: GridCoordinate { col: self.col, row: self.row },
                },
                Sampling::Stacked => FrameStep::Cell {
                    top: GridCoordinate { col: self.col, row: self.row },
                    bottom: GridCoordinate { col: self.col, row: (self.row + 1) as i64 },
                },
            }
        }
    }

    /// The cursor after its step is taken.
    pub open spec fn successor(self) -> FrameCursor {
        match self.step() {
            FrameStep::Done => self,
            FrameStep::EndOfRow => FrameCursor {
                col: self.range.col_start as i64,
                row: (self.row + self.sampling.stride()) as i64,
                ..self
            },
            _ => FrameCursor { col: (self.col + 1) as i64, ..self },
        }
    }

    /// The number of steps of one row of cells: its cells and the end of
    /// the line.
    pub open spec fn period(range: GridRange) -> nat {
        range.width() + 1
    }

    /// The number of steps before nothing is left to draw.
    pub open spec fn length(range: GridRange, sampling: Sampling) -> nat {
        range.height(sampling) * Self::period(range)
    }

    /// The cursor after `n` steps from the start.
    pub open spec fn at(range: GridRange, sampling: Sampling, n: nat) -> FrameCursor {
        if n >= Self::length(range, sampling) {
            FrameCursor {
                range,
                sampling,
                col: range.col_start as i64,
                row: (range.row_start + sampling.stride() * range.height(sampling)) as i64,
            }
        } else {
            FrameCursor {
                range,
                sampling,
                col: (range.col_start + n % Self::period(range)) as i64,
                row: (range.row_start + sampling.stride() * (n / Self::period(range))) as i64,
            }
        }
    }

    /// Starts the drawing of a frame.
    pub fn start(range: GridRange, sampling: Sampling) -> (cursor: FrameCursor)
        ensures
            cursor == Self::initial(range, sampling),
            cursor == Self::at(range, sampling, 0),
            cursor.well_formed(),
    {
        proof {
            Self::lemma_walk(range, sampling, 0);
        }
        FrameCursor { range, sampling, col: range.col_start as i64, row: range.row_start as i64 }
    }

    /// Takes one step: says what to do at the cursor, and moves it on. Once
    /// the frame is done, the cursor stays.
    pub fn advance(&mut self) -> (step: FrameStep)
        ensures
            step == old(self).step(),
            *final(self) == old(self).successor(),
            old(self).well_formed() ==> final(self).well_formed(),
    {
        proof {
            if self.well_formed() {
                self.lemma_successor_well_formed();
            }
        }
        if self.row > self.range.row_end as i64 {
            FrameStep::Done
        } else if self.col > self.range.col_end as i64 {
            self.col = self.range.col_start as i64;
            match self.sampling {
                Sampling::Single => {
                    self.row = self.row + 1;
                },
                Sampling::Stacked => {
                    self.row = self.row + 2;
                },
            }
            FrameStep::EndOfRow
        } else {
            let here = GridCoordinate { col: self.col, row: self.row };
            self.col = self.col + 1;
            match self.sampling {
                Sampling::Single => FrameStep::Point { sample: here },
                Sampling::Stacked => FrameStep::Cell {
                    top: here,
                    bottom: GridCoordinate { col: here.col, row: here.row + 1 },
                },
            }
        }
    }

    /// Whether nothing is left to draw.
    pub fn is_done(&self) -> (done: bool)
        ensures
            done == (self.step() == FrameStep::Done),
    {
        self.row > self.range.row_end as i64
    }

    /// A step keeps the cursor on the places that drawing passes.
    pub proof fn lemma_successor_well_formed(self)
        requires
            self.well_formed(),
        ensures
            self.successor().well_formed(),
    {
        let stride = self.sampling.stride();
        let span = self.range.row_end - self.range.row_start;
        let offset = self.row - self.range.row_start;
        if self.row <= self.range.row_end && self.col > self.range.col_end {
            // offset is a multiple of the stride within the span, so one
            // more stride stays within stride * height
            lemma_fundamental_div_mod(span as int, stride);
            lemma_fundamental_div_mod(offset as int, stride);
            lemma_mod_bound(span as int, stride);
            if self.sampling == Sampling::Stacked {
                assert(offset == 2 * (offset / 2));
                assert(span == 2 * (span / 2) + span % 2);
                assert(offset / 2 <= span / 2);
                assert((offset + 2) % 2 == 0);
            }
        }
    }

    /// Stepping from the place reached after `n` steps reaches the place
    /// after `n + 1` steps, and every such place is well formed.
    pub proof fn lemma_walk(range: GridRange, sampling: Sampling, n: nat)
        ensures
            Self::at(range, sampling, n).well_formed(),
            Self::at(range, sampling, n).successor() == Self::at(range, sampling, n + 1),
            Self::at(range, sampling, 0) == Self::initial(range, sampling),
    {
        let p = Self::period(range) as int;
        let h = range.height(sampling) as int;
        let w = range.width() as int;
        let q = n as int / p;
        let r = n as int % p;
        let stride = sampling.stride();
        let span = range.row_end - range.row_start;
        lemma_fundamental_div_mod(n as int, p);
        lemma_mod_bound(n as int, p);
        lemma_basic_div(0, p);
        lemma_small_mod(0, p as nat);
        lemma_fundamental_div_mod(span as int, stride);
        lemma_mod_bound(span as int, stride);
        assert(h * p == 0 <==> h == 0) by (nonlinear_arith)
            requires
                p >= 1,
                h >= 0,
        ;
        if n < Self::length(range, sampling) {
            assert(q < h) by (nonlinear_arith)
                requires
                    n == p * q + r,
                    0 <= r,
                    n < h * p,
                    p >= 1,
            ;
            assert(q >= 0) by (nonlinear_arith)
                requires
                    n == p * q + r,
                    r < p,
                    n >= 0,
                    p >= 1,
            ;
            assert((stride * q) % stride == 0) by {
                lemma_mod_multiples_basic(q, stride);
                assert(stride * q == q * stride) by (nonlinear_arith);
            }
            if r == w {
                assert(n + 1 == p * (q + 1) + 0) by (nonlinear_arith)
                    requires
                        n == p * q + r,
                        r == p - 1,
                ;
                lemma_fundamental_div_mod_converse(n as int + 1, p, q + 1, 0);
                assert((q + 1 < h) <==> (n + 1 < h * p)) by (nonlinear_arith)
                    requires
                        n + 1 == p * (q + 1),
                        p >= 1,
                ;
            } else {
                assert(n + 1 == p * q + (r + 1)) by (nonlinear_arith)
                    requires
                        n == p * q + r,
                ;
                lemma_fundamental_div_mod_converse(n as int + 1, p, q, r + 1);
                assert(n + 1 < h * p) by (nonlinear_arith)
                    requires
                        n + 1 == p * q + (r + 1),
                        r + 1 < p,
                        q + 1 <= h,
                        p >= 1,
                ;
            }
        } else {
            assert((stride * h) % stride == 0) by {
                lemma_mod_multiples_basic(h, stride);
                assert(stride * h == h * stride) by (nonlinear_arith);
            }
        }
    }

    /// Drawing goes in raster order: row of cells `n / period` is drawn
    /// before the next, its cells from the first column to the last, then
    /// the end of the line; after the last row nothing is left.
    pub proof fn lemma_raster_order(range: GridRange, sampling: Sampling, n: nat)
        ensures
            n >= Self::length(range, sampling) ==> Self::at(range, sampling, n).step()
                == FrameStep::Done,
            n < Self::length(range, sampling) && n % Self::period(range) == range.width()
                ==> Self::at(range, sampling, n).step() == FrameStep::EndOfRow,
            n < Self::length(range, sampling) && n % Self::period(range) < range.width()
                && sampling == Sampling::Single ==> Self::at(range, sampling, n).step()
                == (FrameStep::Point {
                sample: GridCoordinate {
                    col: (range.col_start + n % Self::period(range)) as i64,
                    row: (range.row_start + n / Self::period(range)) as i64,
                },
            }),
            n < Self::length(range, sampling) && n % Self::period(range) < range.width()
                && sampling == Sampling::Stacked ==> Self::at(range, sampling, n).step()
                == (FrameStep::Cell {
                top: GridCoordinate {
                    col: (range.col_start + n % Self::period(range)) as i64,
                    row: (range.row_start + 2 * (n / Self::period(range))) as i64,
                },
                bottom: GridCoordinate {
                    col: (range.col_start + n % Self::period(range)) as i64,
                    row: (range.row_start + 2 * (n / Self::period(range)) + 1) as i64,
                },
            }),
    {
        let p = Self::period(range) as int;
        let h = range.height(sampling) as int;
        let q = n as int / p;
        let r = n as int % p;
        let stride = sampling.stride();
        let span = range.row_end - range.row_start;
        lemma_fundamental_div_mod(n as int, p);
        lemma_mod_bound(n as int, p);
        lemma_fundamental_div_mod(span as int, stride);
        lemma_mod_bound(span as int, stride);
        if n < Self::length(range, sampling) {
            assert(q < h) by (nonlinear_arith)
                requires
                    n == p * q + r,
                    0 <= r,
                    n < h * p,
                    p >= 1,
            ;
            assert(q >= 0) by (nonlinear_arith)
                requires
                    n == p * q + r,
                    r < p,
                    n >= 0,
                    p >= 1,
            ;
        }
    }
}

/// The text that the step after `n` steps adds to the frame, where
/// `satisfied` says of each sample whether it satisfies the clause.
pub open spec fn emission(
    range: GridRange,
    sampling: Sampling,
    debug: bool,
    satisfied: spec_fn(GridCoordinate) -> bool,
    n: nat,
) -> Seq<char> {
    match FrameCursor::at(range, sampling, n).step() {
        FrameStep::Point { sample } => glyph_text(satisfied(sample), satisfied(sample), debug),
        FrameStep::Cell { top, bottom } => glyph_text(satisfied(top), satisfied(bottom), debug),
        FrameStep::EndOfRow => "\n"@,
        FrameStep::Done => Seq::<char>::empty(),
    }
}

/// The text of a frame after `n` steps.
pub open spec fn frame_text(
    range: GridRange,
    sampling: Sampling,
    debug: bool,
    satisfied: spec_fn(GridCoordinate) -> bool,
    n: nat,
) -> Seq<char>
    decreases n,
{
    if n == 0 {
        Seq::<char>::empty()
    } else {
        frame_text(range, sampling, debug, satisfied, (n - 1) as nat) + emission(
            range,
            sampling,
            debug,
            satisfied,
            (n - 1) as nat,
        )
    }
}

/// Whether two classifications agree on the samples of the step after `n`
/// steps.
pub open spec fn agree_at(
    range: GridRange,
    sampling: Sampling,
    first: spec_fn(GridCoordinate) -> bool,
    second: spec_fn(GridCoordinate) -> bool,
    n: nat,
) -> bool {
    match FrameCursor::at(range, sampling, n).step() {
        FrameStep::Point { sample } => first(sample) == second(sample),
        FrameStep::Cell { top, bottom } => first(top) == second(top) && first(bottom) == second(
            bottom,
        ),
        _ => true,
    }
}

/// The text of a frame is settled by its grid, its sampling, the debug flag
/// and the classification of the samples it visits: two runs that agree on
/// these draw the same text.
pub proof fn lemma_frame_determined(
    range: GridRange,
    sampling: Sampling,
    debug: bool,
    first: spec_fn(GridCoordinate) -> bool,
    second: spec_fn(GridCoordinate) -> bool,
    n: nat,
)
    requires
        forall|k: nat| k < n ==> agree_at(range, sampling, first, second, k),
    ensures
        frame_text(range, sampling, debug, first, n) == frame_text(
            range,
            sampling,
            debug,
            second,
            n,
        ),
    decreases n,
{
    if n > 0 {
        let before = (n - 1) as nat;
        lemma_frame_determined(range, sampling, debug, first, second, before);
        assert(agree_at(range, sampling, first, second, before));
    }
}

} // verus!
