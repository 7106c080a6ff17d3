//! The series projector: a pure mapping from the decoded, possibly
//! forecast-extended, history and a target rectangle into normalized plot
//! geometry.
//!
//! The horizontal domain runs from the first observed timestamp to the
//! last one, extended by the forecast horizon when one is present; each
//! instant maps to the exact fraction of the domain it covers, so the
//! pixel abscissa is that fraction times the width. The vertical domain is
//! the fixed 0..100 percent band with 100 at the top, so a level maps to
//! `height - level / 100 * height`; the level rides along as its bit
//! pattern and that last step is the caller's single-precision arithmetic.
//!
//! The stroke path is one point per sample, in order, then — when a
//! forecast is present — a synthetic terminal point at the end of the
//! domain with level zero, to be drawn dashed and to anchor the
//! remaining-time label. The fill region closes the path over the
//! baseline: down from the last path point to the bottom edge and back to
//! the first point's abscissa. Three fixed gridlines mark 100%, 50% and 0%.
//!
//! No state is retained between calls: the whole output is a function of
//! the arguments, pinned field by field below, so identical inputs yield
//! identical geometry.
use vstd::prelude::*;

use crate::state::BatteryState;
use crate::state::timestamps_ascend;

verus! {

/// A horizontal position as an exact fraction of the plot width: the
/// pixel abscissa is `num / den * width`. The denominator is never zero:
/// a zero-span domain puts every point at fraction zero instead of
/// dividing by zero.
#[derive(Clone, Copy, PartialEq, Eq, Structural, Debug)]
pub struct PlotFrac {
    pub num: u64,
    pub den: u64,
}

/// One point of the stroke path: its horizontal fraction and the level
/// whose vertical pixel is `height - level / 100 * height`.
#[derive(Clone, Copy, PartialEq, Eq, Structural, Debug)]
pub struct PlotPoint {
    pub x: PlotFrac,
    pub level_bits: u32,
}

/// The target rectangle, in pixels.
#[derive(Clone, Copy, PartialEq, Eq, Structural, Debug)]
pub struct PlotRect {
    pub x: u32,
    pub y: u32,
    pub width: u32,
    pub height: u32,
}

/// The projected geometry, in coordinates local to the rectangle.
#[derive(Clone, Debug)]
pub struct PlotLayout {
    /// The rectangle the geometry was projected for.
    pub rect: PlotRect,
    /// The stroke path: one point per sample, in order, then the
    /// synthetic terminal point when a forecast is present.
    pub points: Vec<PlotPoint>,
    /// How many leading points are observed samples; every later point
    /// belongs to the projected, dashed segment.
    pub observed: usize,
    /// The three fixed horizontal gridlines as fractions of the height
    /// from the top: 100%, 50% and 0%.
    pub gridlines: Vec<PlotFrac>,
}

/// The span of the horizontal domain in seconds: from the first observed
/// timestamp to the last, extended by the forecast horizon when present.
pub open spec fn spec_domain_span(h: Seq<BatteryState>, remaining: Option<u32>) -> int
    recommends
        h.len() >= 1,
{
    h.last().timestamp + (match remaining {
        Some(r) => r as int,
        None => 0,
    }) - h[0].timestamp
}

/// The fraction `offset / span` of the domain, with the zero-span domain
/// mapping everything to fraction zero.
pub open spec fn spec_frac(offset: int, span: int) -> PlotFrac
    recommends
        0 <= offset <= span,
{
    if span <= 0 {
        PlotFrac { num: 0, den: 1 }
    } else {
        PlotFrac { num: offset as u64, den: span as u64 }
    }
}

/// Projects a non-empty history, and the optional forecast horizon in
/// whole seconds, into the geometry described module-wide: the point
/// list, the observed/projected split, and the gridlines, every field a
/// function of the inputs alone.
pub fn project(states: &Vec<BatteryState>, rect: PlotRect, remaining: Option<u32>) -> (layout:
    PlotLayout)
    requires
        states@.len() >= 1,
        timestamps_ascend(states@),
    ensures
        layout.rect == rect,
        layout.observed == states@.len(),
        layout.points@.len() == states@.len() + (if remaining is Some {
            1int
        } else {
            0
        }),
        forall|i: int|
            0 <= i < states@.len() ==> layout.points@[i] == (PlotPoint {
                x: spec_frac(
                    states@[i].timestamp - states@[0].timestamp,
                    spec_domain_span(states@, remaining),
                ),
                level_bits: states@[i].level_bits,
            }),
        remaining is Some ==> layout.points@[states@.len() as int] == (PlotPoint {
            x: spec_frac(
                spec_domain_span(states@, remaining),
                spec_domain_span(states@, remaining),
            ),
            level_bits: 0,
        }),
        layout.gridlines@ == seq![
            PlotFrac { num: 0, den: 1 },
            PlotFrac { num: 1, den: 2 },
            PlotFrac { num: 1, den: 1 },
        ],
{
    let n = states.len();
    let first_ts = states[0].timestamp;
    let last_ts = states[n - 1].timestamp;
    proof {
        assert(states@[0].timestamp <= states@[n - 1].timestamp);
    }
    let extra: u64 = match remaining {
        Some(r) => r as u64,
        None => 0,
    };
    let span: u64 = (last_ts as u64 - first_ts as u64) + extra;
    proof {
        assert(span == spec_domain_span(states@, remaining));
    }
    let mut points: Vec<PlotPoint> = Vec::new();
    let mut i: usize = 0;
    while i < n
        invariant
            i <= n == states@.len(),
            n >= 1,
            timestamps_ascend(states@),
            first_ts == states@[0].timestamp,
            span == spec_domain_span(states@, remaining),
            points@.len() == i,
            forall|j: int|
                0 <= j < i ==> points@[j] == (PlotPoint {
                    x: spec_frac(
                        states@[j].timestamp - states@[0].timestamp,
                        spec_domain_span(states@, remaining),
                    ),
                    level_bits: states@[j].level_bits,
                }),
        decreases n - i,
    {
        proof {
            assert(states@[0].timestamp <= states@[i as int].timestamp);
        }
        let off: u64 = states[i].timestamp as u64 - first_ts as u64;
        let x = if span == 0 {
            PlotFrac { num: 0, den: 1 }
        } else {
            PlotFrac { num: off, den: span }
        };
        points.push(PlotPoint { x, level_bits: states[i].level_bits });
        i = i + 1;
    }
    if remaining.is_some() {
        let x = if span == 0 {
            PlotFrac { num: 0, den: 1 }
        } else {
            PlotFrac { num: span, den: span }
        };
        points.push(PlotPoint { x, level_bits: 0 });
    }
    let mut gridlines: Vec<PlotFrac> = Vec::new();
    gridlines.push(PlotFrac { num: 0, den: 1 });
    gridlines.push(PlotFrac { num: 1, den: 2 });
    gridlines.push(PlotFrac { num: 1, den: 1 });
    proof {
        assert(gridlines@ == seq![
            PlotFrac { num: 0, den: 1 },
            PlotFrac { num: 1, den: 2 },
            PlotFrac { num: 1, den: 1 },
        ]);
    }
    PlotLayout { rect, points, observed: n, gridlines }
}

} // verus!
