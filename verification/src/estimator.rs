//! The trailing-window rate estimator.
//!
//! The signed rate of change is measured between the newest sample and a
//! reference: the most recent sample strictly older than the newest
//! timestamp minus the five-minute trailing window. The engine decides
//! which sample that is and whether a forecast is possible at all; turning
//! the two samples into a percent-per-second quotient and a remaining-time
//! figure is single-precision arithmetic left to the caller.
use vstd::prelude::*;

use crate::state::BatteryState;
use crate::state::levels_equal;
use crate::state::spec_levels_equal;
use crate::state::timestamps_ascend;

verus! {

/// Seconds of the trailing estimation window: five minutes.
pub const TRAILING_WINDOW_SECS: u32 = 300;

/// Why no forecast can be offered. Both verdicts are recoverable: the
/// caller renders the observed series without a forecast.
#[derive(Clone, Copy, PartialEq, Eq, Structural, Debug)]
pub enum EstimateError {
    /// The history reaches back no further than the trailing window, so
    /// there is no reference sample to measure against.
    InsufficientWindow,
    /// The level did not change between the reference and the newest
    /// sample: the rate is zero, and a remaining-time figure would divide
    /// by it.
    UndefinedForecast,
}

/// The most recent sample strictly older than the threshold `t`:
/// scanning from the end, the first index whose timestamp lies below it.
pub open spec fn spec_ref_search(h: Seq<BatteryState>, t: int) -> Option<int>
    decreases h.len(),
{
    if h.len() == 0 {
        None
    } else if h.last().timestamp < t {
        Some(h.len() - 1)
    } else {
        spec_ref_search(h.drop_last(), t)
    }
}

/// The estimator's verdict on a non-empty history: the index of the
/// reference sample, or why there is none.
pub open spec fn spec_estimate(h: Seq<BatteryState>) -> Result<int, EstimateError>
    recommends
        h.len() >= 1,
{
    match spec_ref_search(h, h.last().timestamp - TRAILING_WINDOW_SECS) {
        None => Err(EstimateError::InsufficientWindow),
        Some(i) => if spec_levels_equal(h[i].level_bits, h.last().level_bits) {
            Err(EstimateError::UndefinedForecast)
        } else {
            Ok(i)
        },
    }
}

/// When no sample is older than the threshold, the search is empty.
proof fn lemma_ref_search_none(h: Seq<BatteryState>, t: int)
    requires
        forall|j: int| 0 <= j < h.len() ==> h[j].timestamp >= t,
    ensures
        spec_ref_search(h, t) is None,
    decreases h.len(),
{
    if h.len() > 0 {
        assert(forall|j: int| 0 <= j < h.drop_last().len() ==> h.drop_last()[j] == h[j]);
        lemma_ref_search_none(h.drop_last(), t);
    }
}

/// When `c` is older than the threshold and nothing after it is, the
/// search finds exactly `c`.
proof fn lemma_ref_search_found(h: Seq<BatteryState>, t: int, c: int)
    requires
        0 <= c < h.len(),
        h[c].timestamp < t,
        forall|j: int| c < j < h.len() ==> h[j].timestamp >= t,
    ensures
        spec_ref_search(h, t) == Some(c),
    decreases h.len(),
{
    if c < h.len() - 1 {
        assert(forall|j: int| 0 <= j < h.drop_last().len() ==> h.drop_last()[j] == h[j]);
        lemma_ref_search_found(h.drop_last(), t, c);
    }
}

/// What the search result means, in either direction.
proof fn lemma_ref_search_props(h: Seq<BatteryState>, t: int)
    ensures
        match spec_ref_search(h, t) {
            Some(c) => {
                &&& 0 <= c < h.len()
                &&& h[c].timestamp < t
                &&& forall|j: int| c < j < h.len() ==> h[j].timestamp >= t
            },
            None => forall|j: int| 0 <= j < h.len() ==> h[j].timestamp >= t,
        },
    decreases h.len(),
{
    if h.len() > 0 && h.last().timestamp >= t {
        lemma_ref_search_props(h.drop_last(), t);
        assert(forall|j: int| 0 <= j < h.drop_last().len() ==> h.drop_last()[j] == h[j]);
    }
}

/// Finds the reference sample for a trailing-window estimate, or says why
/// there is none: `InsufficientWindow` exactly when no sample is strictly
/// older than the newest timestamp minus the window, `UndefinedForecast`
/// exactly when a reference exists but its level equals the newest one
/// under single-precision subtraction.
pub fn estimate(states: &Vec<BatteryState>) -> (r: Result<usize, EstimateError>)
    requires
        states@.len() >= 1,
    ensures
        match r {
            Ok(i) => i < states@.len() && spec_estimate(states@) == Ok::<int, EstimateError>(
                i as int,
            ),
            Err(e) => spec_estimate(states@) == Err::<int, EstimateError>(e),
        },
{
    let n = states.len();
    let last_ts = states[n - 1].timestamp;
    let ghost t = last_ts - TRAILING_WINDOW_SECS as int;
    let mut found = false;
    let mut cut: usize = 0;
    let mut i: usize = n;
    while i > 0 && !found
        invariant
            i <= n == states@.len(),
            n >= 1,
            last_ts == states@[n - 1].timestamp,
            t == last_ts - TRAILING_WINDOW_SECS,
            !found ==> forall|j: int| i <= j < n ==> states@[j].timestamp >= t,
            found ==> {
                &&& cut < n
                &&& states@[cut as int].timestamp < t
                &&& forall|j: int| cut < j < n ==> states@[j].timestamp >= t
            },
        decreases i + (if found { 0int } else { 1int }),
    {
        let idx = i - 1;
        if last_ts >= TRAILING_WINDOW_SECS && states[idx].timestamp < last_ts
            - TRAILING_WINDOW_SECS {
            found = true;
            cut = idx;
        } else {
            i = idx;
        }
    }
    if !found {
        proof {
            lemma_ref_search_none(states@, t);
        }
        return Err(EstimateError::InsufficientWindow);
    }
    proof {
        lemma_ref_search_found(states@, t, cut as int);
    }
    if levels_equal(states[cut].level_bits, states[n - 1].level_bits) {
        Err(EstimateError::UndefinedForecast)
    } else {
        Ok(cut)
    }
}

/// A history that reaches back no further than the trailing window always
/// gets the `InsufficientWindow` verdict — never a crash or a division by
/// zero, which no verified function can raise.
pub proof fn lemma_short_history_insufficient(h: Seq<BatteryState>)
    requires
        timestamps_ascend(h),
        h.len() >= 1,
        h.last().timestamp - h[0].timestamp <= TRAILING_WINDOW_SECS,
    ensures
        spec_estimate(h) == Err::<int, EstimateError>(EstimateError::InsufficientWindow),
{
    let t = h.last().timestamp - TRAILING_WINDOW_SECS as int;
    assert forall|j: int| 0 <= j < h.len() implies h[j].timestamp >= t by {
        assert(h[0].timestamp <= h[j].timestamp);
    }
    lemma_ref_search_none(h, t);
}

/// What an `Ok` verdict means: the reference lies strictly before the
/// threshold, every sample after it does not, and the level moved across
/// the window.
pub proof fn lemma_estimate_reference(h: Seq<BatteryState>, i: int)
    requires
        h.len() >= 1,
        spec_estimate(h) == Ok::<int, EstimateError>(i),
    ensures
        0 <= i < h.len(),
        h[i].timestamp < h.last().timestamp - TRAILING_WINDOW_SECS,
        forall|j: int|
            i < j < h.len() ==> h[j].timestamp >= h.last().timestamp - TRAILING_WINDOW_SECS,
        !spec_levels_equal(h[i].level_bits, h.last().level_bits),
{
    lemma_ref_search_props(h, h.last().timestamp - TRAILING_WINDOW_SECS as int);
}

} // verus!
