//! The dual-criterion retention pruner.
//!
//! Run once per explicit prune action, it scans the history from newest to
//! oldest and stops at the first sample that is either a full-charge
//! checkpoint old enough not to be the live tail, or a sample that has
//! aged out of the fixed six-hour window. That sample and everything newer
//! are retained; everything strictly older is dropped. When no sample
//! stops the scan the history is unchanged.
use vstd::prelude::*;

use crate::state::BatteryState;
use crate::state::level_is_full;
use crate::state::spec_level_is_full;
use crate::state::timestamps_ascend;

verus! {

/// Seconds of history always retained: six hours.
pub const RETENTION_WINDOW_SECS: u32 = 21600;

/// Seconds a full-charge sample must age before it anchors a prune:
/// thirty minutes.
pub const CHECKPOINT_AGE_SECS: u32 = 1800;

/// Whether the sample still lies within the fixed retention window.
pub open spec fn spec_in_window(s: BatteryState, now: u32) -> bool {
    s.timestamp >= now - RETENTION_WINDOW_SECS
}

/// A full-charge checkpoint: the level reads at least 100.0 and the
/// sample is old enough not to be the live tail.
pub open spec fn spec_is_checkpoint(s: BatteryState, now: u32) -> bool {
    spec_level_is_full(s.level_bits) && s.timestamp <= now - CHECKPOINT_AGE_SECS
}

/// Where the backward scan stops: at a checkpoint, or at a sample that
/// has aged out of the window.
pub open spec fn spec_prune_match(s: BatteryState, now: u32) -> bool {
    spec_is_checkpoint(s, now) || !spec_in_window(s, now)
}

/// The retained history: the newest sample where the backward scan stops,
/// together with everything newer; the whole history when the scan never
/// stops.
pub open spec fn spec_prune(h: Seq<BatteryState>, now: u32) -> Seq<BatteryState>
    decreases h.len(),
{
    if h.len() == 0 {
        h
    } else if spec_prune_match(h.last(), now) {
        seq![h.last()]
    } else {
        spec_prune(h.drop_last(), now).push(h.last())
    }
}

/// Decides `spec_prune_match` for one sample.
fn prune_match(s: &BatteryState, now: u32) -> (r: bool)
    ensures
        r == spec_prune_match(*s, now),
{
    let checkpoint = level_is_full(s.level_bits) && now >= CHECKPOINT_AGE_SECS && s.timestamp
        <= now - CHECKPOINT_AGE_SECS;
    let aged_out = now >= RETENTION_WINDOW_SECS && s.timestamp < now - RETENTION_WINDOW_SECS;
    checkpoint || aged_out
}

/// Copies the samples from `from` to the end.
fn copy_suffix(states: &Vec<BatteryState>, from: usize) -> (out: Vec<BatteryState>)
    requires
        from <= states@.len(),
    ensures
        out@ == states@.subrange(from as int, states@.len() as int),
{
    let mut out: Vec<BatteryState> = Vec::new();
    let mut j = from;
    while j < states.len()
        invariant
            from <= j <= states@.len(),
            out@ == states@.subrange(from as int, j as int),
        decreases states@.len() - j,
    {
        out.push(states[j]);
        j = j + 1;
        proof {
            assert(states@.subrange(from as int, j as int)
                == states@.subrange(from as int, j - 1).push(states@[j - 1]));
        }
    }
    out
}

/// When the newest matching sample sits at `cut`, pruning keeps exactly
/// the samples from `cut` to the end.
proof fn lemma_prune_cut(h: Seq<BatteryState>, now: u32, cut: int)
    requires
        0 <= cut < h.len(),
        spec_prune_match(h[cut], now),
        forall|j: int| cut < j < h.len() ==> !spec_prune_match(h[j], now),
    ensures
        spec_prune(h, now) == h.subrange(cut, h.len() as int),
    decreases h.len(),
{
    if cut == h.len() - 1 {
        assert(seq![h.last()] == h.subrange(cut, h.len() as int));
    } else {
        assert(!spec_prune_match(h[h.len() - 1], now));
        assert(forall|j: int| cut < j < h.drop_last().len() ==> h.drop_last()[j] == h[j]);
        lemma_prune_cut(h.drop_last(), now, cut);
        assert(h.drop_last().subrange(cut, h.len() - 1).push(h.last())
            == h.subrange(cut, h.len() as int));
    }
}

/// When no sample matches, pruning changes nothing.
proof fn lemma_prune_nomatch(h: Seq<BatteryState>, now: u32)
    requires
        forall|j: int| 0 <= j < h.len() ==> !spec_prune_match(h[j], now),
    ensures
        spec_prune(h, now) == h,
    decreases h.len(),
{
    if h.len() > 0 {
        assert(!spec_prune_match(h[h.len() - 1], now));
        assert(forall|j: int| 0 <= j < h.drop_last().len() ==> h.drop_last()[j] == h[j]);
        lemma_prune_nomatch(h.drop_last(), now);
        assert(h.drop_last().push(h.last()) == h);
    }
}

/// Trims the history under the two-sided retention rule, given the
/// current wall-clock second. The result is what `spec_prune` describes:
/// the newest sample that is a settled full-charge checkpoint or has aged
/// out of the six-hour window, and everything newer; the input unchanged
/// when there is no such sample. An empty history stays empty.
pub fn prune_old(states: &Vec<BatteryState>, now: u32) -> (out: Vec<BatteryState>)
    ensures
        out@ == spec_prune(states@, now),
{
    let n = states.len();
    let mut cut: usize = 0;
    let mut matched = false;
    let mut i: usize = n;
    while i > 0 && !matched
        invariant
            i <= n == states@.len(),
            !matched ==> forall|j: int| i <= j < n ==> !spec_prune_match(states@[j], now),
            matched ==> {
                &&& cut < n
                &&& spec_prune_match(states@[cut as int], now)
                &&& forall|j: int| cut < j < n ==> !spec_prune_match(states@[j], now)
            },
        decreases i + (if matched { 0int } else { 1int }),
    {
        let idx = i - 1;
        if prune_match(&states[idx], now) {
            matched = true;
            cut = idx;
        } else {
            i = idx;
        }
    }
    if matched {
        proof {
            lemma_prune_cut(states@, now, cut as int);
        }
        copy_suffix(states, cut)
    } else {
        proof {
            lemma_prune_nomatch(states@, now);
        }
        copy_suffix(states, 0)
    }
}

/// Pruning is idempotent: pruning a pruned history again with the same
/// clock and no appends in between yields the same result.
pub proof fn lemma_prune_idempotent(h: Seq<BatteryState>, now: u32)
    ensures
        spec_prune(spec_prune(h, now), now) == spec_prune(h, now),
    decreases h.len(),
{
    if h.len() == 0 {
    } else if spec_prune_match(h.last(), now) {
        let r = seq![h.last()];
        assert(r.last() == h.last());
        assert(spec_prune(r, now) == seq![r.last()]);
        assert(seq![r.last()] == r);
    } else {
        lemma_prune_idempotent(h.drop_last(), now);
        let x = spec_prune(h.drop_last(), now);
        let r = x.push(h.last());
        assert(r.drop_last() == x);
        assert(r.last() == h.last());
        assert(spec_prune(r, now) == spec_prune(x, now).push(h.last()));
    }
}

/// Picks the newest sample satisfying `p`.
proof fn lemma_last_satisfying(h: Seq<BatteryState>, p: spec_fn(BatteryState) -> bool) -> (c: int)
    requires
        exists|k: int| 0 <= k < h.len() && p(h[k]),
    ensures
        0 <= c < h.len(),
        p(h[c]),
        forall|m: int| c < m < h.len() ==> !p(h[m]),
    decreases h.len(),
{
    if p(h[h.len() - 1]) {
        h.len() - 1
    } else {
        let k = choose|k: int| 0 <= k < h.len() && p(h[k]);
        assert(h.drop_last()[k] == h[k]);
        let c = lemma_last_satisfying(h.drop_last(), p);
        assert(h.drop_last()[c] == h[c]);
        assert(forall|m: int| c < m < h.len() - 1 ==> h.drop_last()[m] == h[m]);
        c
    }
}

/// Retention invariant: with ascending timestamps, every retained sample
/// either still lies within the six-hour window or is timestamped at or
/// after the most recent full-charge checkpoint. A history whose oldest
/// samples have aged out of the window while no checkpoint exists keeps
/// its boundary sample outside the window, so such histories are left
/// out.
pub proof fn lemma_prune_retention(h: Seq<BatteryState>, now: u32)
    requires
        timestamps_ascend(h),
        (exists|k: int| 0 <= k < h.len() && spec_is_checkpoint(h[k], now)) || (forall|j: int|
            0 <= j < h.len() ==> spec_in_window(h[j], now)),
    ensures
        forall|j: int|
            0 <= j < spec_prune(h, now).len() ==> spec_in_window(spec_prune(h, now)[j], now) || (
            exists|k: int|
                {
                    &&& 0 <= k < h.len()
                    &&& spec_is_checkpoint(h[k], now)
                    &&& (forall|m: int| k < m < h.len() ==> !spec_is_checkpoint(h[m], now))
                    &&& spec_prune(h, now)[j].timestamp >= h[k].timestamp
                }),
{
    let r = spec_prune(h, now);
    if exists|k: int| 0 <= k < h.len() && spec_prune_match(h[k], now) {
        let c = lemma_last_satisfying(h, |s: BatteryState| spec_prune_match(s, now));
        lemma_prune_cut(h, now, c);
        assert(r == h.subrange(c, h.len() as int));
        assert forall|j: int| 0 <= j < r.len() implies spec_in_window(r[j], now) || (exists|k: int|
            {
                &&& 0 <= k < h.len()
                &&& spec_is_checkpoint(h[k], now)
                &&& (forall|m: int| k < m < h.len() ==> !spec_is_checkpoint(h[m], now))
                &&& r[j].timestamp >= h[k].timestamp
            }) by {
            assert(r[j] == h[c + j]);
            if j > 0 {
                assert(!spec_prune_match(h[c + j], now));
            } else if !spec_in_window(r[0], now) {
                assert(exists|k: int| 0 <= k < h.len() && spec_is_checkpoint(h[k], now));
                let k = lemma_last_satisfying(
                    h,
                    |s: BatteryState| spec_is_checkpoint(s, now),
                );
                assert(spec_prune_match(h[k], now));
                assert(k <= c);
                assert(h[k].timestamp <= h[c].timestamp);
            }
        }
    } else {
        lemma_prune_nomatch(h, now);
        assert forall|j: int| 0 <= j < r.len() implies spec_in_window(r[j], now) by {
            assert(!spec_prune_match(h[j], now));
        }
    }
}

} // verus!
