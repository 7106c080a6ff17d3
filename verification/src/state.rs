//! The sample type and the few facts about charge levels that the engine
//! decides on.
//!
//! A charge level travels through the engine as the bit pattern of an
//! IEEE-754 single-precision percentage. The codec moves the pattern
//! byte-for-byte, and the two decisions taken on levels — "is this a full
//! charge" and "did the level change at all" — are stated exactly over the
//! pattern, so that they agree with the single-precision comparison a
//! consumer would make after turning the bits back into a number.
use vstd::prelude::*;

verus! {

/// Bit pattern of the single-precision value 100.0.
pub const FULL_LEVEL_BITS: u32 = 0x42C8_0000;

/// Bit pattern of single-precision positive infinity: the largest
/// non-negative pattern that is not a NaN.
pub const INFINITY_BITS: u32 = 0x7F80_0000;

/// One telemetry observation. All three fields are mandatory: a partial
/// sample cannot be built.
#[derive(Clone, Copy, PartialEq, Eq, Structural, Debug)]
pub struct BatteryState {
    /// Seconds of wall-clock time.
    pub timestamp: u32,
    /// The charge percentage, as the bit pattern of an IEEE-754
    /// single-precision number.
    pub level_bits: u32,
    /// Whether the battery was charging when the sample was taken.
    pub charging: bool,
}

impl BatteryState {
    /// Builds a sample from its three mandatory fields.
    pub fn new(timestamp: u32, level_bits: u32, charging: bool) -> (s: BatteryState)
        ensures
            s == (BatteryState { timestamp, level_bits, charging }),
    {
        BatteryState { timestamp, level_bits, charging }
    }

    /// The sample's wall-clock second.
    pub fn get_timestamp(&self) -> (t: u32)
        ensures
            t == self.timestamp,
    {
        self.timestamp
    }

    /// Replaces the sample's wall-clock second.
    pub fn set_timestamp(&mut self, v: u32)
        ensures
            *final(self) == (BatteryState { timestamp: v, ..*old(self) }),
    {
        self.timestamp = v;
    }

    /// The bit pattern of the sample's charge percentage.
    pub fn get_level_bits(&self) -> (b: u32)
        ensures
            b == self.level_bits,
    {
        self.level_bits
    }

    /// Replaces the bit pattern of the sample's charge percentage.
    pub fn set_level_bits(&mut self, v: u32)
        ensures
            *final(self) == (BatteryState { level_bits: v, ..*old(self) }),
    {
        self.level_bits = v;
    }

    /// Whether the battery was charging when the sample was taken.
    pub fn get_charging(&self) -> (c: bool)
        ensures
            c == self.charging,
    {
        self.charging
    }

    /// Replaces the sample's charging flag.
    pub fn set_charging(&mut self, v: bool)
        ensures
            *final(self) == (BatteryState { charging: v, ..*old(self) }),
    {
        self.charging = v;
    }
}

/// A decoded history: the ordered sequence of samples, ascending by
/// timestamp.
#[derive(Clone, Debug, PartialEq)]
pub struct BatteryGraph {
    pub states: Vec<BatteryState>,
}

impl BatteryGraph {
    /// An empty history.
    pub fn new() -> (g: BatteryGraph)
        ensures
            g.states@.len() == 0,
    {
        BatteryGraph { states: Vec::new() }
    }

    /// Drops every sample.
    pub fn clear_states(&mut self)
        ensures
            final(self).states@.len() == 0,
    {
        self.states = Vec::new();
    }

    /// Replaces the whole sequence of samples.
    pub fn set_states(&mut self, v: Vec<BatteryState>)
        ensures
            final(self).states@ == v@,
    {
        self.states = v;
    }

    /// Moves the samples out, leaving the history empty.
    pub fn take_states(&mut self) -> (v: Vec<BatteryState>)
        ensures
            v@ == old(self).states@,
            final(self).states@.len() == 0,
    {
        let mut out: Vec<BatteryState> = Vec::new();
        core::mem::swap(&mut out, &mut self.states);
        out
    }

    /// The samples, in order.
    pub fn get_states(&self) -> (v: &Vec<BatteryState>)
        ensures
            v@ == self.states@,
    {
        &self.states
    }
}

/// Maps a battery source's trimmed status line to the charging flag of a
/// sample: a battery reported as charging or full counts as charging,
/// anything else as discharging.
pub fn charging_from_status(status: &str) -> (r: bool)
    ensures
        r == (status@ == "Charging"@ || status@ == "Full"@),
{
    let owned: String = status.to_owned();
    owned == "Charging".to_owned() || owned == "Full".to_owned()
}

/// A history is well-formed when its timestamps never decrease: insertion
/// order is time order. Equal neighbouring timestamps are allowed.
pub open spec fn timestamps_ascend(h: Seq<BatteryState>) -> bool {
    forall|i: int, j: int|
        0 <= i <= j < h.len() ==> h[i].timestamp <= h[j].timestamp
}

/// Whether the level reads as at least 100.0 under single-precision
/// comparison: the sign bit clear and the magnitude between the pattern of
/// 100.0 and the pattern of positive infinity. Larger non-negative patterns
/// are NaN and compare false; patterns with the sign bit set are negative
/// (or a negative NaN) and compare false.
pub open spec fn spec_level_is_full(bits: u32) -> bool {
    FULL_LEVEL_BITS <= bits <= INFINITY_BITS
}

/// Decides `spec_level_is_full` on a level's bit pattern.
pub fn level_is_full(bits: u32) -> (r: bool)
    ensures
        r == spec_level_is_full(bits),
{
    FULL_LEVEL_BITS <= bits && bits <= INFINITY_BITS
}

/// Whether the pattern is a finite number: the exponent field is not all
/// ones (which would make it an infinity or a NaN).
pub open spec fn spec_level_is_finite(bits: u32) -> bool {
    bits & INFINITY_BITS != INFINITY_BITS
}

/// Whether the pattern is one of the two single-precision zeros.
pub open spec fn spec_level_is_zero(bits: u32) -> bool {
    bits & 0x7FFF_FFFF == 0
}

/// Whether the single-precision subtraction of the two levels is exactly
/// zero. For finite numbers the difference rounds to zero only when the
/// values are equal, that is when the patterns coincide or are the two
/// zeros; a NaN or infinite operand never yields a zero difference.
pub open spec fn spec_levels_equal(a: u32, b: u32) -> bool {
    &&& spec_level_is_finite(a)
    &&& spec_level_is_finite(b)
    &&& (a == b || (spec_level_is_zero(a) && spec_level_is_zero(b)))
}

/// Decides `spec_levels_equal` on two level bit patterns.
pub fn levels_equal(a: u32, b: u32) -> (r: bool)
    ensures
        r == spec_levels_equal(a, b),
{
    let a_finite = a & INFINITY_BITS != INFINITY_BITS;
    let b_finite = b & INFINITY_BITS != INFINITY_BITS;
    a_finite && b_finite && (a == b || (a & 0x7FFF_FFFF == 0 && b & 0x7FFF_FFFF == 0))
}

} // verus!
