//! Time representation with sub-tick precision.
use vstd::prelude::*;

verus! {

/// Time position in the song.
///
/// Uses ticks as the base unit but supports sub-tick offsets for
/// MIDI precision, swing, and humanization.
#[derive(Clone, Copy, Debug, Default, PartialEq, Eq, Structural, PartialOrd, Ord, Hash)]
pub struct Timestamp {
    /// Absolute tick from song start
    pub tick: u64,
    /// 0-65535 subdivision within the tick (for MIDI/swing/humanize)
    pub subtick: u16,
}

/// Sample position of a timestamp at `samples_per_tick`: whole ticks, plus
/// the sub-tick fraction of a tick rounded down.
pub open spec fn to_samples_spec(t: Timestamp, samples_per_tick: int) -> int {
    t.tick * samples_per_tick + (t.subtick * samples_per_tick) / 65536
}

impl Timestamp {
    /// Create a timestamp at an exact tick boundary.
    pub fn from_ticks(tick: u64) -> (r: Self)
        ensures
            r == (Timestamp { tick, subtick: 0 }),
    {
        Self { tick, subtick: 0 }
    }

    /// Add ticks to this timestamp.
    pub fn add_ticks(self, ticks: u64) -> (r: Self)
        requires
            self.tick + ticks <= u64::MAX,
        ensures
            r == (Timestamp { tick: (self.tick + ticks) as u64, subtick: self.subtick }),
    {
        Self { tick: self.tick + ticks, subtick: self.subtick }
    }

    /// Convert to a sample position given samples per tick.
    pub fn to_samples(self, samples_per_tick: u32) -> (r: u64)
        requires
            to_samples_spec(self, samples_per_tick as int) <= u64::MAX,
        ensures
            r == to_samples_spec(self, samples_per_tick as int),
    {
        let spt = samples_per_tick as u64;
        proof {
            assert(0 <= self.tick * spt <= self.tick * spt + (self.subtick * spt) / 65536) by (nonlinear_arith)
                requires self.tick >= 0, spt >= 0, self.subtick >= 0;
            assert(self.subtick * spt <= 65535 * 0xffff_ffff) by (nonlinear_arith)
                requires self.subtick <= 65535, spt <= 0xffff_ffff;
        }
        let base = self.tick * spt;
        let prod = self.subtick as u64 * spt;
        assert(prod >> 16u64 == prod / 65536) by (bit_vector);
        let frac = prod >> 16;
        base + frac
    }
}

} // verus!
