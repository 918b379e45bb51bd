//! Beat-based time positions.
//!
//! `MusicalTime` uses beats as the universal time coordinate, so trackers,
//! MIDI and DAW-style sequencers share one format-agnostic position type.
use vstd::prelude::*;

verus! {

/// Subdivisions per beat. LCM(1..16) = 720720, so any rows-per-beat value
/// from 1 to 16 divides a beat into a whole number of sub-beats.
pub const SUB_BEAT_UNIT: u32 = 720_720;

/// A position in musical time: whole beats plus a sub-beat fraction.
///
/// Ordering: `beat` first, then `sub_beat`.
#[derive(Clone, Copy, Debug, Default, PartialEq, Eq, Structural, Ord, Hash)]
pub struct MusicalTime {
    /// Whole beats from song start.
    pub beat: u64,
    /// Fraction of a beat, `0..SUB_BEAT_UNIT` for a normalised time.
    pub sub_beat: u32,
}

/// The time reached by moving `delta` sub-beats forward from `t`,
/// carrying whole beats out of the fraction.
pub open spec fn add_sub_beats(t: MusicalTime, delta: int) -> MusicalTime {
    MusicalTime {
        beat: (t.beat + (t.sub_beat + delta) / (SUB_BEAT_UNIT as int)) as u64,
        sub_beat: ((t.sub_beat + delta) % (SUB_BEAT_UNIT as int)) as u32,
    }
}

/// Sub-beats in one row at `rows_per_beat` resolution.
pub open spec fn sub_per_row(rows_per_beat: int) -> int {
    (SUB_BEAT_UNIT as int) / rows_per_beat
}

/// `t` moved forward by `rows` rows at `rows_per_beat` resolution.
pub open spec fn add_rows_spec(t: MusicalTime, rows: int, rows_per_beat: int) -> MusicalTime {
    add_sub_beats(t, rows * sub_per_row(rows_per_beat))
}

/// `t` moved forward by `ticks` ticks at `ticks_per_beat` resolution;
/// unchanged when `ticks_per_beat` is zero.
pub open spec fn add_ticks_spec(t: MusicalTime, ticks: int, ticks_per_beat: int) -> MusicalTime {
    if ticks_per_beat == 0 {
        t
    } else {
        add_sub_beats(t, ticks * ((SUB_BEAT_UNIT as int) / ticks_per_beat))
    }
}

/// Moving forward by `delta` sub-beats cannot overflow the beat counter.
pub open spec fn can_add_sub_beats(t: MusicalTime, delta: int) -> bool {
    t.beat + (t.sub_beat + delta) / (SUB_BEAT_UNIT as int) <= u64::MAX
}

impl MusicalTime {
    /// A time is normalised when its fraction is below one beat.
    pub open spec fn wf(self) -> bool {
        self.sub_beat < SUB_BEAT_UNIT
    }

    /// The position counted in sub-beats from song start.
    pub open spec fn total(self) -> int {
        self.beat * (SUB_BEAT_UNIT as int) + self.sub_beat
    }

    /// Strict order: by beat, then by sub-beat.
    pub open spec fn lt_spec(self, other: Self) -> bool {
        self.beat < other.beat || (self.beat == other.beat && self.sub_beat < other.sub_beat)
    }

    /// Non-strict order.
    pub open spec fn le_spec(self, other: Self) -> bool {
        self.lt_spec(other) || self == other
    }

    /// The zero position (song start).
    pub fn zero() -> (r: Self)
        ensures
            r.beat == 0 && r.sub_beat == 0,
    {
        Self { beat: 0, sub_beat: 0 }
    }

    /// A time at an exact beat boundary.
    pub fn from_beats(beat: u64) -> (r: Self)
        ensures
            r.beat == beat && r.sub_beat == 0,
    {
        Self { beat, sub_beat: 0 }
    }

    /// Advance by `rows` rows at `rows_per_beat` resolution.
    pub fn add_rows(self, rows: u32, rows_per_beat: u32) -> (r: Self)
        requires
            rows_per_beat > 0,
            can_add_sub_beats(self, rows * sub_per_row(rows_per_beat as int)),
        ensures
            r == add_rows_spec(self, rows as int, rows_per_beat as int),
    {
        let sub_per_row = SUB_BEAT_UNIT / rows_per_beat;
        assert(rows as u64 * sub_per_row as u64 <= 0xffff_ffffu64 * 720720u64) by (nonlinear_arith)
            requires sub_per_row <= 720720;
        let total_sub = self.sub_beat as u64 + rows as u64 * sub_per_row as u64;
        let extra_beats = total_sub / SUB_BEAT_UNIT as u64;
        let remaining = (total_sub % SUB_BEAT_UNIT as u64) as u32;
        Self { beat: self.beat + extra_beats, sub_beat: remaining }
    }

    /// Advance by `ticks` ticks at `ticks_per_beat` resolution (used for
    /// note-delay offsets). Zero ticks per beat leaves the time unchanged.
    pub fn add_ticks(self, ticks: u32, ticks_per_beat: u32) -> (r: Self)
        requires
            ticks_per_beat > 0 ==> can_add_sub_beats(
                self,
                ticks * ((SUB_BEAT_UNIT as int) / (ticks_per_beat as int)),
            ),
        ensures
            r == add_ticks_spec(self, ticks as int, ticks_per_beat as int),
    {
        if ticks_per_beat == 0 {
            return self;
        }
        let sub_per_tick = SUB_BEAT_UNIT / ticks_per_beat;
        assert(ticks as u64 * sub_per_tick as u64 <= 0xffff_ffffu64 * 720720u64) by (nonlinear_arith)
            requires sub_per_tick <= 720720;
        let total_sub = self.sub_beat as u64 + ticks as u64 * sub_per_tick as u64;
        let extra_beats = total_sub / SUB_BEAT_UNIT as u64;
        let remaining = (total_sub % SUB_BEAT_UNIT as u64) as u32;
        Self { beat: self.beat + extra_beats, sub_beat: remaining }
    }
}

/// Packed form of a time: the low 32 bits of `beat` above `sub_beat`.
pub open spec fn pack_spec(t: MusicalTime) -> u64 {
    ((t.beat % 0x1_0000_0000) * 0x1_0000_0000 + t.sub_beat) as u64
}

/// Pack a time into a `u64`: `(beat as u32) << 32 | sub_beat`.
pub fn pack_time(t: MusicalTime) -> (r: u64)
    ensures
        r == pack_spec(t),
{
    let beat = t.beat;
    let b = beat as u32 as u64;
    let s = t.sub_beat as u64;
    assert((b << 32u64) | s == b * 0x1_0000_0000u64 + s) by (bit_vector)
        requires b < 0x1_0000_0000u64, s < 0x1_0000_0000u64;
    assert(b == beat % 0x1_0000_0000) by (bit_vector)
        requires b == beat as u32 as u64;
    (b << 32) | s
}

/// Unpack a `u64` produced by [`pack_time`].
pub fn unpack_time(packed: u64) -> (r: MusicalTime)
    ensures
        r.beat == packed / 0x1_0000_0000,
        r.sub_beat == packed % 0x1_0000_0000,
{
    assert(packed >> 32u64 == packed / 0x1_0000_0000u64) by (bit_vector);
    assert(packed as u32 as u64 == packed % 0x1_0000_0000u64) by (bit_vector);
    MusicalTime { beat: (packed >> 32) as u64, sub_beat: packed as u32 }
}

/// Unpacking a packed time gives the time back whenever its beat fits in 32 bits.
pub proof fn lemma_unpack_pack(t: MusicalTime)
    requires
        t.beat < 0x1_0000_0000,
    ensures
        pack_spec(t) / 0x1_0000_0000 == t.beat,
        pack_spec(t) % 0x1_0000_0000 == t.sub_beat,
{
    let p = t.beat * 0x1_0000_0000 + t.sub_beat;
    assert(p / 0x1_0000_0000 == t.beat && p % 0x1_0000_0000 == t.sub_beat) by (nonlinear_arith)
        requires p == t.beat * 0x1_0000_0000 + t.sub_beat, 0 <= t.sub_beat < 0x1_0000_0000;
}

/// Packing an unpacked value gives the value back.
pub proof fn lemma_pack_unpack(packed: u64)
    ensures
        pack_spec(MusicalTime { beat: (packed / 0x1_0000_0000) as u64, sub_beat: (packed % 0x1_0000_0000) as u32 }) == packed,
{
    let b = packed / 0x1_0000_0000;
    assert(b < 0x1_0000_0000);
    assert(b % 0x1_0000_0000 == b);
}

/// Moving forward by a whole number of sub-beats moves the position by exactly
/// that amount, and keeps the result normalised.
pub proof fn lemma_add_sub_beats_total(t: MusicalTime, delta: int)
    requires
        delta >= 0,
        can_add_sub_beats(t, delta),
    ensures
        add_sub_beats(t, delta).total() == t.total() + delta,
        add_sub_beats(t, delta).wf(),
{
    let u = SUB_BEAT_UNIT as int;
    let s = t.sub_beat + delta;
    assert(s == u * (s / u) + s % u) by (nonlinear_arith) requires u > 0;
    assert(0 <= s % u < u) by (nonlinear_arith) requires u > 0;
    assert((t.beat + s / u) * u + s % u == t.beat * u + s) by (nonlinear_arith)
        requires s == u * (s / u) + s % u;
}

/// Advancing by rows never moves a time backwards, and lands on the exact
/// position `rows * (SUB_BEAT_UNIT / rows_per_beat)` sub-beats later.
pub proof fn lemma_add_rows_advances(t: MusicalTime, rows: nat, rows_per_beat: int)
    requires
        rows_per_beat > 0,
        can_add_sub_beats(t, rows * sub_per_row(rows_per_beat)),
    ensures
        add_rows_spec(t, rows as int, rows_per_beat).total() == t.total() + rows * sub_per_row(rows_per_beat),
        add_rows_spec(t, rows as int, rows_per_beat).wf(),
{
    assert(rows * sub_per_row(rows_per_beat) >= 0) by (nonlinear_arith)
        requires rows >= 0, sub_per_row(rows_per_beat) >= 0;
    lemma_add_sub_beats_total(t, rows * sub_per_row(rows_per_beat));
}

} // verus!
