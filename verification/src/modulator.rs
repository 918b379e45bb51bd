//! Modulator types: routing envelopes to parameter targets.
use vstd::prelude::*;
use crate::event::NodeId;
use crate::musical_time::SUB_BEAT_UNIT;

verus! {

/// Which channel parameter a modulator targets.
#[derive(Clone, Copy, Debug, PartialEq, Eq, Structural)]
pub enum ChannelParam {
    Volume,
    Period,
    Pan,
    SamplePosition,
}

/// Which global parameter a modulator targets.
#[derive(Clone, Copy, Debug, PartialEq, Eq, Structural)]
pub enum GlobalParam {
    Tempo,
    Speed,
}

/// What parameter a modulator targets.
#[derive(Clone, Copy, Debug, PartialEq, Eq, Structural)]
pub enum ModTarget {
    Channel { channel: u8, param: ChannelParam },
    Node { node: NodeId, param: u16 },
    Global(GlobalParam),
}

/// How the modulator output combines with the base value.
#[derive(Clone, Copy, Debug, PartialEq, Eq, Structural)]
pub enum ModMode {
    /// output = base + modulator
    Add,
    /// output = base * modulator
    Multiply,
    /// output = modulator
    Replace,
    /// Each loop point fires a discrete action
    Trigger,
}

/// Loop range within a modulation envelope.
#[derive(Clone, Copy, Debug, PartialEq, Eq, Structural)]
pub struct LoopRange {
    /// Point index to loop back to.
    pub start: u16,
    /// Point index that triggers the loop.
    pub end: u16,
}

/// Sub-beats in one tick at `speed` ticks per row and `rows_per_beat` rows
/// per beat; a whole beat when either is zero.
pub open spec fn sub_beats_per_tick_spec(speed: int, rows_per_beat: int) -> int {
    if speed * rows_per_beat == 0 {
        SUB_BEAT_UNIT as int
    } else {
        (SUB_BEAT_UNIT as int) / (speed * rows_per_beat)
    }
}

/// Compute sub-beats per tick from current speed and rows_per_beat.
pub fn sub_beats_per_tick(speed: u8, rows_per_beat: u8) -> (r: u32)
    ensures
        r == sub_beats_per_tick_spec(speed as int, rows_per_beat as int),
{
    assert(speed as u32 * rows_per_beat as u32 <= 255 * 255) by (nonlinear_arith)
        requires speed <= 255, rows_per_beat <= 255;
    let tpb = speed as u32 * rows_per_beat as u32;
    if tpb == 0 {
        return SUB_BEAT_UNIT;
    }
    SUB_BEAT_UNIT / tpb
}

} // verus!
