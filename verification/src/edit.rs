//! Edit commands for mutating song data during playback.
use vstd::prelude::*;
use crate::pattern::Cell;
use crate::song::SeqTermination;

verus! {

/// Data for placing a sequence entry.
#[derive(Clone, Copy, Debug, PartialEq, Eq, Structural)]
pub struct SeqEntryData {
    /// Clip the entry plays
    pub clip_idx: u16,
    /// Rows of the clip that play
    pub length: u16,
    /// How the entry ends
    pub termination: SeqTermination,
}

/// An edit command that mutates song data.
#[derive(Clone, Copy, Debug, PartialEq, Eq, Structural)]
pub enum Edit {
    /// Set a single cell in a track's clip.
    SetCell { track: u16, clip: u16, row: u16, column: u8, cell: Cell },
    /// Bypass (mute) or unbypass a graph node.
    SetNodeBypass { node: u16, bypassed: bool },
    /// Set or remove a sequence entry at a given beat.
    SetSeqEntry { track: u16, beat: u32, entry: Option<SeqEntryData> },
}

} // verus!
