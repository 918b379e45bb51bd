//! Event types for the event-driven playback engine.
use vstd::prelude::*;
use crate::effects::Effect;
use crate::musical_time::MusicalTime;

verus! {

/// Node identifier in the audio graph.
pub type NodeId = u16;

/// A scheduled event in the song.
#[derive(Clone, Copy, Debug, PartialEq, Eq, Structural)]
pub struct Event {
    /// When the event should fire
    pub time: MusicalTime,
    /// Where the event is routed
    pub target: EventTarget,
    /// What the event does
    pub payload: EventPayload,
}

impl Event {
    /// Create a new event.
    pub fn new(time: MusicalTime, target: EventTarget, payload: EventPayload) -> (r: Self)
        ensures
            r == (Event { time, target, payload }),
    {
        Self { time, target, payload }
    }
}

/// Where an event is routed.
#[derive(Clone, Copy, Debug, PartialEq, Eq, Structural)]
pub enum EventTarget {
    /// Traditional tracker channel (0-255)
    Channel(u8),
    /// Audio graph node (for Buzz machines, synths, effects)
    Node(NodeId),
    /// One channel of a multi-channel machine node
    NodeChannel(NodeId, u8),
    /// Global events (tempo, transport)
    Global,
}

/// What an event does.
#[derive(Clone, Copy, Debug, PartialEq, Eq, Structural)]
pub enum EventPayload {
    /// Trigger a note
    NoteOn { note: u8, velocity: u8, instrument: u8 },
    /// Release a note
    NoteOff { note: u8 },
    /// Set portamento target (tone porta + note: don't trigger, just set target)
    PortaTarget { note: u8, instrument: u8 },
    /// Instantly set a parameter value
    ParamChange { param: u16, value: i32 },
    /// Ramp a parameter to a target value over `duration` ticks
    ParamRamp { param: u16, target: i32, duration: u32 },
    /// Set tempo (BPM * 100, e.g. 12500 = 125.00 BPM)
    SetTempo(u16),
    /// Set speed (ticks per row)
    SetSpeed(u8),
    /// A tracker effect command
    Effect(Effect),
}

impl EventPayload {
    /// Create a note-on event with the default velocity 64.
    pub fn note_on(note: u8, instrument: u8) -> (r: Self)
        ensures
            r == (EventPayload::NoteOn { note, velocity: 64, instrument }),
    {
        EventPayload::NoteOn { note, velocity: 64, instrument }
    }
}

} // verus!
