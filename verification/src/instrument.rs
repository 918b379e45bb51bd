//! Instrument and envelope types.
use vstd::prelude::*;
use arrayvec::ArrayString;
use crate::names::{fitted, name26, name26_bytes, name26_new};
use vstd::string::StringSliceAdditionalSpecFns;

verus! {

/// An instrument definition.
#[derive(Clone, Debug)]
pub struct Instrument {
    /// Instrument name
    pub name: ArrayString<26>,
    /// Sample mapping: note (0-119) -> sample index
    pub sample_map: [u8; 120],
    /// Volume envelope
    pub volume_envelope: Option<Envelope>,
    /// Panning envelope
    pub panning_envelope: Option<Envelope>,
    /// Pitch/filter envelope (IT-specific)
    pub pitch_envelope: Option<Envelope>,
    /// Fadeout speed (0 = no fade)
    pub fadeout: u16,
    /// What happens when a new note is played on a channel already playing this instrument
    pub new_note_action: NewNoteAction,
    /// Duplicate note checking mode
    pub duplicate_check: DuplicateCheck,
}

impl Default for Instrument {
    /// An unnamed instrument mapping every note to sample 0, without envelopes.
    fn default() -> (r: Self)
        ensures
            name26_bytes(r.name) == Seq::<u8>::empty(),
            forall|i: int| 0 <= i < 120 ==> r.sample_map@[i] == 0,
            r.volume_envelope.is_none(),
            r.panning_envelope.is_none(),
            r.pitch_envelope.is_none(),
            r.fadeout == 0,
            r.new_note_action == NewNoteAction::Cut,
            r.duplicate_check == DuplicateCheck::Off,
    {
        Self {
            name: name26_new(),
            sample_map: [0u8; 120],
            volume_envelope: None,
            panning_envelope: None,
            pitch_envelope: None,
            fadeout: 0,
            new_note_action: NewNoteAction::Cut,
            duplicate_check: DuplicateCheck::Off,
        }
    }
}

impl Instrument {
    /// Create a new instrument with default settings and the given name
    /// (left empty when the name does not fit in 26 bytes).
    pub fn new(name: &str) -> (r: Self)
        ensures
            name26_bytes(r.name) == fitted(name.spec_bytes(), 26),
            forall|i: int| 0 <= i < 120 ==> r.sample_map@[i] == 0,
            r.volume_envelope.is_none(),
            r.panning_envelope.is_none(),
            r.pitch_envelope.is_none(),
            r.fadeout == 0,
            r.new_note_action == NewNoteAction::Cut,
            r.duplicate_check == DuplicateCheck::Off,
    {
        let mut inst = Self::default();
        inst.name = name26(name);
        inst
    }

    /// Map every note to one sample.
    pub fn set_single_sample(&mut self, sample_index: u8)
        ensures
            forall|i: int| 0 <= i < 120 ==> final(self).sample_map@[i] == sample_index,
            final(self).name == old(self).name,
            final(self).volume_envelope == old(self).volume_envelope,
            final(self).panning_envelope == old(self).panning_envelope,
            final(self).pitch_envelope == old(self).pitch_envelope,
            final(self).fadeout == old(self).fadeout,
            final(self).new_note_action == old(self).new_note_action,
            final(self).duplicate_check == old(self).duplicate_check,
    {
        let mut i: usize = 0;
        while i < 120
            invariant
                i <= 120,
                self.sample_map@.len() == 120,
                forall|j: int| 0 <= j < i ==> self.sample_map@[j] == sample_index,
                self.name == old(self).name,
                self.volume_envelope == old(self).volume_envelope,
                self.panning_envelope == old(self).panning_envelope,
                self.pitch_envelope == old(self).pitch_envelope,
                self.fadeout == old(self).fadeout,
                self.new_note_action == old(self).new_note_action,
                self.duplicate_check == old(self).duplicate_check,
            decreases 120 - i,
        {
            self.sample_map[i] = sample_index;
            i = i + 1;
        }
    }
}

/// Action when a new note triggers on a channel already playing.
#[derive(Clone, Copy, Debug, Default, PartialEq, Eq, Structural)]
pub enum NewNoteAction {
    /// Cut the previous note immediately
    #[default]
    Cut,
    /// Continue the previous note (background)
    Continue,
    /// Send note-off to previous note
    Off,
    /// Fade out the previous note
    Fade,
}

/// Duplicate note checking mode.
#[derive(Clone, Copy, Debug, Default, PartialEq, Eq, Structural)]
pub enum DuplicateCheck {
    /// No duplicate checking
    #[default]
    Off,
    /// Check for duplicate notes
    Note,
    /// Check for duplicate samples
    Sample,
    /// Check for duplicate instruments
    Instrument,
}

/// An envelope (volume, panning, or pitch).
#[derive(Clone, Debug, Default)]
pub struct Envelope {
    /// Envelope points
    pub points: Vec<EnvelopePoint>,
    /// Sustain loop start point index (None = no sustain)
    pub sustain_start: Option<u8>,
    /// Sustain loop end point index
    pub sustain_end: Option<u8>,
    /// Regular loop start point index (None = no loop)
    pub loop_start: Option<u8>,
    /// Regular loop end point index
    pub loop_end: Option<u8>,
    /// Is the envelope enabled?
    pub enabled: bool,
}

/// A point in an envelope.
#[derive(Clone, Copy, Debug, PartialEq, Eq, Structural)]
pub struct EnvelopePoint {
    /// Tick position (0-65535)
    pub tick: u16,
    /// Value (-64 to +64, or 0-64 for volume)
    pub value: i8,
}

/// Integer division truncating toward zero (the semantics of Rust's `/`).
pub open spec fn trunc_div(a: int, b: int) -> int {
    if a >= 0 { a / b } else { -((-a) / b) }
}

/// Linear interpolation between two envelope points at `tick`, truncated
/// toward zero as integer arithmetic does.
pub open spec fn interpolate_points(a: EnvelopePoint, b: EnvelopePoint, tick: int) -> int {
    a.value + trunc_div((b.value - a.value) * (tick - a.tick), b.tick - a.tick)
}

/// Scan the points from index `i`, `prev` being the last point seen whose
/// tick is not after `tick`: the first point after `tick` ends the scan.
pub open spec fn envelope_scan(points: Seq<EnvelopePoint>, tick: int, i: int, prev: int) -> int
    decreases points.len() - i,
{
    if i < 0 || i >= points.len() {
        points[prev].value as int
    } else if points[i].tick > tick {
        if points[i].tick == points[prev].tick {
            points[i].value as int
        } else {
            interpolate_points(points[prev], points[i], tick)
        }
    } else {
        envelope_scan(points, tick, i + 1, i)
    }
}

/// The envelope's value at `tick`: 0 without points, otherwise the linear
/// interpolation between the surrounding points, holding the last value past
/// the end.
pub open spec fn envelope_value(points: Seq<EnvelopePoint>, tick: int) -> int {
    if points.len() == 0 { 0 } else { envelope_scan(points, tick, 0, 0) }
}

impl Envelope {
    /// Create a new empty envelope.
    pub fn new() -> (r: Self)
        ensures
            r.points@.len() == 0,
            r.sustain_start.is_none(),
            r.sustain_end.is_none(),
            r.loop_start.is_none(),
            r.loop_end.is_none(),
            !r.enabled,
    {
        Self {
            points: Vec::new(),
            sustain_start: None,
            sustain_end: None,
            loop_start: None,
            loop_end: None,
            enabled: false,
        }
    }

    /// Add a point to the envelope.
    pub fn add_point(&mut self, tick: u16, value: i8)
        ensures
            final(self).points@ == old(self).points@.push(EnvelopePoint { tick, value }),
            final(self).sustain_start == old(self).sustain_start,
            final(self).sustain_end == old(self).sustain_end,
            final(self).loop_start == old(self).loop_start,
            final(self).loop_end == old(self).loop_end,
            final(self).enabled == old(self).enabled,
    {
        self.points.push(EnvelopePoint { tick, value });
    }

    /// Get the interpolated value at a given tick.
    pub fn value_at(&self, tick: u16) -> (r: i8)
        ensures
            r as int == envelope_value(self.points@, tick as int),
    {
        if self.points.len() == 0 {
            return 0;
        }
        let mut prev: usize = 0;
        let mut i: usize = 0;
        while i < self.points.len()
            invariant
                0 < self.points@.len(),
                prev < self.points@.len(),
                i <= self.points@.len(),
                i == 0 ==> prev == 0,
                i > 0 ==> prev == i - 1,
                self.points@[prev as int].tick <= tick || i == 0,
                envelope_value(self.points@, tick as int) == envelope_scan(self.points@, tick as int, i as int, prev as int),
            decreases self.points@.len() - i,
        {
            let point = self.points[i];
            let p = self.points[prev];
            if point.tick > tick {
                if point.tick == p.tick {
                    return point.value;
                }
                assert(p.tick <= tick);
                let t = (tick - p.tick) as i32;
                let d = (point.tick - p.tick) as i32;
                let diff = point.value as i32 - p.value as i32;
                assert(-255 * 65535 <= diff * t <= 255 * 65535) by (nonlinear_arith)
                    requires -255 <= diff <= 255, 0 <= t <= 65535;
                let q = (diff * t) / d;
                assert(t < d);
                proof {
                    if diff >= 0 {
                        assert(diff * t >= 0) by (nonlinear_arith) requires diff >= 0, t >= 0;
                        assert(0 <= (diff * t) / (d as int) <= diff) by (nonlinear_arith)
                            requires diff >= 0, 0 <= t < d, d > 0;
                    } else {
                        assert(diff * t <= 0) by (nonlinear_arith) requires diff < 0, t >= 0;
                        assert(0 <= (-(diff * t)) / (d as int) <= -diff) by (nonlinear_arith)
                            requires diff < 0, 0 <= t < d, d > 0;
                    }
                }
                let v = p.value as i32 + q;
                return v as i8;
            }
            prev = i;
            i = i + 1;
        }
        self.points[prev].value
    }
}

} // verus!
