//! Sample data types.
use vstd::prelude::*;
use arrayvec::ArrayString;
use crate::names::{fitted, name26, name26_bytes, name26_new};
use vstd::string::StringSliceAdditionalSpecFns;

verus! {

/// A sample definition.
#[derive(Clone, Debug)]
pub struct Sample {
    /// Sample name
    pub name: ArrayString<26>,
    /// Audio data
    pub data: SampleData,
    /// Loop start position (in samples)
    pub loop_start: u32,
    /// Loop end position (in samples)
    pub loop_end: u32,
    /// Loop type
    pub loop_type: LoopType,
    /// Default volume (0-64)
    pub default_volume: u8,
    /// Default panning (-64 to +64, 0 = center)
    pub default_pan: i8,
    /// Frequency of C-4 in Hz (typically 8363 for MOD)
    pub c4_speed: u32,
    /// Auto-vibrato settings
    pub vibrato: Option<AutoVibrato>,
}

impl Default for Sample {
    /// An unnamed, empty 8-bit mono sample at volume 64, C-4 = 8363 Hz, no loop.
    fn default() -> (r: Self)
        ensures
            name26_bytes(r.name) == Seq::<u8>::empty(),
            r.data.len_spec() == 0,
            r.data matches SampleData::Mono8(_),
            r.loop_start == 0,
            r.loop_end == 0,
            r.loop_type == LoopType::NoLoop,
            r.default_volume == 64,
            r.default_pan == 0,
            r.c4_speed == 8363,
            r.vibrato.is_none(),
    {
        Self {
            name: name26_new(),
            data: SampleData::Mono8(Vec::new()),
            loop_start: 0,
            loop_end: 0,
            loop_type: LoopType::NoLoop,
            default_volume: 64,
            default_pan: 0,
            c4_speed: 8363,
            vibrato: None,
        }
    }
}

impl Sample {
    /// Create a new empty sample with the given name (left empty when the name
    /// does not fit in 26 bytes).
    pub fn new(name: &str) -> (r: Self)
        ensures
            name26_bytes(r.name) == fitted(name.spec_bytes(), 26),
            r.data.len_spec() == 0,
            r.data matches SampleData::Mono8(_),
            r.loop_start == 0,
            r.loop_end == 0,
            r.loop_type == LoopType::NoLoop,
            r.default_volume == 64,
            r.default_pan == 0,
            r.c4_speed == 8363,
            r.vibrato.is_none(),
    {
        let mut sample = Self::default();
        sample.name = name26(name);
        sample
    }

    /// Length of the sample in frames.
    pub fn len(&self) -> (r: usize)
        ensures
            r == self.data.len_spec(),
    {
        self.data.len()
    }

    /// Returns true if the sample has no data.
    pub fn is_empty(&self) -> (r: bool)
        ensures
            r == (self.data.len_spec() == 0),
    {
        self.data.is_empty()
    }

    /// The sample loops: it has a loop type and a non-empty loop range.
    pub open spec fn has_loop_spec(&self) -> bool {
        self.loop_type != LoopType::NoLoop && self.loop_end > self.loop_start
    }

    /// Returns true if the sample has a loop.
    pub fn has_loop(&self) -> (r: bool)
        ensures
            r == self.has_loop_spec(),
    {
        let looped = match self.loop_type {
            LoopType::NoLoop => false,
            _ => true,
        };
        looped && self.loop_end > self.loop_start
    }
}

/// Sample audio data.
#[derive(Clone, Debug)]
pub enum SampleData {
    /// 8-bit mono samples
    Mono8(Vec<i8>),
    /// 16-bit mono samples
    Mono16(Vec<i16>),
    /// 8-bit stereo samples (left, right)
    Stereo8(Vec<i8>, Vec<i8>),
    /// 16-bit stereo samples (left, right)
    Stereo16(Vec<i16>, Vec<i16>),
}

/// An 8-bit value at index `pos` scaled to 16 bits, or 0 past the end.
pub open spec fn at8(v: Seq<i8>, pos: int) -> int {
    if 0 <= pos < v.len() { v[pos] * 256 } else { 0 }
}

/// A 16-bit value at index `pos`, or 0 past the end.
pub open spec fn at16(v: Seq<i16>, pos: int) -> int {
    if 0 <= pos < v.len() { v[pos] as int } else { 0 }
}

fn get8(v: &Vec<i8>, pos: usize) -> (r: i16)
    ensures
        r as int == at8(v@, pos as int),
{
    if pos < v.len() {
        v[pos] as i16 * 256
    } else {
        0
    }
}

fn get16(v: &Vec<i16>, pos: usize) -> (r: i16)
    ensures
        r as int == at16(v@, pos as int),
{
    if pos < v.len() {
        v[pos]
    } else {
        0
    }
}

impl SampleData {
    /// Number of sample frames (the left channel's length for stereo).
    pub open spec fn len_spec(&self) -> nat {
        match self {
            SampleData::Mono8(v) => v@.len(),
            SampleData::Mono16(v) => v@.len(),
            SampleData::Stereo8(l, _) => l@.len(),
            SampleData::Stereo16(l, _) => l@.len(),
        }
    }

    /// The left (or only) channel at `pos` as a 16-bit value, 0 past the end.
    pub open spec fn mono_at(&self, pos: int) -> int {
        match self {
            SampleData::Mono8(v) => at8(v@, pos),
            SampleData::Mono16(v) => at16(v@, pos),
            SampleData::Stereo8(l, _) => at8(l@, pos),
            SampleData::Stereo16(l, _) => at16(l@, pos),
        }
    }

    /// The right channel at `pos` (the only channel for mono), 0 past the end.
    pub open spec fn right_at(&self, pos: int) -> int {
        match self {
            SampleData::Mono8(v) => at8(v@, pos),
            SampleData::Mono16(v) => at16(v@, pos),
            SampleData::Stereo8(_, r) => at8(r@, pos),
            SampleData::Stereo16(_, r) => at16(r@, pos),
        }
    }

    /// Linear interpolation at the 16.16 fixed-point position `pos_fixed`
    /// between the value at its integer part and the next one.
    pub open spec fn interpolated_at(&self, pos_fixed: int) -> int {
        let idx = pos_fixed / 65536;
        let frac = pos_fixed % 65536;
        let a = self.mono_at(idx);
        let b = self.mono_at(idx + 1);
        a + ((b - a) * frac) / 65536
    }

    /// Number of sample frames.
    pub fn len(&self) -> (r: usize)
        ensures
            r == self.len_spec(),
    {
        match self {
            SampleData::Mono8(v) => v.len(),
            SampleData::Mono16(v) => v.len(),
            SampleData::Stereo8(l, _) => l.len(),
            SampleData::Stereo16(l, _) => l.len(),
        }
    }

    /// Returns true if empty.
    pub fn is_empty(&self) -> (r: bool)
        ensures
            r == (self.len_spec() == 0),
    {
        self.len() == 0
    }

    /// A mono sample value at `pos` as `i16` (the left channel for stereo).
    pub fn get_mono(&self, pos: usize) -> (r: i16)
        ensures
            r as int == self.mono_at(pos as int),
    {
        match self {
            SampleData::Mono8(v) => get8(v, pos),
            SampleData::Mono16(v) => get16(v, pos),
            SampleData::Stereo8(l, _) => get8(l, pos),
            SampleData::Stereo16(l, _) => get16(l, pos),
        }
    }

    /// Linearly interpolated mono value at a 16.16 fixed-point position.
    pub fn get_mono_interpolated(&self, pos_fixed: u32) -> (r: i16)
        ensures
            r as int == self.interpolated_at(pos_fixed as int),
    {
        let idx = (pos_fixed >> 16) as usize;
        let frac = (pos_fixed & 0xFFFF) as i64;
        proof {
            assert(pos_fixed >> 16u32 == pos_fixed / 65536) by (bit_vector);
            assert(pos_fixed & 0xFFFFu32 == pos_fixed % 65536) by (bit_vector);
        }
        let a = self.get_mono(idx) as i64;
        let b = self.get_mono(idx + 1) as i64;
        let diff = b - a;
        assert(-65535 * 65535 <= diff * frac <= 65535 * 65535) by (nonlinear_arith)
            requires -65535 <= diff <= 65535, 0 <= frac <= 65535;
        let prod = diff * frac;
        let step = prod >> 16;
        proof {
            assert(prod >> 16i64 == prod / 65536) by (bit_vector)
                requires -65535 * 65535 <= prod <= 65535 * 65535;
            if diff >= 0 {
                assert(0 <= prod / 65536 <= diff) by (nonlinear_arith)
                    requires prod == diff * frac, diff >= 0, 0 <= frac < 65536;
            } else {
                assert(diff <= prod / 65536 <= 0) by (nonlinear_arith)
                    requires prod == diff * frac, diff < 0, 0 <= frac < 65536;
            }
        }
        (a + step) as i16
    }

    /// Number of channels in the sample data.
    pub fn num_channels(&self) -> (r: u16)
        ensures
            r == (match self {
                SampleData::Mono8(_) | SampleData::Mono16(_) => 1u16,
                _ => 2u16,
            }),
    {
        match self {
            SampleData::Mono8(_) | SampleData::Mono16(_) => 1,
            SampleData::Stereo8(_, _) | SampleData::Stereo16(_, _) => 2,
        }
    }

    /// A sample from the right channel (the left one for mono).
    pub fn get_right(&self, pos: usize) -> (r: i16)
        ensures
            r as int == self.right_at(pos as int),
    {
        match self {
            SampleData::Mono8(v) => get8(v, pos),
            SampleData::Mono16(v) => get16(v, pos),
            SampleData::Stereo8(_, r) => get8(r, pos),
            SampleData::Stereo16(_, r) => get16(r, pos),
        }
    }

    /// Read channel `ch` at `frame`: channel 0 is the left (or only) channel,
    /// any other channel the right one.
    pub fn read_i16(&self, ch: u16, frame: usize) -> (r: i16)
        ensures
            r as int == (if ch == 0 { self.mono_at(frame as int) } else { self.right_at(frame as int) }),
    {
        if ch == 0 { self.get_mono(frame) } else { self.get_right(frame) }
    }
}

/// Sample loop type.
#[derive(Clone, Copy, Debug, Default, PartialEq, Eq, Structural)]
pub enum LoopType {
    /// No loop
    #[default]
    NoLoop,
    /// Forward loop
    Forward,
    /// Ping-pong (bidirectional) loop
    PingPong,
    /// Sustain loop (release on note-off)
    Sustain,
}

/// Auto-vibrato settings for a sample.
#[derive(Clone, Copy, Debug, Default)]
pub struct AutoVibrato {
    /// Vibrato speed
    pub speed: u8,
    /// Vibrato depth
    pub depth: u8,
    /// Vibrato sweep (ramp-up time)
    pub sweep: u8,
    /// Waveform type (0=sine, 1=ramp down, 2=square, 3=random)
    pub waveform: u8,
}

} // verus!
