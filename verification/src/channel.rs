//! Integer state of a tracker channel: note, period, volume and the effect
//! running on it, and how events and ticks change it.
use vstd::prelude::*;
use crate::effects::Effect;
use crate::event::EventPayload;
use crate::instrument::Instrument;
use crate::mod_format::{amiga_period, amiga_period_spec};
use crate::frame::Frame;
use crate::sample::Sample;
use crate::voice::{mix_levels, mix_spec};

verus! {

/// Shortest period of the Amiga table (B-3).
pub const PERIOD_MIN: u16 = 113;

/// Longest period of the Amiga table (C-1).
pub const PERIOD_MAX: u16 = 856;

/// A period held to the Amiga table's range.
pub open spec fn clamp_period_spec(p: int) -> u16 {
    if p < PERIOD_MIN { PERIOD_MIN } else if p > PERIOD_MAX { PERIOD_MAX } else { p as u16 }
}

/// Hold a period to `PERIOD_MIN..=PERIOD_MAX`.
pub fn clamp_period(period: u16) -> (r: u16)
    ensures
        r == clamp_period_spec(period as int),
{
    if period < PERIOD_MIN {
        PERIOD_MIN
    } else if period > PERIOD_MAX {
        PERIOD_MAX
    } else {
        period
    }
}

/// The Amiga period of a note: the table's entry for notes 36 (C-1) to 71
/// (B-3), the table's longest or shortest period below or above it.
pub open spec fn note_period_spec(note: u8) -> u16 {
    if note < 36 {
        PERIOD_MAX
    } else if note > 71 {
        PERIOD_MIN
    } else {
        amiga_period_spec(note - 36) as u16
    }
}

/// The Amiga period of a note, the inverse of reading a MOD cell's period.
pub fn note_to_period(note: u8) -> (r: u16)
    ensures
        r == note_period_spec(note),
{
    if note < 36 {
        PERIOD_MAX
    } else if note > 71 {
        PERIOD_MIN
    } else {
        amiga_period((note - 36) as usize)
    }
}

/// The 16.16 step through a sample at `period`: the step of its C-4 speed
/// at `sample_rate`, times 428 (C-4's period) over `period`; 0 for a zero
/// period or sample rate, `u32::MAX` where it does not fit.
pub open spec fn period_increment_spec(period: u16, c4_speed: u32, sample_rate: u32) -> u32 {
    if period == 0 || sample_rate == 0 {
        0
    } else {
        let v = (c4_speed * 65536 / (sample_rate as int)) * 428 / (period as int);
        if v > u32::MAX { u32::MAX } else { v as u32 }
    }
}

/// Playback increment (16.16 fixed point) of a period.
pub fn period_to_increment(period: u16, c4_speed: u32, sample_rate: u32) -> (r: u32)
    ensures
        r == period_increment_spec(period, c4_speed, sample_rate),
{
    if period == 0 || sample_rate == 0 {
        return 0;
    }
    let scaled: u64 = c4_speed as u64 * 65536;
    let base: u64 = scaled / sample_rate as u64;
    assert(base as int <= scaled as int) by (nonlinear_arith)
        requires base as int == scaled as int / (sample_rate as int), sample_rate > 0, scaled >= 0;
    let v: u64 = base * 428 / period as u64;
    if v > u32::MAX as u64 { u32::MAX } else { v as u32 }
}

/// A volume moved by `delta` and held to 0..=64.
pub open spec fn slide_volume(volume: u8, delta: int) -> u8 {
    let v = volume + delta;
    if v < 0 { 0 } else if v > 64 { 64 } else { v as u8 }
}

fn slide(volume: u8, delta: i16) -> (r: u8)
    requires
        -255 <= delta <= 255,
    ensures
        r == slide_volume(volume, delta as int),
{
    let v: i16 = volume as i16 + delta;
    if v < 0 { 0 } else if v > 64 { 64 } else { v as u8 }
}

/// The integer state of one tracker channel.
#[derive(Clone, Copy, Debug, Default)]
pub struct ChannelState {
    /// Current sample index
    pub sample_index: u8,
    /// Current position in sample (16.16 fixed-point)
    pub position: u32,
    /// Playback increment (16.16 fixed-point)
    pub increment: u32,
    /// Is the channel currently playing?
    pub playing: bool,
    /// Currently active per-tick effect
    pub active_effect: Effect,
    /// Tick counter for the current active effect
    pub effect_tick: u8,
    /// Current volume (0-64)
    pub volume: u8,
    /// Envelope tick position
    pub envelope_tick: u16,
    /// Current panning (-64 to +64)
    pub panning: i8,
    /// Current instrument
    pub instrument: u8,
    /// Current note
    pub note: u8,
    /// Loop direction for ping-pong (true = forward)
    pub loop_forward: bool,
    /// Current Amiga period (higher = lower pitch)
    pub period: u16,
    /// Sample's playback rate at C-4
    pub c4_speed: u32,
    /// Target period for tone portamento
    pub target_period: u16,
    /// Tone portamento speed (period units per tick)
    pub porta_speed: u8,
    /// Last vibrato speed
    pub vibrato_speed: u8,
    /// Last vibrato depth
    pub vibrato_depth: u8,
    /// Vibrato waveform (0=sine, 1=ramp, 2=square; bit 2=no retrig)
    pub vibrato_waveform: u8,
    /// Last tremolo speed
    pub tremolo_speed: u8,
    /// Last tremolo depth
    pub tremolo_depth: u8,
    /// Tremolo waveform (0=sine, 1=ramp, 2=square; bit 2=no retrig)
    pub tremolo_waveform: u8,
    /// Period offset from vibrato/arpeggio
    pub period_offset: i16,
    /// Volume offset from tremolo
    pub volume_offset: i8,
}

impl ChannelState {
    /// A silent channel at full volume, looping forward.
    pub open spec fn new_spec() -> ChannelState {
        ChannelState {
            sample_index: 0,
            position: 0,
            increment: 0,
            playing: false,
            active_effect: Effect::Empty,
            effect_tick: 0,
            volume: 64,
            envelope_tick: 0,
            panning: 0,
            instrument: 0,
            note: 0,
            loop_forward: true,
            period: 0,
            c4_speed: 0,
            target_period: 0,
            porta_speed: 0,
            vibrato_speed: 0,
            vibrato_depth: 0,
            vibrato_waveform: 0,
            tremolo_speed: 0,
            tremolo_depth: 0,
            tremolo_waveform: 0,
            period_offset: 0,
            volume_offset: 0,
        }
    }

    /// Create a new channel state.
    pub fn new() -> (r: Self)
        ensures
            r == Self::new_spec(),
    {
        ChannelState {
            sample_index: 0,
            position: 0,
            increment: 0,
            playing: false,
            active_effect: Effect::Empty,
            effect_tick: 0,
            volume: 64,
            envelope_tick: 0,
            panning: 0,
            instrument: 0,
            note: 0,
            loop_forward: true,
            period: 0,
            c4_speed: 0,
            target_period: 0,
            porta_speed: 0,
            vibrato_speed: 0,
            vibrato_depth: 0,
            vibrato_waveform: 0,
            tremolo_speed: 0,
            tremolo_depth: 0,
            tremolo_waveform: 0,
            period_offset: 0,
            volume_offset: 0,
        }
    }

    /// The channel after a tone portamento step: the period moves toward
    /// the target by the portamento speed and stops on it; nothing moves
    /// without a target or a period.
    pub open spec fn tone_porta_spec(self) -> ChannelState {
        if self.target_period == 0 || self.period == 0 {
            self
        } else if self.period > self.target_period {
            let p = if self.period >= self.porta_speed { self.period - self.porta_speed } else { 0 };
            ChannelState { period: if p < self.target_period { self.target_period } else { p as u16 }, ..self }
        } else if self.period < self.target_period {
            let p = if self.period + self.porta_speed <= u16::MAX { self.period + self.porta_speed } else { u16::MAX as int };
            ChannelState { period: if p > self.target_period { self.target_period } else { p as u16 }, ..self }
        } else {
            self
        }
    }

    /// Slide the period toward the target period by the portamento speed.
    fn apply_tone_porta(&mut self)
        ensures
            *final(self) == old(self).tone_porta_spec(),
    {
        if self.target_period == 0 || self.period == 0 {
            return;
        }
        if self.period > self.target_period {
            self.period = self.period.saturating_sub(self.porta_speed as u16);
            if self.period < self.target_period {
                self.period = self.target_period;
            }
        } else if self.period < self.target_period {
            self.period = self.period.saturating_add(self.porta_speed as u16);
            if self.period > self.target_period {
                self.period = self.target_period;
            }
        }
    }

    /// The channel after one tick of its running effect, where the period
    /// modulator gave `period_offset`, the volume modulator `volume_offset`
    /// (when the channel has them) and the retrigger modulator looped or
    /// not. The effect's tick count goes up by one (wrapping); a volume
    /// slide moves the volume within 0..=64; a portamento moves the period
    /// within the Amiga table's range; a tone portamento moves it toward the
    /// target; vibrato and tremolo remember a nonzero speed and depth; note
    /// cut silences the channel once its tick is reached; a retrigger
    /// restarts the sample.
    pub open spec fn tick_effect_spec(self, period_offset: Option<i16>, volume_offset: Option<i8>, retriggered: bool) -> ChannelState {
        let c = ChannelState { effect_tick: ((self.effect_tick + 1) % 256) as u8, ..self };
        let po = match period_offset { Some(v) => v, None => c.period_offset };
        let vo = match volume_offset { Some(v) => v, None => c.volume_offset };
        match self.active_effect {
            Effect::VolumeSlide(delta) => ChannelState { volume: slide_volume(c.volume, delta as int), ..c },
            Effect::PortaUp(v) => ChannelState {
                period: clamp_period_spec(if c.period >= v { c.period - v } else { 0 }),
                ..c
            },
            Effect::PortaDown(v) => ChannelState {
                period: clamp_period_spec(if c.period + v <= u16::MAX { c.period + v } else { u16::MAX as int }),
                ..c
            },
            Effect::TonePorta(_) => c.tone_porta_spec(),
            Effect::TonePortaVolSlide(delta) => {
                let t = c.tone_porta_spec();
                ChannelState { volume: slide_volume(t.volume, delta as int), ..t }
            },
            Effect::Vibrato { speed, depth } => ChannelState {
                vibrato_speed: if speed > 0 { speed } else { c.vibrato_speed },
                vibrato_depth: if depth > 0 { depth } else { c.vibrato_depth },
                period_offset: po,
                ..c
            },
            Effect::VibratoVolSlide(delta) => ChannelState {
                period_offset: po,
                volume: slide_volume(c.volume, delta as int),
                ..c
            },
            Effect::Tremolo { speed, depth } => ChannelState {
                tremolo_speed: if speed > 0 { speed } else { c.tremolo_speed },
                tremolo_depth: if depth > 0 { depth } else { c.tremolo_depth },
                volume_offset: vo,
                ..c
            },
            Effect::Arpeggio { .. } => ChannelState { period_offset: po, ..c },
            Effect::NoteCut(tick) => if c.effect_tick >= tick { ChannelState { volume: 0, ..c } } else { c },
            Effect::RetriggerNote(_) => if retriggered { ChannelState { position: 0, ..c } } else { c },
            _ => c,
        }
    }

    /// Apply a per-tick effect (called every tick after the first), with
    /// what the channel's modulators gave this tick.
    pub fn apply_tick_effect(&mut self, period_offset: Option<i16>, volume_offset: Option<i8>, retriggered: bool)
        ensures
            *final(self) == old(self).tick_effect_spec(period_offset, volume_offset, retriggered),
    {
        self.effect_tick = self.effect_tick.wrapping_add(1);
        match self.active_effect {
            Effect::VolumeSlide(delta) => {
                self.volume = slide(self.volume, delta as i16);
            },
            Effect::PortaUp(v) => {
                self.period = clamp_period(self.period.saturating_sub(v as u16));
            },
            Effect::PortaDown(v) => {
                self.period = clamp_period(self.period.saturating_add(v as u16));
            },
            Effect::TonePorta(_) => {
                self.apply_tone_porta();
            },
            Effect::TonePortaVolSlide(delta) => {
                self.apply_tone_porta();
                self.volume = slide(self.volume, delta as i16);
            },
            Effect::Vibrato { speed, depth } => {
                if speed > 0 {
                    self.vibrato_speed = speed;
                }
                if depth > 0 {
                    self.vibrato_depth = depth;
                }
                if let Some(v) = period_offset {
                    self.period_offset = v;
                }
            },
            Effect::VibratoVolSlide(delta) => {
                if let Some(v) = period_offset {
                    self.period_offset = v;
                }
                self.volume = slide(self.volume, delta as i16);
            },
            Effect::Tremolo { speed, depth } => {
                if speed > 0 {
                    self.tremolo_speed = speed;
                }
                if depth > 0 {
                    self.tremolo_depth = depth;
                }
                if let Some(v) = volume_offset {
                    self.volume_offset = v;
                }
            },
            Effect::Arpeggio { .. } => {
                if let Some(v) = period_offset {
                    self.period_offset = v;
                }
            },
            Effect::NoteCut(tick) => {
                if self.effect_tick >= tick {
                    self.volume = 0;
                }
            },
            Effect::RetriggerNote(_) => {
                if retriggered {
                    self.position = 0;
                }
            },
            _ => {},
        }
    }

    /// The channel after one tick: a playing channel drops last tick's
    /// modulation, runs its effect with what the modulators gave, and
    /// recomputes its increment; a stopped channel stays as it is.
    pub open spec fn tick_spec(self, period_offset: Option<i16>, volume_offset: Option<i8>, retriggered: bool, sample_rate: u32) -> ChannelState {
        if self.playing {
            ChannelState { period_offset: 0, volume_offset: 0, ..self }
                .tick_effect_spec(period_offset, volume_offset, retriggered)
                .update_increment_spec(sample_rate)
        } else {
            self
        }
    }

    /// Process one tick of a channel.
    pub fn process_tick(&mut self, period_offset: Option<i16>, volume_offset: Option<i8>, retriggered: bool, sample_rate: u32)
        ensures
            *final(self) == old(self).tick_spec(period_offset, volume_offset, retriggered, sample_rate),
    {
        if !self.playing {
            return;
        }
        self.clear_modulation();
        self.apply_tick_effect(period_offset, volume_offset, retriggered);
        self.update_increment(sample_rate);
    }

    /// The channel after rendering one frame of `sample`: the position moves
    /// by the increment; past the loop end of a looping sample it jumps back
    /// by the loop length, past the end of a sample without loop the channel
    /// stops.
    pub open spec fn rendered(self, sample: Sample) -> ChannelState {
        let p = (self.position + self.increment) as u32;
        if sample.has_loop_spec() && (p >> 16u32) >= sample.loop_end {
            ChannelState { position: (p - ((((sample.loop_end - sample.loop_start) as u32) << 16u32) as u32)) as u32, ..self }
        } else if (p >> 16u32) >= (sample.data.len_spec() as u32) {
            ChannelState { position: p, playing: false, ..self }
        } else {
            ChannelState { position: p, ..self }
        }
    }

    /// Render one frame of `sample` at the channel's position, volume (with
    /// its offset) and panning, and advance the position.
    pub fn render(&mut self, sample: &Sample) -> (r: Frame)
        requires
            old(self).position + old(self).increment <= u32::MAX,
        ensures
            (r.left, r.right) == mix_spec(
                sample.data.interpolated_at(old(self).position as int) as i16,
                old(self).volume,
                old(self).volume_offset,
                old(self).panning,
            ),
            *final(self) == old(self).rendered(*sample),
    {
        let sample_value = sample.data.get_mono_interpolated(self.position);
        let (left, right) = mix_levels(sample_value, self.volume, self.volume_offset, self.panning);
        self.position = self.position + self.increment;
        let pos_samples = self.position >> 16u32;
        if sample.has_loop() && pos_samples >= sample.loop_end {
            let loop_len = sample.loop_end - sample.loop_start;
            let back = loop_len << 16u32;
            let p = self.position;
            let e = sample.loop_end;
            assert(back <= p) by (bit_vector)
                requires
                    back == loop_len << 16u32,
                    loop_len <= e,
                    (p >> 16u32) >= e;
            self.position = self.position - back;
        } else if pos_samples >= sample.len() as u32 {
            self.playing = false;
        }
        Frame { left, right }
    }

    /// The channel after a note is triggered: its note, instrument and
    /// sample set, playing from the start, looping forward, with no running
    /// effect and no modulation offsets.
    pub open spec fn trigger_spec(self, note: u8, instrument: u8, sample_index: u8) -> ChannelState {
        ChannelState {
            note,
            instrument,
            sample_index,
            position: 0,
            playing: true,
            envelope_tick: 0,
            loop_forward: true,
            active_effect: Effect::Empty,
            effect_tick: 0,
            period_offset: 0,
            volume_offset: 0,
            ..self
        }
    }

    /// Trigger a new note.
    pub fn trigger(&mut self, note: u8, instrument: u8, sample_index: u8)
        ensures
            *final(self) == old(self).trigger_spec(note, instrument, sample_index),
    {
        self.note = note;
        self.instrument = instrument;
        self.sample_index = sample_index;
        self.position = 0;
        self.playing = true;
        self.envelope_tick = 0;
        self.loop_forward = true;
        self.active_effect = Effect::Empty;
        self.effect_tick = 0;
        self.period_offset = 0;
        self.volume_offset = 0;
    }

    /// Stop playback.
    pub fn stop(&mut self)
        ensures
            *final(self) == (ChannelState { playing: false, ..*old(self) }),
    {
        self.playing = false;
    }

    /// Clear temporary per-tick modulation before applying effects.
    pub fn clear_modulation(&mut self)
        ensures
            *final(self) == (ChannelState { period_offset: 0, volume_offset: 0, ..*old(self) }),
    {
        self.period_offset = 0;
        self.volume_offset = 0;
    }

    /// The channel with its increment recomputed from its period plus the
    /// modulation offset, held to the table's range; unchanged without a
    /// period.
    pub open spec fn update_increment_spec(self, sample_rate: u32) -> ChannelState {
        if self.period > 0 {
            ChannelState {
                increment: period_increment_spec(clamp_period_spec(self.period + self.period_offset), self.c4_speed, sample_rate),
                ..self
            }
        } else {
            self
        }
    }

    /// Recompute the playback increment from the current period and
    /// C-4 speed, with the period offset, without changing the period.
    pub fn update_increment(&mut self, sample_rate: u32)
        ensures
            *final(self) == old(self).update_increment_spec(sample_rate),
    {
        if self.period > 0 {
            let sum: i32 = self.period as i32 + self.period_offset as i32;
            let effective: u16 = if sum < PERIOD_MIN as i32 {
                PERIOD_MIN
            } else if sum > PERIOD_MAX as i32 {
                PERIOD_MAX
            } else {
                sum as u16
            };
            self.increment = period_to_increment(effective, self.c4_speed, sample_rate);
        }
    }

    /// The channel after a row effect: set volume (at most 64), set pan
    /// (centred at 128, held to -64..=64), sample offset (in 256-byte steps,
    /// 16.16), fine volume slides within 0..=64, fine portamentos within
    /// the table's range, an immediate note cut, the modulation waveforms.
    /// Other effects leave it as it is.
    pub open spec fn row_effect_spec(self, effect: Effect) -> ChannelState {
        match effect {
            Effect::SetVolume(v) => ChannelState { volume: if v > 64 { 64 } else { v }, ..self },
            Effect::SetPan(p) => ChannelState {
                panning: if p - 128 < -64 { -64i8 } else if p - 128 > 64 { 64i8 } else { (p - 128) as i8 },
                ..self
            },
            Effect::SampleOffset(o) => ChannelState { position: (o * 0x100_0000) as u32, ..self },
            Effect::FineVolumeSlideUp(v) => ChannelState { volume: slide_volume(self.volume, v as int), ..self },
            Effect::FineVolumeSlideDown(v) => ChannelState { volume: slide_volume(self.volume, -(v as int)), ..self },
            Effect::FinePortaUp(v) => ChannelState {
                period: clamp_period_spec(if self.period >= v { self.period - v } else { 0 }),
                ..self
            },
            Effect::FinePortaDown(v) => ChannelState {
                period: clamp_period_spec(if self.period + v <= u16::MAX { self.period + v } else { u16::MAX as int }),
                ..self
            },
            Effect::NoteCut(t) => if t == 0 { ChannelState { volume: 0, ..self } } else { self },
            Effect::SetVibratoWaveform(w) => ChannelState { vibrato_waveform: w, ..self },
            Effect::SetTremoloWaveform(w) => ChannelState { tremolo_waveform: w, ..self },
            _ => self,
        }
    }

    /// Apply a row effect (first-tick / immediate).
    pub fn apply_row_effect(&mut self, effect: &Effect)
        ensures
            *final(self) == old(self).row_effect_spec(*effect),
            *effect matches Effect::SampleOffset(o) ==> final(self).position == o * 256 * 65536,
    {
        match effect {
            Effect::SetVolume(v) => {
                self.volume = if *v > 64 { 64 } else { *v };
            },
            Effect::SetPan(p) => {
                let q: i16 = *p as i16 - 128;
                self.panning = if q < -64 { -64 } else if q > 64 { 64 } else { q as i8 };
            },
            Effect::SampleOffset(o) => {
                assert((*o as u32) << 24u32 == *o as u32 * 0x100_0000) by (bit_vector)
                    requires *o <= 255;
                self.position = (*o as u32) << 24;
            },
            Effect::FineVolumeSlideUp(v) => {
                self.volume = slide(self.volume, *v as i16);
            },
            Effect::FineVolumeSlideDown(v) => {
                self.volume = slide(self.volume, -(*v as i16));
            },
            Effect::FinePortaUp(v) => {
                self.period = clamp_period(self.period.saturating_sub(*v as u16));
            },
            Effect::FinePortaDown(v) => {
                self.period = clamp_period(self.period.saturating_add(*v as u16));
            },
            Effect::NoteCut(t) => {
                if *t == 0 {
                    self.volume = 0;
                }
            },
            Effect::SetVibratoWaveform(w) => {
                self.vibrato_waveform = *w;
            },
            Effect::SetTremoloWaveform(w) => {
                self.tremolo_waveform = *w;
            },
            _ => {},
        }
    }
}


/// The instrument (0-based) and sample an instrument number (1-based, 0 for
/// the first) and a note choose: the instrument's sample for the note, or
/// the instrument's index taken as a sample index without such an
/// instrument.
pub open spec fn resolve_sample_spec(instruments: Seq<Instrument>, instrument: u8, note: u8) -> (u8, u8) {
    let ii: u8 = if instrument > 0 { (instrument - 1) as u8 } else { 0 };
    (ii, if ii < instruments.len() { instruments[ii as int].sample_map@[note as int] } else { ii })
}

/// Looking up `note` in the chosen instrument stays in its note map.
pub open spec fn lookup_ok(instruments: Seq<Instrument>, instrument: u8, note: u8) -> bool {
    let ii: u8 = if instrument > 0 { (instrument - 1) as u8 } else { 0 };
    ii < instruments.len() ==> note < 120
}

/// Look up the sample index for an instrument + note.
fn resolve_sample(instruments: &[Instrument], instrument: u8, note: u8) -> (r: (u8, u8))
    requires
        lookup_ok(instruments@, instrument, note),
    ensures
        r == resolve_sample_spec(instruments@, instrument, note),
{
    let inst_idx: u8 = if instrument > 0 { instrument - 1 } else { 0 };
    if (inst_idx as usize) < instruments.len() {
        (inst_idx, instruments[inst_idx as usize].sample_map[note as usize])
    } else {
        (inst_idx, inst_idx)
    }
}

/// The C-4 speed of a sample index: the sample's, 8363 without the sample.
pub open spec fn sample_c4_spec(samples: Seq<Sample>, si: u8) -> u32 {
    if si < samples.len() { samples[si as int].c4_speed } else { 8363 }
}

fn sample_c4_speed(samples: &[Sample], si: u8) -> (r: u32)
    ensures
        r == sample_c4_spec(samples@, si),
{
    if (si as usize) < samples.len() { samples[si as usize].c4_speed } else { 8363 }
}

/// The channel's volume set to the sample's default volume, when there is
/// such a sample.
pub open spec fn with_default_volume(c: ChannelState, samples: Seq<Sample>, si: u8) -> ChannelState {
    if si < samples.len() { ChannelState { volume: samples[si as int].default_volume, ..c } } else { c }
}

/// The instrument and sample of a note-on on channel `ch`: looked up from
/// the instrument number when it is given (or the channel does not exist),
/// else the channel's current ones.
pub open spec fn note_on_sample_spec(chs: Seq<ChannelState>, ch: u8, instruments: Seq<Instrument>, instrument: u8, note: u8) -> (u8, u8) {
    if instrument > 0 || ch >= chs.len() {
        resolve_sample_spec(instruments, instrument, note)
    } else {
        (chs[ch as int].instrument, chs[ch as int].sample_index)
    }
}

/// The note lookups an event makes stay in the instruments' note maps.
pub open spec fn event_lookup_ok(chs: Seq<ChannelState>, ch: u8, payload: EventPayload, instruments: Seq<Instrument>) -> bool {
    match payload {
        EventPayload::NoteOn { note, instrument, .. } => (instrument > 0 || ch >= chs.len()) ==> lookup_ok(instruments, instrument, note),
        EventPayload::PortaTarget { note, instrument } => lookup_ok(instruments, instrument, note),
        _ => true,
    }
}

/// The channels after an event for channel `ch` (none changes when there
/// is no such channel). A note-on triggers the note with its instrument and
/// sample, takes the sample's C-4 speed, the note's period and the
/// increment of that period, and the sample's default volume. A portamento
/// target sets the target period of the note, and a new instrument given
/// with it switches instrument, sample, C-4 speed and volume without
/// triggering. A note-off stops the channel. An effect sets the portamento
/// speed when it is a nonzero tone portamento; a row effect is applied at
/// once, and the increment recomputed; any other effect becomes the
/// channel's running effect, from its first tick. Other events change nothing here.
pub open spec fn channel_event_spec(
    chs: Seq<ChannelState>,
    ch: u8,
    payload: EventPayload,
    samples: Seq<Sample>,
    instruments: Seq<Instrument>,
    sample_rate: u32,
) -> Seq<ChannelState> {
    if ch >= chs.len() {
        chs
    } else {
        let old_c = chs[ch as int];
        match payload {
            EventPayload::NoteOn { note, instrument, .. } => {
                let (ii, si) = note_on_sample_spec(chs, ch, instruments, instrument, note);
                let t = old_c.trigger_spec(note, ii, si);
                let p = ChannelState { c4_speed: sample_c4_spec(samples, si), period: note_period_spec(note), ..t };
                chs.update(ch as int, with_default_volume(p.update_increment_spec(sample_rate), samples, si))
            },
            EventPayload::PortaTarget { note, instrument } => {
                let (ii, si) = resolve_sample_spec(instruments, instrument, note);
                let c = ChannelState { target_period: note_period_spec(note), ..old_c };
                if instrument > 0 && ii != c.instrument {
                    let s = ChannelState { instrument: ii, sample_index: si, c4_speed: sample_c4_spec(samples, si), ..c };
                    chs.update(ch as int, with_default_volume(s, samples, si))
                } else {
                    chs.update(ch as int, c)
                }
            },
            EventPayload::NoteOff { .. } => chs.update(ch as int, ChannelState { playing: false, ..old_c }),
            EventPayload::Effect(e) => {
                let c = match e {
                    Effect::TonePorta(speed) => if speed > 0 { ChannelState { porta_speed: speed, ..old_c } } else { old_c },
                    _ => old_c,
                };
                if e.is_row_effect_spec() {
                    chs.update(ch as int, c.row_effect_spec(e).update_increment_spec(sample_rate))
                } else {
                    chs.update(ch as int, ChannelState { active_effect: e, effect_tick: 0, ..c })
                }
            },
            _ => chs,
        }
    }
}

/// Apply an event payload to channel `ch` of a tracker's channels.
pub fn apply_channel_event(
    channels: &mut Vec<ChannelState>,
    ch: u8,
    payload: &EventPayload,
    samples: &[Sample],
    instruments: &[Instrument],
    sample_rate: u32,
)
    requires
        event_lookup_ok(old(channels)@, ch, *payload, instruments@),
    ensures
        final(channels)@ == channel_event_spec(old(channels)@, ch, *payload, samples@, instruments@, sample_rate),
{
    match payload {
        EventPayload::NoteOn { note, instrument, velocity: _ } => {
            let (inst_idx, sample_idx) = if *instrument > 0 || (ch as usize) >= channels.len() {
                resolve_sample(instruments, *instrument, *note)
            } else {
                (channels[ch as usize].instrument, channels[ch as usize].sample_index)
            };
            let c4_speed = sample_c4_speed(samples, sample_idx);
            if (ch as usize) < channels.len() {
                let mut c = channels[ch as usize];
                c.trigger(*note, inst_idx, sample_idx);
                c.c4_speed = c4_speed;
                c.period = note_to_period(*note);
                c.update_increment(sample_rate);
                if (sample_idx as usize) < samples.len() {
                    c.volume = samples[sample_idx as usize].default_volume;
                }
                channels.set(ch as usize, c);
            }
        },
        EventPayload::PortaTarget { note, instrument } => {
            let (inst_idx, sample_idx) = resolve_sample(instruments, *instrument, *note);
            let c4_speed = sample_c4_speed(samples, sample_idx);
            let target_period = note_to_period(*note);
            if (ch as usize) < channels.len() {
                let mut c = channels[ch as usize];
                c.target_period = target_period;
                if *instrument > 0 && inst_idx != c.instrument {
                    c.instrument = inst_idx;
                    c.sample_index = sample_idx;
                    c.c4_speed = c4_speed;
                    if (sample_idx as usize) < samples.len() {
                        c.volume = samples[sample_idx as usize].default_volume;
                    }
                }
                channels.set(ch as usize, c);
            }
        },
        EventPayload::NoteOff { note: _ } => {
            if (ch as usize) < channels.len() {
                let mut c = channels[ch as usize];
                c.stop();
                channels.set(ch as usize, c);
            }
        },
        EventPayload::Effect(effect) => {
            if (ch as usize) < channels.len() {
                let mut c = channels[ch as usize];
                if let Effect::TonePorta(speed) = effect {
                    if *speed > 0 {
                        c.porta_speed = *speed;
                    }
                }
                if effect.is_row_effect() {
                    c.apply_row_effect(effect);
                    c.update_increment(sample_rate);
                } else {
                    c.active_effect = *effect;
                    c.effect_tick = 0;
                }
                channels.set(ch as usize, c);
            }
        },
        _ => {},
    }
}


/// A volume within 0..=64 stays there through any tick of any effect and
/// through any row effect.
pub proof fn lemma_effects_keep_volume(c: ChannelState, e: Effect, period_offset: Option<i16>, volume_offset: Option<i8>, retriggered: bool)
    requires
        c.volume <= 64,
    ensures
        c.tick_effect_spec(period_offset, volume_offset, retriggered).volume <= 64,
        c.row_effect_spec(e).volume <= 64,
{
}

/// A portamento tick, fine or not, leaves the period within the Amiga
/// table's range, whatever it was before.
pub proof fn lemma_porta_keeps_period_in_table(c: ChannelState, v: u8, period_offset: Option<i16>, volume_offset: Option<i8>, retriggered: bool)
    ensures
        ({
            let up = ChannelState { active_effect: Effect::PortaUp(v), ..c }.tick_effect_spec(period_offset, volume_offset, retriggered);
            let down = ChannelState { active_effect: Effect::PortaDown(v), ..c }.tick_effect_spec(period_offset, volume_offset, retriggered);
            &&& PERIOD_MIN <= up.period <= PERIOD_MAX
            &&& PERIOD_MIN <= down.period <= PERIOD_MAX
            &&& PERIOD_MIN <= c.row_effect_spec(Effect::FinePortaUp(v)).period <= PERIOD_MAX
            &&& PERIOD_MIN <= c.row_effect_spec(Effect::FinePortaDown(v)).period <= PERIOD_MAX
        }),
{
}

/// Tone portamento moves the period toward the target and never past it:
/// the new period lies between the old one and the target.
pub proof fn lemma_tone_porta_does_not_overshoot(c: ChannelState)
    ensures
        ({
            let t = c.tone_porta_spec();
            &&& c.period >= c.target_period ==> c.target_period <= t.period <= c.period
            &&& c.period <= c.target_period ==> c.period <= t.period <= c.target_period
            &&& (t.period != c.period ==> c.target_period > 0 && c.period > 0)
        }),
{
}

/// Ticks do not touch a stopped channel.
pub proof fn lemma_stopped_channel_is_still(c: ChannelState, period_offset: Option<i16>, volume_offset: Option<i8>, retriggered: bool, sample_rate: u32)
    requires
        !c.playing,
    ensures
        c.tick_spec(period_offset, volume_offset, retriggered, sample_rate) == c,
{
}

/// What becomes of one of a channel's modulators when an effect starts or
/// a note is triggered.
#[derive(Clone, Copy, Debug, PartialEq, Eq, Structural)]
pub enum ModSetup {
    /// It runs on as it is
    Keep,
    /// It is removed
    Clear,
    /// A sine oscillation of this speed and depth (vibrato, tremolo)
    Sine { speed: u8, depth: u8 },
    /// A three-step cycle of period offsets (arpeggio)
    Steps { first: i32, second: i32, third: i32 },
    /// A loop firing every `interval` ticks (retrigger)
    Every { interval: u8 },
}

/// What becomes of a channel's period, volume and retrigger modulators.
#[derive(Clone, Copy, Debug, PartialEq, Eq, Structural)]
pub struct ModulatorPlan {
    pub period: ModSetup,
    pub volume: ModSetup,
    pub trigger: ModSetup,
}

/// A sine modulator of a speed and depth; none when both are zero.
pub open spec fn sine_setup(speed: u8, depth: u8) -> ModSetup {
    if speed == 0 && depth == 0 { ModSetup::Clear } else { ModSetup::Sine { speed, depth } }
}

/// The period offset of an arpeggio step `semis` semitones above the
/// channel's note (the note held at 255): the difference of the periods,
/// none for a zero step.
pub open spec fn arpeggio_offset(c: ChannelState, semis: u8) -> i32 {
    if semis == 0 {
        0
    } else {
        let n: u8 = if c.note + semis > 255 { 255 } else { (c.note + semis) as u8 };
        (note_period_spec(n) - c.period) as i32
    }
}

/// The modulators an effect sets up when it starts on channel `c`, which
/// has a period modulator running or not. Vibrato and tremolo start a sine
/// of their speed and depth (the remembered ones where zero); an arpeggio
/// cycles through the note and its two steps; a retrigger with an interval
/// fires every interval; a vibrato with volume slide keeps a running
/// vibrato, or starts one from the remembered speed and depth. Every other
/// modulator is removed, and any other effect removes them all.
pub open spec fn modulator_plan_spec(c: ChannelState, effect: Effect, has_period_mod: bool) -> ModulatorPlan {
    let clear = ModulatorPlan { period: ModSetup::Clear, volume: ModSetup::Clear, trigger: ModSetup::Clear };
    match effect {
        Effect::Vibrato { speed, depth } => ModulatorPlan {
            period: sine_setup(if speed > 0 { speed } else { c.vibrato_speed }, if depth > 0 { depth } else { c.vibrato_depth }),
            ..clear
        },
        Effect::Tremolo { speed, depth } => ModulatorPlan {
            volume: sine_setup(if speed > 0 { speed } else { c.tremolo_speed }, if depth > 0 { depth } else { c.tremolo_depth }),
            ..clear
        },
        Effect::Arpeggio { x, y } => ModulatorPlan {
            period: ModSetup::Steps { first: 0, second: arpeggio_offset(c, x), third: arpeggio_offset(c, y) },
            ..clear
        },
        Effect::RetriggerNote(interval) => if interval > 0 {
            ModulatorPlan { trigger: ModSetup::Every { interval }, ..clear }
        } else {
            clear
        },
        Effect::VibratoVolSlide(_) => ModulatorPlan {
            period: if !has_period_mod && c.vibrato_speed > 0 {
                ModSetup::Sine { speed: c.vibrato_speed, depth: c.vibrato_depth }
            } else {
                ModSetup::Keep
            },
            ..clear
        },
        _ => clear,
    }
}

fn arpeggio_step(c: &ChannelState, semis: u8) -> (r: i32)
    ensures
        r == arpeggio_offset(*c, semis),
{
    if semis == 0 {
        0
    } else {
        let n = c.note.saturating_add(semis);
        note_to_period(n) as i32 - c.period as i32
    }
}

fn sine(speed: u8, depth: u8) -> (r: ModSetup)
    ensures
        r == sine_setup(speed, depth),
{
    if speed == 0 && depth == 0 { ModSetup::Clear } else { ModSetup::Sine { speed, depth } }
}

/// Plan the modulators of an effect that starts on a channel.
pub fn plan_modulators(c: &ChannelState, effect: &Effect, has_period_mod: bool) -> (r: ModulatorPlan)
    ensures
        r == modulator_plan_spec(*c, *effect, has_period_mod),
{
    let clear = ModulatorPlan { period: ModSetup::Clear, volume: ModSetup::Clear, trigger: ModSetup::Clear };
    match effect {
        Effect::Vibrato { speed, depth } => {
            let s = if *speed > 0 { *speed } else { c.vibrato_speed };
            let d = if *depth > 0 { *depth } else { c.vibrato_depth };
            ModulatorPlan { period: sine(s, d), ..clear }
        },
        Effect::Tremolo { speed, depth } => {
            let s = if *speed > 0 { *speed } else { c.tremolo_speed };
            let d = if *depth > 0 { *depth } else { c.tremolo_depth };
            ModulatorPlan { volume: sine(s, d), ..clear }
        },
        Effect::Arpeggio { x, y } => ModulatorPlan {
            period: ModSetup::Steps { first: 0, second: arpeggio_step(c, *x), third: arpeggio_step(c, *y) },
            ..clear
        },
        Effect::RetriggerNote(interval) => {
            if *interval > 0 {
                ModulatorPlan { trigger: ModSetup::Every { interval: *interval }, ..clear }
            } else {
                clear
            }
        },
        Effect::VibratoVolSlide(_) => {
            let period = if !has_period_mod && c.vibrato_speed > 0 {
                ModSetup::Sine { speed: c.vibrato_speed, depth: c.vibrato_depth }
            } else {
                ModSetup::Keep
            };
            ModulatorPlan { period, ..clear }
        },
        _ => clear,
    }
}

/// The modulators a new note leaves: a vibrato or tremolo whose waveform
/// has the no-retrigger bit (4) runs on; the others and the retrigger are
/// removed.
pub open spec fn trigger_plan_spec(c: ChannelState) -> ModulatorPlan {
    ModulatorPlan {
        period: if c.vibrato_waveform & 4 == 0 { ModSetup::Clear } else { ModSetup::Keep },
        volume: if c.tremolo_waveform & 4 == 0 { ModSetup::Clear } else { ModSetup::Keep },
        trigger: ModSetup::Clear,
    }
}

/// Plan the modulators of a channel on which a note is triggered.
pub fn plan_trigger(c: &ChannelState) -> (r: ModulatorPlan)
    ensures
        r == trigger_plan_spec(*c),
{
    ModulatorPlan {
        period: if c.vibrato_waveform & 4 == 0 { ModSetup::Clear } else { ModSetup::Keep },
        volume: if c.tremolo_waveform & 4 == 0 { ModSetup::Clear } else { ModSetup::Keep },
        trigger: ModSetup::Clear,
    }
}

/// A sample offset of `o` restarts the sample at frame `o * 256`: the
/// 16.16 position's whole part is `o * 256` and its fraction is zero, and
/// nothing but the position changes.
pub proof fn lemma_sample_offset_frames(c: ChannelState, o: u8)
    ensures
        c.row_effect_spec(Effect::SampleOffset(o)).position == o * 256 * 65536,
        c.row_effect_spec(Effect::SampleOffset(o)).position / 65536 == o * 256,
        c.row_effect_spec(Effect::SampleOffset(o)).position % 65536 == 0,
        c.row_effect_spec(Effect::SampleOffset(o)) == (ChannelState { position: c.row_effect_spec(Effect::SampleOffset(o)).position, ..c }),
{
    assert(o * 256 * 65536 <= 255 * 256 * 65536);
}

/// The immediate row effects: set volume sets the volume to its value, at
/// most 64; set pan centres at 128 and holds the panning to -64..=64; fine
/// volume slides move the volume by their value within 0..=64; fine
/// portamentos move the period by their value, held to the Amiga table;
/// an immediate note cut silences the channel.
pub proof fn lemma_row_effect_values(c: ChannelState, v: u8)
    ensures
        c.row_effect_spec(Effect::SetVolume(v)).volume == if v <= 64 { v } else { 64 },
        c.row_effect_spec(Effect::SetPan(v)).panning == if v < 64 { -64 } else if v > 192 { 64 } else { v - 128 },
        c.volume <= 64 ==> c.row_effect_spec(Effect::FineVolumeSlideUp(v)).volume == if c.volume + v <= 64 { c.volume + v } else { 64 },
        c.volume <= 64 ==> c.row_effect_spec(Effect::FineVolumeSlideDown(v)).volume == if c.volume >= v { c.volume - v } else { 0 },
        ({
            let p = c.period - v;
            c.row_effect_spec(Effect::FinePortaUp(v)).period == if p <= PERIOD_MIN { PERIOD_MIN as int } else if p >= PERIOD_MAX { PERIOD_MAX as int } else { p }
        }),
        ({
            let p = c.period + v;
            c.row_effect_spec(Effect::FinePortaDown(v)).period == if p <= PERIOD_MIN { PERIOD_MIN as int } else if p >= PERIOD_MAX { PERIOD_MAX as int } else { p }
        }),
        c.row_effect_spec(Effect::NoteCut(0)).volume == 0,
{
}

/// A volume slide tick moves the volume by the slide within 0..=64, and a
/// portamento tick moves the period by its speed within the Amiga table.
pub proof fn lemma_tick_slides(c: ChannelState, d: i8, v: u8)
    requires
        c.volume <= 64,
    ensures
        ({
            let t = ChannelState { active_effect: Effect::VolumeSlide(d), ..c }.tick_effect_spec(None, None, false);
            t.volume == if c.volume + d < 0 { 0 } else if c.volume + d > 64 { 64 } else { c.volume + d }
        }),
        ({
            let p = c.period - v;
            let t = ChannelState { active_effect: Effect::PortaUp(v), ..c }.tick_effect_spec(None, None, false);
            t.period == if p <= PERIOD_MIN { PERIOD_MIN as int } else if p >= PERIOD_MAX { PERIOD_MAX as int } else { p }
        }),
        ({
            let p = c.period + v;
            let t = ChannelState { active_effect: Effect::PortaDown(v), ..c }.tick_effect_spec(None, None, false);
            t.period == if p <= PERIOD_MIN { PERIOD_MIN as int } else if p >= PERIOD_MAX { PERIOD_MAX as int } else { p }
        }),
{
}

} // verus!
