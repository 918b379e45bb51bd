//! Voices: the playback state of one sample being played.
use vstd::prelude::*;
use slotmap::DefaultKey;
use crate::sample::Sample;

verus! {

#[verifier::external_type_specification]
#[verifier::external_body]
pub struct ExDefaultKey(DefaultKey);

/// Voice lifecycle state.
#[derive(Clone, Copy, Debug, Default, PartialEq, Eq, Structural)]
pub enum VoiceState {
    /// Actively owned by a channel.
    #[default]
    Active,
    /// Note-off received; envelope releasing.
    Released,
    /// Fading out (new-note action "fade").
    Fading,
    /// Background voice (new-note action "continue" or "off").
    Background,
}

/// A single voice producing audio from a sample.
#[derive(Clone, Copy, Debug)]
pub struct Voice {
    /// Which sample of the sample bank this voice plays.
    pub sample_key: DefaultKey,
    /// Current position in the sample (16.16 fixed-point).
    pub position: u32,
    /// Playback increment (16.16 fixed-point).
    pub increment: u32,
    /// Is the voice currently producing audio?
    pub playing: bool,
    /// Current volume (0-64).
    pub volume: u8,
    /// Current panning (-64 to +64).
    pub panning: i8,
    /// Volume offset from tremolo.
    pub volume_offset: i8,
    /// Loop direction for ping-pong (true = forward).
    pub loop_forward: bool,
    /// Voice lifecycle state.
    pub state: VoiceState,
    /// Owning channel index (for new-note-action tracking).
    pub channel: u8,
    /// Fade volume (0-1024, for the fade new-note action).
    pub fade_volume: u16,
}

/// The voice after one output frame: a playing voice moves on by its
/// increment; past the loop end of a looping sample it jumps back by the
/// loop length (the length in 16.16 taken modulo 2^32), past the end of a
/// sample without loop it stops. A silent voice stays as it is.
pub open spec fn stepped(v: Voice, s: Sample) -> Voice {
    if !v.playing {
        v
    } else {
        let p = (v.position + v.increment) as u32;
        if s.has_loop_spec() && (p >> 16u32) >= s.loop_end {
            Voice { position: (p - ((((s.loop_end - s.loop_start) as u32) << 16u32) as u32)) as u32, ..v }
        } else if (p >> 16u32) >= (s.data.len_spec() as u32) {
            Voice { position: p, playing: false, ..v }
        } else {
            Voice { position: p, ..v }
        }
    }
}

/// A 32-bit value clamped to `lo..=hi`.
pub open spec fn clamp_i32(x: int, lo: int, hi: int) -> int {
    if x < lo { lo } else if x > hi { hi } else { x }
}

/// Left and right levels (16-bit) of a sample value at a volume (with its
/// offset, clamped to 0..=64) and a panning: each side's volume is the
/// volume scaled by its share of the panning (in 128ths), and the sample
/// value is scaled by that volume (in 64ths), clamped to 16 bits.
pub open spec fn mix_spec(sample_value: i16, volume: u8, volume_offset: i8, panning: i8) -> (i16, i16) {
    let vol = clamp_i32(volume + volume_offset, 0, 64) as i32;
    let pan_right = (panning + 64) as i32;
    let left_vol = (((128 - pan_right) * vol) as i32) >> 7u32;
    let right_vol = ((pan_right * vol) as i32) >> 7u32;
    let left = ((sample_value * left_vol) as i32) >> 6u32;
    let right = ((sample_value * right_vol) as i32) >> 6u32;
    (clamp_i32(left as int, -32768, 32767) as i16, clamp_i32(right as int, -32768, 32767) as i16)
}

/// The stereo levels of one sample value through a voice's volume and
/// panning.
pub fn mix_levels(sample_value: i16, volume: u8, volume_offset: i8, panning: i8) -> (r: (i16, i16))
    ensures
        r == mix_spec(sample_value, volume, volume_offset, panning),
{
    let sum = volume as i32 + volume_offset as i32;
    let vol: i32 = if sum < 0 { 0 } else if sum > 64 { 64 } else { sum };
    let pan_right: i32 = panning as i32 + 64;
    assert(-12288 <= (128 - pan_right) * vol <= 12288 && -12288 <= pan_right * vol <= 12288) by (nonlinear_arith)
        requires 0 <= vol <= 64, -64 <= pan_right <= 191;
    let lp: i32 = (128 - pan_right) * vol;
    let rp: i32 = pan_right * vol;
    let left_vol = lp >> 7u32;
    let right_vol = rp >> 7u32;
    assert(-96 <= left_vol <= 96 && -96 <= right_vol <= 96) by (bit_vector)
        requires
            -12288 <= lp <= 12288,
            -12288 <= rp <= 12288,
            left_vol == lp >> 7u32,
            right_vol == rp >> 7u32;
    assert(-32768 * 96 <= sample_value as i32 * left_vol <= 32768 * 96
        && -32768 * 96 <= sample_value as i32 * right_vol <= 32768 * 96) by (nonlinear_arith)
        requires -96 <= left_vol <= 96, -96 <= right_vol <= 96, -32768 <= sample_value <= 32767;
    let ls: i32 = sample_value as i32 * left_vol;
    let rs: i32 = sample_value as i32 * right_vol;
    let left = ls >> 6u32;
    let right = rs >> 6u32;
    let l: i32 = if left < -32768 { -32768 } else if left > 32767 { 32767 } else { left };
    let r: i32 = if right < -32768 { -32768 } else if right > 32767 { 32767 } else { right };
    (l as i16, r as i16)
}

impl Voice {
    /// A playing voice for the given sample on a channel: position 0, no
    /// increment yet, volume 64, centred, active, full fade volume.
    pub fn new(sample_key: DefaultKey, channel: u8) -> (r: Self)
        ensures
            r.sample_key == sample_key,
            r.channel == channel,
            r.position == 0,
            r.increment == 0,
            r.playing,
            r.volume == 64,
            r.panning == 0,
            r.volume_offset == 0,
            r.loop_forward,
            r.state == VoiceState::Active,
            r.fade_volume == 1024,
    {
        Self {
            sample_key,
            position: 0,
            increment: 0,
            playing: true,
            volume: 64,
            panning: 0,
            volume_offset: 0,
            loop_forward: true,
            state: VoiceState::Active,
            channel,
            fade_volume: 1024,
        }
    }

    /// Advance a playing voice by one frame of `sample`, handling its loop
    /// and its end.
    pub fn step(&mut self, sample: &Sample)
        requires
            old(self).playing ==> old(self).position + old(self).increment <= u32::MAX,
        ensures
            *final(self) == stepped(*old(self), *sample),
    {
        if !self.playing {
            return;
        }
        self.position = self.position + self.increment;
        let pos_samples = self.position >> 16u32;
        if sample.has_loop() && pos_samples >= sample.loop_end {
            let loop_len = sample.loop_end - sample.loop_start;
            let back = loop_len << 16u32;
            let p = self.position;
            let e = sample.loop_end;
            assert(back <= p) by (bit_vector)
                requires
                    back == loop_len << 16u32,
                    loop_len <= e,
                    (p >> 16u32) >= e;
            self.position = self.position - back;
        } else if pos_samples >= sample.len() as u32 {
            self.playing = false;
        }
    }
}

} // verus!
