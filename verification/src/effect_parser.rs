//! ProTracker-compatible effect parsing.
//!
//! Used by both the MOD and BMX format parsers. The effect encoding is the
//! same: command nibble (0x0-0xF) plus parameter byte.
use vstd::prelude::*;
use crate::effects::Effect;

verus! {

/// The high nibble of a byte.
pub open spec fn hi_nibble(b: u8) -> u8 {
    b / 16
}

/// The low nibble of a byte.
pub open spec fn lo_nibble(b: u8) -> u8 {
    b % 16
}

/// A volume slide parameter as a signed rate: the high nibble slides up,
/// otherwise the low nibble slides down.
pub open spec fn slide_spec(param: u8) -> i8 {
    if hi_nibble(param) > 0 { hi_nibble(param) as i8 } else { (-(lo_nibble(param) as int)) as i8 }
}

/// The extended (Exy) effect of a parameter byte.
pub open spec fn extended_effect_spec(param: u8) -> Effect {
    let val = lo_nibble(param);
    let cmd = hi_nibble(param);
    if cmd == 0x1 { Effect::FinePortaUp(val) }
    else if cmd == 0x2 { Effect::FinePortaDown(val) }
    else if cmd == 0x4 { Effect::SetVibratoWaveform(val) }
    else if cmd == 0x5 { Effect::SetFinetune(if val > 7 { (val - 16) as i8 } else { val as i8 }) }
    else if cmd == 0x6 { Effect::PatternLoop(val) }
    else if cmd == 0x7 { Effect::SetTremoloWaveform(val) }
    else if cmd == 0x8 { Effect::SetPanPosition(val) }
    else if cmd == 0x9 { Effect::RetriggerNote(val) }
    else if cmd == 0xA { Effect::FineVolumeSlideUp(val) }
    else if cmd == 0xB { Effect::FineVolumeSlideDown(val) }
    else if cmd == 0xC { Effect::NoteCut(val) }
    else if cmd == 0xD { Effect::NoteDelay(val) }
    else if cmd == 0xE { Effect::PatternDelay(val) }
    else { Effect::Empty }
}

/// The effect of a ProTracker command and parameter.
pub open spec fn effect_spec(cmd: u8, param: u8) -> Effect {
    if cmd == 0x0 { if param != 0 { Effect::Arpeggio { x: hi_nibble(param), y: lo_nibble(param) } } else { Effect::Empty } }
    else if cmd == 0x1 { Effect::PortaUp(param) }
    else if cmd == 0x2 { Effect::PortaDown(param) }
    else if cmd == 0x3 { Effect::TonePorta(param) }
    else if cmd == 0x4 { Effect::Vibrato { speed: hi_nibble(param), depth: lo_nibble(param) } }
    else if cmd == 0x5 { Effect::TonePortaVolSlide(slide_spec(param)) }
    else if cmd == 0x6 { Effect::VibratoVolSlide(slide_spec(param)) }
    else if cmd == 0x7 { Effect::Tremolo { speed: hi_nibble(param), depth: lo_nibble(param) } }
    else if cmd == 0x8 { Effect::SetPan(param) }
    else if cmd == 0x9 { Effect::SampleOffset(param) }
    else if cmd == 0xA { Effect::VolumeSlide(slide_spec(param)) }
    else if cmd == 0xB { Effect::PositionJump(param) }
    else if cmd == 0xC { Effect::SetVolume(if param < 64 { param } else { 64 }) }
    else if cmd == 0xD {
        let rows = hi_nibble(param) * 10 + lo_nibble(param);
        Effect::PatternBreak(if rows < 63 { rows as u8 } else { 63 })
    }
    else if cmd == 0xE { extended_effect_spec(param) }
    else if cmd == 0xF { if param < 32 { Effect::SetSpeed(param) } else { Effect::SetTempo(param) } }
    else { Effect::Empty }
}

/// Split a byte into its high and low nibbles.
fn nibbles(b: u8) -> (r: (u8, u8))
    ensures
        r.0 == hi_nibble(b),
        r.1 == lo_nibble(b),
{
    let hi = (b >> 4) & 0x0F;
    let lo = b & 0x0F;
    assert(hi == b / 16 && lo == b % 16) by (bit_vector)
        requires hi == (b >> 4u8) & 0x0Fu8, lo == b & 0x0Fu8;
    (hi, lo)
}

/// Parse a ProTracker effect command.
pub fn parse_effect(cmd: u8, param: u8) -> (r: Effect)
    ensures
        r == effect_spec(cmd, param),
        cmd == 0x0D ==> r == Effect::PatternBreak(
            if 10 * (param / 16) + param % 16 < 63 { (10 * (param / 16) + param % 16) as u8 } else { 63u8 },
        ),
{
    let (hi, lo) = nibbles(param);
    match cmd {
        0x0 => if param != 0 { Effect::Arpeggio { x: hi, y: lo } } else { Effect::Empty },
        0x1 => Effect::PortaUp(param),
        0x2 => Effect::PortaDown(param),
        0x3 => Effect::TonePorta(param),
        0x4 => Effect::Vibrato { speed: hi, depth: lo },
        0x5 => Effect::TonePortaVolSlide(param_to_slide(param)),
        0x6 => Effect::VibratoVolSlide(param_to_slide(param)),
        0x7 => Effect::Tremolo { speed: hi, depth: lo },
        0x8 => Effect::SetPan(param),
        0x9 => Effect::SampleOffset(param),
        0xA => Effect::VolumeSlide(param_to_slide(param)),
        0xB => Effect::PositionJump(param),
        0xC => Effect::SetVolume(if param < 64 { param } else { 64 }),
        0xD => {
            let rows = hi * 10 + lo;
            Effect::PatternBreak(if rows < 63 { rows } else { 63 })
        },
        0xE => parse_extended_effect(param),
        0xF => if param < 32 { Effect::SetSpeed(param) } else { Effect::SetTempo(param) },
        _ => Effect::Empty,
    }
}

/// Parse extended effect (Exx).
pub fn parse_extended_effect(param: u8) -> (r: Effect)
    ensures
        r == extended_effect_spec(param),
{
    let (cmd, val) = nibbles(param);
    match cmd {
        0x1 => Effect::FinePortaUp(val),
        0x2 => Effect::FinePortaDown(val),
        0x4 => Effect::SetVibratoWaveform(val),
        0x5 => Effect::SetFinetune(if val > 7 { val as i8 - 16 } else { val as i8 }),
        0x6 => Effect::PatternLoop(val),
        0x7 => Effect::SetTremoloWaveform(val),
        0x8 => Effect::SetPanPosition(val),
        0x9 => Effect::RetriggerNote(val),
        0xA => Effect::FineVolumeSlideUp(val),
        0xB => Effect::FineVolumeSlideDown(val),
        0xC => Effect::NoteCut(val),
        0xD => Effect::NoteDelay(val),
        0xE => Effect::PatternDelay(val),
        _ => Effect::Empty,
    }
}

/// Convert volume slide parameter to signed value.
pub fn param_to_slide(param: u8) -> (r: i8)
    ensures
        r == slide_spec(param),
{
    let (up, down) = nibbles(param);
    if up > 0 {
        up as i8
    } else {
        -(down as i8)
    }
}

/// The pattern-break parameter is a two-digit decimal row number: the high
/// nibble is the tens digit and the low nibble the units digit, and the row
/// is held to 63.
pub proof fn lemma_pattern_break_row_is_decimal(param: u8)
    ensures
        effect_spec(0x0D, param) == Effect::PatternBreak(
            if 10 * (param / 16) + param % 16 < 63 { (10 * (param / 16) + param % 16) as u8 } else { 63u8 },
        ),
{
}

/// A break to row `10 * tens + units` (at most 62) written as the decimal
/// digits `tens`, `units` in the two nibbles breaks to that row.
pub proof fn lemma_pattern_break_digits(tens: u8, units: u8)
    requires
        tens <= 9,
        units <= 9,
        10 * tens + units < 63,
    ensures
        effect_spec(0x0D, (16 * tens + units) as u8) == Effect::PatternBreak((10 * tens + units) as u8),
{
    let p = (16 * tens + units) as u8;
    assert(p / 16 == tens && p % 16 == units);
}

/// The parameters of the two-nibble effects put back together give the
/// parameter byte: the arpeggio's two steps, vibrato's and tremolo's speed
/// and depth are its high and low nibble.
pub proof fn lemma_nibble_params_recombine(param: u8)
    ensures
        param != 0 ==> (effect_spec(0x0, param) matches Effect::Arpeggio { x, y } && 16 * x + y == param && y < 16),
        param == 0 ==> effect_spec(0x0, param) == Effect::Empty,
        effect_spec(0x4, param) matches Effect::Vibrato { speed, depth } && 16 * speed + depth == param && depth < 16,
        effect_spec(0x7, param) matches Effect::Tremolo { speed, depth } && 16 * speed + depth == param && depth < 16,
{
}

/// Volume is set to the parameter, at most 64; speed below 32 and tempo
/// from 32 up share command F; the slides go up by the high nibble when it
/// is set, else down by the low nibble; the extended commands take the low
/// nibble as their value.
pub proof fn lemma_effect_values(param: u8)
    ensures
        effect_spec(0xC, param) == Effect::SetVolume(if param <= 64 { param } else { 64u8 }),
        param < 32 ==> effect_spec(0xF, param) == Effect::SetSpeed(param),
        param >= 32 ==> effect_spec(0xF, param) == Effect::SetTempo(param),
        param >= 16 ==> effect_spec(0xA, param) == Effect::VolumeSlide((param / 16) as i8),
        param < 16 ==> effect_spec(0xA, param) == Effect::VolumeSlide((0 - param) as i8),
        effect_spec(0x1, param) == Effect::PortaUp(param),
        effect_spec(0x2, param) == Effect::PortaDown(param),
        effect_spec(0x3, param) == Effect::TonePorta(param),
        effect_spec(0x9, param) == Effect::SampleOffset(param),
        effect_spec(0xB, param) == Effect::PositionJump(param),
        param / 16 == 0x1 ==> effect_spec(0xE, param) == Effect::FinePortaUp(param % 16),
        param / 16 == 0x2 ==> effect_spec(0xE, param) == Effect::FinePortaDown(param % 16),
        param / 16 == 0xA ==> effect_spec(0xE, param) == Effect::FineVolumeSlideUp(param % 16),
        param / 16 == 0xB ==> effect_spec(0xE, param) == Effect::FineVolumeSlideDown(param % 16),
        param / 16 == 0xC ==> effect_spec(0xE, param) == Effect::NoteCut(param % 16),
        param / 16 == 0xD ==> effect_spec(0xE, param) == Effect::NoteDelay(param % 16),
        param / 16 == 0x9 ==> effect_spec(0xE, param) == Effect::RetriggerNote(param % 16),
{
}

} // verus!
