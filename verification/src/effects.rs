//! Effect and volume-column commands of tracker patterns.
use vstd::prelude::*;

verus! {

/// Volume column command (XM/IT style).
#[derive(Clone, Copy, Debug, Default, PartialEq, Eq, Structural)]
pub enum VolumeCommand {
    #[default]
    Empty,
    /// Set volume (0-64)
    Volume(u8),
    VolumeSlideDown(u8),
    VolumeSlideUp(u8),
    FineVolSlideDown(u8),
    FineVolSlideUp(u8),
    /// Set panning (0-64, 32 = center)
    Panning(u8),
    PortaDown(u8),
    PortaUp(u8),
    TonePorta(u8),
    Vibrato(u8),
}

impl VolumeCommand {
    /// The variant name, ignoring parameters.
    pub open spec fn name_spec(self) -> &'static str {
        match self {
            VolumeCommand::Empty => "None",
            VolumeCommand::Volume(_) => "Volume",
            VolumeCommand::VolumeSlideDown(_) => "VolumeSlideDown",
            VolumeCommand::VolumeSlideUp(_) => "VolumeSlideUp",
            VolumeCommand::FineVolSlideDown(_) => "FineVolSlideDown",
            VolumeCommand::FineVolSlideUp(_) => "FineVolSlideUp",
            VolumeCommand::Panning(_) => "Panning",
            VolumeCommand::PortaDown(_) => "PortaDown",
            VolumeCommand::PortaUp(_) => "PortaUp",
            VolumeCommand::TonePorta(_) => "TonePorta",
            VolumeCommand::Vibrato(_) => "Vibrato",
        }
    }

    /// Returns the variant name as a static string (ignoring parameters).
    pub fn name(&self) -> (r: &'static str)
        ensures
            r == self.name_spec(),
    {
        match self {
            VolumeCommand::Empty => "None",
            VolumeCommand::Volume(_) => "Volume",
            VolumeCommand::VolumeSlideDown(_) => "VolumeSlideDown",
            VolumeCommand::VolumeSlideUp(_) => "VolumeSlideUp",
            VolumeCommand::FineVolSlideDown(_) => "FineVolSlideDown",
            VolumeCommand::FineVolSlideUp(_) => "FineVolSlideUp",
            VolumeCommand::Panning(_) => "Panning",
            VolumeCommand::PortaDown(_) => "PortaDown",
            VolumeCommand::PortaUp(_) => "PortaUp",
            VolumeCommand::TonePorta(_) => "TonePorta",
            VolumeCommand::Vibrato(_) => "Vibrato",
        }
    }
}

/// Effect column command, covering the MOD, S3M, XM and IT effect sets.
#[derive(Clone, Copy, Debug, Default, PartialEq, Eq, Structural)]
pub enum Effect {
    #[default]
    Empty,
    /// Arpeggio: cycle between note, note+x, note+y each tick
    Arpeggio { x: u8, y: u8 },
    /// Slide pitch up by amount per tick
    PortaUp(u8),
    /// Slide pitch down by amount per tick
    PortaDown(u8),
    /// Slide toward target note
    TonePorta(u8),
    /// Vibrato with speed and depth
    Vibrato { speed: u8, depth: u8 },
    /// Tone portamento + volume slide
    TonePortaVolSlide(i8),
    /// Vibrato + volume slide
    VibratoVolSlide(i8),
    /// Tremolo (volume oscillation)
    Tremolo { speed: u8, depth: u8 },
    /// Set channel panning (0-255)
    SetPan(u8),
    /// Set sample offset (in 256-byte units)
    SampleOffset(u8),
    /// Volume slide up/down per tick
    VolumeSlide(i8),
    /// Jump to order position
    PositionJump(u8),
    /// Set channel volume (0-64)
    SetVolume(u8),
    /// Break to row in next pattern
    PatternBreak(u8),
    /// Fine porta up (once per row)
    FinePortaUp(u8),
    /// Fine porta down (once per row)
    FinePortaDown(u8),
    /// Set vibrato waveform (0=sine, 1=ramp, 2=square)
    SetVibratoWaveform(u8),
    /// Set finetune (-8 to +7)
    SetFinetune(i8),
    /// Pattern loop (0=set start, n=loop n times)
    PatternLoop(u8),
    /// Set tremolo waveform
    SetTremoloWaveform(u8),
    /// Set panning position / surround
    SetPanPosition(u8),
    /// Retrigger note every n ticks
    RetriggerNote(u8),
    /// Fine volume slide up (once per row)
    FineVolumeSlideUp(u8),
    /// Fine volume slide down (once per row)
    FineVolumeSlideDown(u8),
    /// Cut note after n ticks
    NoteCut(u8),
    /// Delay note by n ticks
    NoteDelay(u8),
    /// Delay pattern by n rows
    PatternDelay(u8),
    /// Set ticks per row (speed)
    SetSpeed(u8),
    /// Set BPM tempo
    SetTempo(u8),
    /// Set global volume (0-128)
    SetGlobalVolume(u8),
    /// Global volume slide
    GlobalVolumeSlide(i8),
    /// Set envelope position
    SetEnvelopePosition(u8),
    /// Panning slide
    PanningSlide(i8),
    /// Retrigger with volume change
    Retrigger { interval: u8, volume_change: i8 },
    /// Tremor (on/off volume)
    Tremor { on: u8, off: u8 },
    /// Set filter cutoff frequency
    SetFilterCutoff(u8),
    /// Set filter resonance
    SetFilterResonance(u8),
    /// Extra fine porta up
    ExtraFinePortaUp(u8),
    /// Extra fine porta down
    ExtraFinePortaDown(u8),
}

impl Effect {
    /// The variant name, ignoring parameters.
    pub open spec fn name_spec(self) -> &'static str {
        match self {
            Effect::Empty => "None",
            Effect::Arpeggio { .. } => "Arpeggio",
            Effect::PortaUp(_) => "PortaUp",
            Effect::PortaDown(_) => "PortaDown",
            Effect::TonePorta(_) => "TonePorta",
            Effect::Vibrato { .. } => "Vibrato",
            Effect::TonePortaVolSlide(_) => "TonePortaVolSlide",
            Effect::VibratoVolSlide(_) => "VibratoVolSlide",
            Effect::Tremolo { .. } => "Tremolo",
            Effect::SetPan(_) => "SetPan",
            Effect::SampleOffset(_) => "SampleOffset",
            Effect::VolumeSlide(_) => "VolumeSlide",
            Effect::PositionJump(_) => "PositionJump",
            Effect::SetVolume(_) => "SetVolume",
            Effect::PatternBreak(_) => "PatternBreak",
            Effect::FinePortaUp(_) => "FinePortaUp",
            Effect::FinePortaDown(_) => "FinePortaDown",
            Effect::SetVibratoWaveform(_) => "SetVibratoWaveform",
            Effect::SetFinetune(_) => "SetFinetune",
            Effect::PatternLoop(_) => "PatternLoop",
            Effect::SetTremoloWaveform(_) => "SetTremoloWaveform",
            Effect::SetPanPosition(_) => "SetPanPosition",
            Effect::RetriggerNote(_) => "RetriggerNote",
            Effect::FineVolumeSlideUp(_) => "FineVolumeSlideUp",
            Effect::FineVolumeSlideDown(_) => "FineVolumeSlideDown",
            Effect::NoteCut(_) => "NoteCut",
            Effect::NoteDelay(_) => "NoteDelay",
            Effect::PatternDelay(_) => "PatternDelay",
            Effect::SetSpeed(_) => "SetSpeed",
            Effect::SetTempo(_) => "SetTempo",
            Effect::SetGlobalVolume(_) => "SetGlobalVolume",
            Effect::GlobalVolumeSlide(_) => "GlobalVolumeSlide",
            Effect::SetEnvelopePosition(_) => "SetEnvelopePosition",
            Effect::PanningSlide(_) => "PanningSlide",
            Effect::Retrigger { .. } => "Retrigger",
            Effect::Tremor { .. } => "Tremor",
            Effect::SetFilterCutoff(_) => "SetFilterCutoff",
            Effect::SetFilterResonance(_) => "SetFilterResonance",
            Effect::ExtraFinePortaUp(_) => "ExtraFinePortaUp",
            Effect::ExtraFinePortaDown(_) => "ExtraFinePortaDown",
        }
    }

    /// Returns the variant name as a static string (ignoring parameters).
    pub fn name(&self) -> (r: &'static str)
        ensures
            r == self.name_spec(),
    {
        match self {
            Effect::Empty => "None",
            Effect::Arpeggio { .. } => "Arpeggio",
            Effect::PortaUp(_) => "PortaUp",
            Effect::PortaDown(_) => "PortaDown",
            Effect::TonePorta(_) => "TonePorta",
            Effect::Vibrato { .. } => "Vibrato",
            Effect::TonePortaVolSlide(_) => "TonePortaVolSlide",
            Effect::VibratoVolSlide(_) => "VibratoVolSlide",
            Effect::Tremolo { .. } => "Tremolo",
            Effect::SetPan(_) => "SetPan",
            Effect::SampleOffset(_) => "SampleOffset",
            Effect::VolumeSlide(_) => "VolumeSlide",
            Effect::PositionJump(_) => "PositionJump",
            Effect::SetVolume(_) => "SetVolume",
            Effect::PatternBreak(_) => "PatternBreak",
            Effect::FinePortaUp(_) => "FinePortaUp",
            Effect::FinePortaDown(_) => "FinePortaDown",
            Effect::SetVibratoWaveform(_) => "SetVibratoWaveform",
            Effect::SetFinetune(_) => "SetFinetune",
            Effect::PatternLoop(_) => "PatternLoop",
            Effect::SetTremoloWaveform(_) => "SetTremoloWaveform",
            Effect::SetPanPosition(_) => "SetPanPosition",
            Effect::RetriggerNote(_) => "RetriggerNote",
            Effect::FineVolumeSlideUp(_) => "FineVolumeSlideUp",
            Effect::FineVolumeSlideDown(_) => "FineVolumeSlideDown",
            Effect::NoteCut(_) => "NoteCut",
            Effect::NoteDelay(_) => "NoteDelay",
            Effect::PatternDelay(_) => "PatternDelay",
            Effect::SetSpeed(_) => "SetSpeed",
            Effect::SetTempo(_) => "SetTempo",
            Effect::SetGlobalVolume(_) => "SetGlobalVolume",
            Effect::GlobalVolumeSlide(_) => "GlobalVolumeSlide",
            Effect::SetEnvelopePosition(_) => "SetEnvelopePosition",
            Effect::PanningSlide(_) => "PanningSlide",
            Effect::Retrigger { .. } => "Retrigger",
            Effect::Tremor { .. } => "Tremor",
            Effect::SetFilterCutoff(_) => "SetFilterCutoff",
            Effect::SetFilterResonance(_) => "SetFilterResonance",
            Effect::ExtraFinePortaUp(_) => "ExtraFinePortaUp",
            Effect::ExtraFinePortaDown(_) => "ExtraFinePortaDown",
        }
    }

    /// Effects that act once, on the first tick of their row.
    pub open spec fn is_row_effect_spec(self) -> bool {
        match self {
            Effect::NoteCut(t) => t == 0,
            Effect::PositionJump(_) | Effect::PatternBreak(_) | Effect::SetSpeed(_)
            | Effect::SetTempo(_) | Effect::SetVolume(_) | Effect::SetPan(_)
            | Effect::SampleOffset(_) | Effect::FinePortaUp(_) | Effect::FinePortaDown(_)
            | Effect::FineVolumeSlideUp(_) | Effect::FineVolumeSlideDown(_)
            | Effect::SetVibratoWaveform(_) | Effect::SetTremoloWaveform(_)
            | Effect::ExtraFinePortaUp(_) | Effect::ExtraFinePortaDown(_)
            | Effect::NoteDelay(_) | Effect::PatternDelay(_) => true,
            _ => false,
        }
    }

    /// Returns true if this effect is processed only on tick 0.
    pub fn is_row_effect(&self) -> (r: bool)
        ensures
            r == self.is_row_effect_spec(),
    {
        match self {
            Effect::NoteCut(t) => *t == 0,
            Effect::PositionJump(_) | Effect::PatternBreak(_) | Effect::SetSpeed(_)
            | Effect::SetTempo(_) | Effect::SetVolume(_) | Effect::SetPan(_)
            | Effect::SampleOffset(_) | Effect::FinePortaUp(_) | Effect::FinePortaDown(_)
            | Effect::FineVolumeSlideUp(_) | Effect::FineVolumeSlideDown(_)
            | Effect::SetVibratoWaveform(_) | Effect::SetTremoloWaveform(_)
            | Effect::ExtraFinePortaUp(_) | Effect::ExtraFinePortaDown(_)
            | Effect::NoteDelay(_) | Effect::PatternDelay(_) => true,
            _ => false,
        }
    }
}


/// The position of an effect's variant in the declaration, whatever its
/// parameters.
pub open spec fn effect_variant(e: Effect) -> int {
    match e {
            Effect::Empty => 0,
            Effect::Arpeggio { .. } => 1,
            Effect::PortaUp(_) => 2,
            Effect::PortaDown(_) => 3,
            Effect::TonePorta(_) => 4,
            Effect::Vibrato { .. } => 5,
            Effect::TonePortaVolSlide(_) => 6,
            Effect::VibratoVolSlide(_) => 7,
            Effect::Tremolo { .. } => 8,
            Effect::SetPan(_) => 9,
            Effect::SampleOffset(_) => 10,
            Effect::VolumeSlide(_) => 11,
            Effect::PositionJump(_) => 12,
            Effect::SetVolume(_) => 13,
            Effect::PatternBreak(_) => 14,
            Effect::FinePortaUp(_) => 15,
            Effect::FinePortaDown(_) => 16,
            Effect::SetVibratoWaveform(_) => 17,
            Effect::SetFinetune(_) => 18,
            Effect::PatternLoop(_) => 19,
            Effect::SetTremoloWaveform(_) => 20,
            Effect::SetPanPosition(_) => 21,
            Effect::RetriggerNote(_) => 22,
            Effect::FineVolumeSlideUp(_) => 23,
            Effect::FineVolumeSlideDown(_) => 24,
            Effect::NoteCut(_) => 25,
            Effect::NoteDelay(_) => 26,
            Effect::PatternDelay(_) => 27,
            Effect::SetSpeed(_) => 28,
            Effect::SetTempo(_) => 29,
            Effect::SetGlobalVolume(_) => 30,
            Effect::GlobalVolumeSlide(_) => 31,
            Effect::SetEnvelopePosition(_) => 32,
            Effect::PanningSlide(_) => 33,
            Effect::Retrigger { .. } => 34,
            Effect::Tremor { .. } => 35,
            Effect::SetFilterCutoff(_) => 36,
            Effect::SetFilterResonance(_) => 37,
            Effect::ExtraFinePortaUp(_) => 38,
            Effect::ExtraFinePortaDown(_) => 39,
    }
}

/// The variant whose name is `s`, told by its length and the letters that
/// set it apart from the other names of that length (-1 for no name).
spec fn variant_named(s: Seq<char>) -> int {
    if s.len() == 4 {
        0
    } else if s.len() == 8 && s[0] == 'A' {
        1
    } else if s.len() == 7 && s[0] == 'P' {
        2
    } else if s.len() == 9 && s[0] == 'P' {
        3
    } else if s.len() == 9 && s[0] == 'T' {
        4
    } else if s.len() == 7 && s[0] == 'V' {
        5
    } else if s.len() == 17 && s[0] == 'T' {
        6
    } else if s.len() == 15 && s[0] == 'V' {
        7
    } else if s.len() == 7 && s[0] == 'T' {
        8
    } else if s.len() == 6 && s[0] == 'S' {
        9
    } else if s.len() == 12 && s[0] == 'S' {
        10
    } else if s.len() == 11 && s[0] == 'V' {
        11
    } else if s.len() == 12 && s[1] == 'o' {
        12
    } else if s.len() == 9 && s[0] == 'S' {
        13
    } else if s.len() == 12 && s[7] == 'B' {
        14
    } else if s.len() == 11 && s[0] == 'F' {
        15
    } else if s.len() == 13 && s[0] == 'F' {
        16
    } else if s.len() == 18 && s[3] == 'V' {
        17
    } else if s.len() == 11 && s[0] == 'S' {
        18
    } else if s.len() == 11 && s[0] == 'P' {
        19
    } else if s.len() == 18 && s[3] == 'T' {
        20
    } else if s.len() == 14 {
        21
    } else if s.len() == 13 && s[0] == 'R' {
        22
    } else if s.len() == 17 && s[0] == 'F' {
        23
    } else if s.len() == 19 && s[0] == 'F' {
        24
    } else if s.len() == 7 && s[0] == 'N' {
        25
    } else if s.len() == 9 && s[0] == 'N' {
        26
    } else if s.len() == 12 && s[7] == 'D' {
        27
    } else if s.len() == 8 && s[3] == 'S' {
        28
    } else if s.len() == 8 && s[3] == 'T' {
        29
    } else if s.len() == 15 && s[3] == 'G' {
        30
    } else if s.len() == 17 && s[0] == 'G' {
        31
    } else if s.len() == 19 && s[0] == 'S' {
        32
    } else if s.len() == 12 && s[2] == 'n' {
        33
    } else if s.len() == 9 && s[0] == 'R' {
        34
    } else if s.len() == 6 && s[0] == 'T' {
        35
    } else if s.len() == 15 && s[3] == 'F' {
        36
    } else if s.len() == 18 && s[3] == 'F' {
        37
    } else if s.len() == 16 {
        38
    } else if s.len() == 18 && s[0] == 'E' {
        39
    } else {
        -1
    }
}

proof fn lemma_variant_named(a: Effect)
    ensures
        variant_named(a.name_spec()@) == effect_variant(a),
{
    reveal_strlit("None");
    reveal_strlit("Arpeggio");
    reveal_strlit("PortaUp");
    reveal_strlit("PortaDown");
    reveal_strlit("TonePorta");
    reveal_strlit("Vibrato");
    reveal_strlit("TonePortaVolSlide");
    reveal_strlit("VibratoVolSlide");
    reveal_strlit("Tremolo");
    reveal_strlit("SetPan");
    reveal_strlit("SampleOffset");
    reveal_strlit("VolumeSlide");
    reveal_strlit("PositionJump");
    reveal_strlit("SetVolume");
    reveal_strlit("PatternBreak");
    reveal_strlit("FinePortaUp");
    reveal_strlit("FinePortaDown");
    reveal_strlit("SetVibratoWaveform");
    reveal_strlit("SetFinetune");
    reveal_strlit("PatternLoop");
    reveal_strlit("SetTremoloWaveform");
    reveal_strlit("SetPanPosition");
    reveal_strlit("RetriggerNote");
    reveal_strlit("FineVolumeSlideUp");
    reveal_strlit("FineVolumeSlideDown");
    reveal_strlit("NoteCut");
    reveal_strlit("NoteDelay");
    reveal_strlit("PatternDelay");
    reveal_strlit("SetSpeed");
    reveal_strlit("SetTempo");
    reveal_strlit("SetGlobalVolume");
    reveal_strlit("GlobalVolumeSlide");
    reveal_strlit("SetEnvelopePosition");
    reveal_strlit("PanningSlide");
    reveal_strlit("Retrigger");
    reveal_strlit("Tremor");
    reveal_strlit("SetFilterCutoff");
    reveal_strlit("SetFilterResonance");
    reveal_strlit("ExtraFinePortaUp");
    reveal_strlit("ExtraFinePortaDown");
    match a {
        Effect::Empty => { assert(variant_named("None"@) == 0); },
        Effect::Arpeggio { .. } => { assert(variant_named("Arpeggio"@) == 1); },
        Effect::PortaUp(_) => { assert(variant_named("PortaUp"@) == 2); },
        Effect::PortaDown(_) => { assert(variant_named("PortaDown"@) == 3); },
        Effect::TonePorta(_) => { assert(variant_named("TonePorta"@) == 4); },
        Effect::Vibrato { .. } => { assert(variant_named("Vibrato"@) == 5); },
        Effect::TonePortaVolSlide(_) => { assert(variant_named("TonePortaVolSlide"@) == 6); },
        Effect::VibratoVolSlide(_) => { assert(variant_named("VibratoVolSlide"@) == 7); },
        Effect::Tremolo { .. } => { assert(variant_named("Tremolo"@) == 8); },
        Effect::SetPan(_) => { assert(variant_named("SetPan"@) == 9); },
        Effect::SampleOffset(_) => { assert(variant_named("SampleOffset"@) == 10); },
        Effect::VolumeSlide(_) => { assert(variant_named("VolumeSlide"@) == 11); },
        Effect::PositionJump(_) => { assert(variant_named("PositionJump"@) == 12); },
        Effect::SetVolume(_) => { assert(variant_named("SetVolume"@) == 13); },
        Effect::PatternBreak(_) => { assert(variant_named("PatternBreak"@) == 14); },
        Effect::FinePortaUp(_) => { assert(variant_named("FinePortaUp"@) == 15); },
        Effect::FinePortaDown(_) => { assert(variant_named("FinePortaDown"@) == 16); },
        Effect::SetVibratoWaveform(_) => { assert(variant_named("SetVibratoWaveform"@) == 17); },
        Effect::SetFinetune(_) => { assert(variant_named("SetFinetune"@) == 18); },
        Effect::PatternLoop(_) => { assert(variant_named("PatternLoop"@) == 19); },
        Effect::SetTremoloWaveform(_) => { assert(variant_named("SetTremoloWaveform"@) == 20); },
        Effect::SetPanPosition(_) => { assert(variant_named("SetPanPosition"@) == 21); },
        Effect::RetriggerNote(_) => { assert(variant_named("RetriggerNote"@) == 22); },
        Effect::FineVolumeSlideUp(_) => { assert(variant_named("FineVolumeSlideUp"@) == 23); },
        Effect::FineVolumeSlideDown(_) => { assert(variant_named("FineVolumeSlideDown"@) == 24); },
        Effect::NoteCut(_) => { assert(variant_named("NoteCut"@) == 25); },
        Effect::NoteDelay(_) => { assert(variant_named("NoteDelay"@) == 26); },
        Effect::PatternDelay(_) => { assert(variant_named("PatternDelay"@) == 27); },
        Effect::SetSpeed(_) => { assert(variant_named("SetSpeed"@) == 28); },
        Effect::SetTempo(_) => { assert(variant_named("SetTempo"@) == 29); },
        Effect::SetGlobalVolume(_) => { assert(variant_named("SetGlobalVolume"@) == 30); },
        Effect::GlobalVolumeSlide(_) => { assert(variant_named("GlobalVolumeSlide"@) == 31); },
        Effect::SetEnvelopePosition(_) => { assert(variant_named("SetEnvelopePosition"@) == 32); },
        Effect::PanningSlide(_) => { assert(variant_named("PanningSlide"@) == 33); },
        Effect::Retrigger { .. } => { assert(variant_named("Retrigger"@) == 34); },
        Effect::Tremor { .. } => { assert(variant_named("Tremor"@) == 35); },
        Effect::SetFilterCutoff(_) => { assert(variant_named("SetFilterCutoff"@) == 36); },
        Effect::SetFilterResonance(_) => { assert(variant_named("SetFilterResonance"@) == 37); },
        Effect::ExtraFinePortaUp(_) => { assert(variant_named("ExtraFinePortaUp"@) == 38); },
        Effect::ExtraFinePortaDown(_) => { assert(variant_named("ExtraFinePortaDown"@) == 39); },
    }
}

/// An effect's name is its variant's: the name tells the variant, so
/// effects of different variants have different names, and effects of one
/// variant the same name.
pub proof fn lemma_effect_names_distinct(a: Effect, b: Effect)
    ensures
        (a.name_spec() == b.name_spec()) <==> (effect_variant(a) == effect_variant(b)),
{
    lemma_variant_named(a);
    lemma_variant_named(b);
}

} // verus!
