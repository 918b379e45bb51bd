//! Song feature analysis: scans the cells of a pattern to report which
//! features it uses, and maps times to playback positions.
use vstd::prelude::*;
use crate::effects::{Effect, VolumeCommand};
use crate::musical_time::{add_rows_spec, can_add_sub_beats, sub_per_row, MusicalTime, SUB_BEAT_UNIT};
use crate::pattern::{Cell, Note, Pattern};
use crate::song::{effective_rpb, pattern_at, pattern_rpb, Song, Track};

verus! {

/// Number of effect kinds (effects other than the empty one).
pub const EFFECT_KINDS: u8 = 39;

/// Number of volume command kinds (commands other than the empty one).
pub const VOLUME_KINDS: u8 = 10;

/// The kind of a non-empty effect: its position in the alphabetical order of
/// effect names.
pub open spec fn effect_kind(e: Effect) -> int {
    match e {
        Effect::Empty => -1,
        Effect::Arpeggio { .. } => 0,
        Effect::ExtraFinePortaDown(_) => 1,
        Effect::ExtraFinePortaUp(_) => 2,
        Effect::FinePortaDown(_) => 3,
        Effect::FinePortaUp(_) => 4,
        Effect::FineVolumeSlideDown(_) => 5,
        Effect::FineVolumeSlideUp(_) => 6,
        Effect::GlobalVolumeSlide(_) => 7,
        Effect::NoteCut(_) => 8,
        Effect::NoteDelay(_) => 9,
        Effect::PanningSlide(_) => 10,
        Effect::PatternBreak(_) => 11,
        Effect::PatternDelay(_) => 12,
        Effect::PatternLoop(_) => 13,
        Effect::PortaDown(_) => 14,
        Effect::PortaUp(_) => 15,
        Effect::PositionJump(_) => 16,
        Effect::Retrigger { .. } => 17,
        Effect::RetriggerNote(_) => 18,
        Effect::SampleOffset(_) => 19,
        Effect::SetEnvelopePosition(_) => 20,
        Effect::SetFilterCutoff(_) => 21,
        Effect::SetFilterResonance(_) => 22,
        Effect::SetFinetune(_) => 23,
        Effect::SetGlobalVolume(_) => 24,
        Effect::SetPan(_) => 25,
        Effect::SetPanPosition(_) => 26,
        Effect::SetSpeed(_) => 27,
        Effect::SetTempo(_) => 28,
        Effect::SetTremoloWaveform(_) => 29,
        Effect::SetVibratoWaveform(_) => 30,
        Effect::SetVolume(_) => 31,
        Effect::TonePorta(_) => 32,
        Effect::TonePortaVolSlide(_) => 33,
        Effect::Tremolo { .. } => 34,
        Effect::Tremor { .. } => 35,
        Effect::Vibrato { .. } => 36,
        Effect::VibratoVolSlide(_) => 37,
        Effect::VolumeSlide(_) => 38,
    }
}

/// The name of effect kind `k`.
pub open spec fn effect_kind_name(k: int) -> &'static str {
    if k == 0 { "Arpeggio" }
    else if k == 1 { "ExtraFinePortaDown" }
    else if k == 2 { "ExtraFinePortaUp" }
    else if k == 3 { "FinePortaDown" }
    else if k == 4 { "FinePortaUp" }
    else if k == 5 { "FineVolumeSlideDown" }
    else if k == 6 { "FineVolumeSlideUp" }
    else if k == 7 { "GlobalVolumeSlide" }
    else if k == 8 { "NoteCut" }
    else if k == 9 { "NoteDelay" }
    else if k == 10 { "PanningSlide" }
    else if k == 11 { "PatternBreak" }
    else if k == 12 { "PatternDelay" }
    else if k == 13 { "PatternLoop" }
    else if k == 14 { "PortaDown" }
    else if k == 15 { "PortaUp" }
    else if k == 16 { "PositionJump" }
    else if k == 17 { "Retrigger" }
    else if k == 18 { "RetriggerNote" }
    else if k == 19 { "SampleOffset" }
    else if k == 20 { "SetEnvelopePosition" }
    else if k == 21 { "SetFilterCutoff" }
    else if k == 22 { "SetFilterResonance" }
    else if k == 23 { "SetFinetune" }
    else if k == 24 { "SetGlobalVolume" }
    else if k == 25 { "SetPan" }
    else if k == 26 { "SetPanPosition" }
    else if k == 27 { "SetSpeed" }
    else if k == 28 { "SetTempo" }
    else if k == 29 { "SetTremoloWaveform" }
    else if k == 30 { "SetVibratoWaveform" }
    else if k == 31 { "SetVolume" }
    else if k == 32 { "TonePorta" }
    else if k == 33 { "TonePortaVolSlide" }
    else if k == 34 { "Tremolo" }
    else if k == 35 { "Tremor" }
    else if k == 36 { "Vibrato" }
    else if k == 37 { "VibratoVolSlide" }
    else { "VolumeSlide" }
}

/// The kind of a non-empty volume command: its position in the alphabetical
/// order of command names.
pub open spec fn volume_kind(v: VolumeCommand) -> int {
    match v {
        VolumeCommand::Empty => -1,
        VolumeCommand::FineVolSlideDown(_) => 0,
        VolumeCommand::FineVolSlideUp(_) => 1,
        VolumeCommand::Panning(_) => 2,
        VolumeCommand::PortaDown(_) => 3,
        VolumeCommand::PortaUp(_) => 4,
        VolumeCommand::TonePorta(_) => 5,
        VolumeCommand::Vibrato(_) => 6,
        VolumeCommand::Volume(_) => 7,
        VolumeCommand::VolumeSlideDown(_) => 8,
        VolumeCommand::VolumeSlideUp(_) => 9,
    }
}

/// The name of volume command kind `k`.
pub open spec fn volume_kind_name(k: int) -> &'static str {
    if k == 0 { "FineVolSlideDown" }
    else if k == 1 { "FineVolSlideUp" }
    else if k == 2 { "Panning" }
    else if k == 3 { "PortaDown" }
    else if k == 4 { "PortaUp" }
    else if k == 5 { "TonePorta" }
    else if k == 6 { "Vibrato" }
    else if k == 7 { "Volume" }
    else if k == 8 { "VolumeSlideDown" }
    else { "VolumeSlideUp" }
}

/// A kind's name is the name of every effect of that kind.
pub proof fn lemma_effect_kind_name(e: Effect)
    requires
        e != Effect::Empty,
    ensures
        0 <= effect_kind(e) < EFFECT_KINDS,
        effect_kind_name(effect_kind(e)) == e.name_spec(),
{
}

/// A kind's name is the name of every volume command of that kind.
pub proof fn lemma_volume_kind_name(v: VolumeCommand)
    requires
        v != VolumeCommand::Empty,
    ensures
        0 <= volume_kind(v) < VOLUME_KINDS,
        volume_kind_name(volume_kind(v)) == v.name_spec(),
{
}

/// Features found in a single pattern (or any collection of cells).
///
/// Name and instrument lists are in increasing order (names alphabetically)
/// and hold nothing twice.
#[derive(Clone, Debug)]
pub struct PatternFeatures {
    /// Names of the effects used
    pub effects: Vec<&'static str>,
    /// Names of the volume commands used
    pub volume_commands: Vec<&'static str>,
    /// A note-off occurs
    pub has_note_off: bool,
    /// A note fade occurs
    pub has_note_fade: bool,
    /// Lowest and highest note played
    pub note_range: Option<(u8, u8)>,
    /// Instruments referenced (nonzero instrument numbers)
    pub instruments_used: Vec<u8>,
    /// Number of notes played
    pub total_notes: usize,
}

impl Default for PatternFeatures {
    /// No features.
    fn default() -> (r: Self)
        ensures
            r.effects@.len() == 0,
            r.volume_commands@.len() == 0,
            !r.has_note_off,
            !r.has_note_fade,
            r.note_range.is_none(),
            r.instruments_used@.len() == 0,
            r.total_notes == 0,
    {
        PatternFeatures {
            effects: Vec::new(),
            volume_commands: Vec::new(),
            has_note_off: false,
            has_note_fade: false,
            note_range: None,
            instruments_used: Vec::new(),
            total_notes: 0,
        }
    }
}

/// Number of notes played among `cells`.
pub open spec fn notes_played(cells: Seq<Cell>) -> int
    decreases cells.len(),
{
    if cells.len() == 0 {
        0
    } else {
        notes_played(cells.drop_last()) + if cells.last().note is On { 1int } else { 0 }
    }
}

/// Lowest and highest note played among `cells`.
pub open spec fn note_range_spec(cells: Seq<Cell>) -> Option<(u8, u8)>
    decreases cells.len(),
{
    if cells.len() == 0 {
        None
    } else {
        let prev = note_range_spec(cells.drop_last());
        match cells.last().note {
            Note::On(n) => Some(match prev {
                Some((lo, hi)) => (if n < lo { n } else { lo }, if n > hi { n } else { hi }),
                None => (n, n),
            }),
            _ => prev,
        }
    }
}

/// Some cell has the given note.
pub open spec fn has_note(cells: Seq<Cell>, note: Note) -> bool {
    exists|i: int| 0 <= i < cells.len() && (#[trigger] cells[i]).note == note
}

/// Some cell has an effect of kind `k`.
pub open spec fn effect_used(cells: Seq<Cell>, k: int) -> bool {
    exists|i: int| 0 <= i < cells.len() && effect_kind((#[trigger] cells[i]).effect) == k
}

/// Some cell has a volume command of kind `k`.
pub open spec fn volume_used(cells: Seq<Cell>, k: int) -> bool {
    exists|i: int| 0 <= i < cells.len() && volume_kind((#[trigger] cells[i]).volume) == k
}

/// Some cell refers to instrument `n` (nonzero).
pub open spec fn instrument_used(cells: Seq<Cell>, n: int) -> bool {
    n > 0 && exists|i: int| 0 <= i < cells.len() && (#[trigger] cells[i]).instrument == n
}

/// Names of the used effect kinds below `n`, in kind order.
pub open spec fn effect_names_upto(cells: Seq<Cell>, n: int) -> Seq<&'static str>
    decreases n,
{
    if n <= 0 {
        seq![]
    } else {
        let prev = effect_names_upto(cells, n - 1);
        if effect_used(cells, n - 1) { prev.push(effect_kind_name(n - 1)) } else { prev }
    }
}

/// Names of the used volume command kinds below `n`, in kind order.
pub open spec fn volume_names_upto(cells: Seq<Cell>, n: int) -> Seq<&'static str>
    decreases n,
{
    if n <= 0 {
        seq![]
    } else {
        let prev = volume_names_upto(cells, n - 1);
        if volume_used(cells, n - 1) { prev.push(volume_kind_name(n - 1)) } else { prev }
    }
}

/// Instruments used below `n`, in increasing order.
pub open spec fn instruments_upto(cells: Seq<Cell>, n: int) -> Seq<u8>
    decreases n,
{
    if n <= 0 {
        seq![]
    } else {
        let prev = instruments_upto(cells, n - 1);
        if instrument_used(cells, n - 1) { prev.push((n - 1) as u8) } else { prev }
    }
}

/// The features of a collection of cells.
pub open spec fn features_of(f: PatternFeatures, cells: Seq<Cell>) -> bool {
    &&& f.effects@ == effect_names_upto(cells, EFFECT_KINDS as int)
    &&& f.volume_commands@ == volume_names_upto(cells, VOLUME_KINDS as int)
    &&& f.has_note_off == has_note(cells, Note::Off)
    &&& f.has_note_fade == has_note(cells, Note::Fade)
    &&& f.note_range == note_range_spec(cells)
    &&& f.instruments_used@ == instruments_upto(cells, 256)
    &&& f.total_notes == notes_played(cells)
}

fn effect_kind_of(e: &Effect) -> (k: u8)
    requires
        *e != Effect::Empty,
    ensures
        k == effect_kind(*e),
{
    match e {
        Effect::Empty => 0,
        Effect::Arpeggio { .. } => 0,
        Effect::ExtraFinePortaDown(_) => 1,
        Effect::ExtraFinePortaUp(_) => 2,
        Effect::FinePortaDown(_) => 3,
        Effect::FinePortaUp(_) => 4,
        Effect::FineVolumeSlideDown(_) => 5,
        Effect::FineVolumeSlideUp(_) => 6,
        Effect::GlobalVolumeSlide(_) => 7,
        Effect::NoteCut(_) => 8,
        Effect::NoteDelay(_) => 9,
        Effect::PanningSlide(_) => 10,
        Effect::PatternBreak(_) => 11,
        Effect::PatternDelay(_) => 12,
        Effect::PatternLoop(_) => 13,
        Effect::PortaDown(_) => 14,
        Effect::PortaUp(_) => 15,
        Effect::PositionJump(_) => 16,
        Effect::Retrigger { .. } => 17,
        Effect::RetriggerNote(_) => 18,
        Effect::SampleOffset(_) => 19,
        Effect::SetEnvelopePosition(_) => 20,
        Effect::SetFilterCutoff(_) => 21,
        Effect::SetFilterResonance(_) => 22,
        Effect::SetFinetune(_) => 23,
        Effect::SetGlobalVolume(_) => 24,
        Effect::SetPan(_) => 25,
        Effect::SetPanPosition(_) => 26,
        Effect::SetSpeed(_) => 27,
        Effect::SetTempo(_) => 28,
        Effect::SetTremoloWaveform(_) => 29,
        Effect::SetVibratoWaveform(_) => 30,
        Effect::SetVolume(_) => 31,
        Effect::TonePorta(_) => 32,
        Effect::TonePortaVolSlide(_) => 33,
        Effect::Tremolo { .. } => 34,
        Effect::Tremor { .. } => 35,
        Effect::Vibrato { .. } => 36,
        Effect::VibratoVolSlide(_) => 37,
        Effect::VolumeSlide(_) => 38,
    }
}

fn volume_kind_of(v: &VolumeCommand) -> (k: u8)
    requires
        *v != VolumeCommand::Empty,
    ensures
        k == volume_kind(*v),
{
    match v {
        VolumeCommand::Empty => 0,
        VolumeCommand::FineVolSlideDown(_) => 0,
        VolumeCommand::FineVolSlideUp(_) => 1,
        VolumeCommand::Panning(_) => 2,
        VolumeCommand::PortaDown(_) => 3,
        VolumeCommand::PortaUp(_) => 4,
        VolumeCommand::TonePorta(_) => 5,
        VolumeCommand::Vibrato(_) => 6,
        VolumeCommand::Volume(_) => 7,
        VolumeCommand::VolumeSlideDown(_) => 8,
        VolumeCommand::VolumeSlideUp(_) => 9,
    }
}

fn effect_name_of_kind(k: u8) -> (r: &'static str)
    ensures
        r == effect_kind_name(k as int),
{
    if k == 0 { "Arpeggio" }
    else if k == 1 { "ExtraFinePortaDown" }
    else if k == 2 { "ExtraFinePortaUp" }
    else if k == 3 { "FinePortaDown" }
    else if k == 4 { "FinePortaUp" }
    else if k == 5 { "FineVolumeSlideDown" }
    else if k == 6 { "FineVolumeSlideUp" }
    else if k == 7 { "GlobalVolumeSlide" }
    else if k == 8 { "NoteCut" }
    else if k == 9 { "NoteDelay" }
    else if k == 10 { "PanningSlide" }
    else if k == 11 { "PatternBreak" }
    else if k == 12 { "PatternDelay" }
    else if k == 13 { "PatternLoop" }
    else if k == 14 { "PortaDown" }
    else if k == 15 { "PortaUp" }
    else if k == 16 { "PositionJump" }
    else if k == 17 { "Retrigger" }
    else if k == 18 { "RetriggerNote" }
    else if k == 19 { "SampleOffset" }
    else if k == 20 { "SetEnvelopePosition" }
    else if k == 21 { "SetFilterCutoff" }
    else if k == 22 { "SetFilterResonance" }
    else if k == 23 { "SetFinetune" }
    else if k == 24 { "SetGlobalVolume" }
    else if k == 25 { "SetPan" }
    else if k == 26 { "SetPanPosition" }
    else if k == 27 { "SetSpeed" }
    else if k == 28 { "SetTempo" }
    else if k == 29 { "SetTremoloWaveform" }
    else if k == 30 { "SetVibratoWaveform" }
    else if k == 31 { "SetVolume" }
    else if k == 32 { "TonePorta" }
    else if k == 33 { "TonePortaVolSlide" }
    else if k == 34 { "Tremolo" }
    else if k == 35 { "Tremor" }
    else if k == 36 { "Vibrato" }
    else if k == 37 { "VibratoVolSlide" }
    else { "VolumeSlide" }
}

fn volume_name_of_kind(k: u8) -> (r: &'static str)
    ensures
        r == volume_kind_name(k as int),
{
    if k == 0 { "FineVolSlideDown" }
    else if k == 1 { "FineVolSlideUp" }
    else if k == 2 { "Panning" }
    else if k == 3 { "PortaDown" }
    else if k == 4 { "PortaUp" }
    else if k == 5 { "TonePorta" }
    else if k == 6 { "Vibrato" }
    else if k == 7 { "Volume" }
    else if k == 8 { "VolumeSlideDown" }
    else { "VolumeSlideUp" }
}

/// What has been seen so far while scanning cells.
struct Tally {
    effects: Vec<bool>,
    volumes: Vec<bool>,
    instruments: Vec<bool>,
    has_note_off: bool,
    has_note_fade: bool,
    note_range: Option<(u8, u8)>,
    total_notes: usize,
}

/// The tally describes `cells`.
spec fn tally_of(t: Tally, cells: Seq<Cell>) -> bool {
    &&& t.effects@.len() == EFFECT_KINDS
    &&& t.volumes@.len() == VOLUME_KINDS
    &&& t.instruments@.len() == 256
    &&& forall|k: int| 0 <= k < EFFECT_KINDS ==> t.effects@[k] == effect_used(cells, k)
    &&& forall|k: int| 0 <= k < VOLUME_KINDS ==> t.volumes@[k] == volume_used(cells, k)
    &&& forall|n: int| 0 <= n < 256 ==> t.instruments@[n] == instrument_used(cells, n)
    &&& t.has_note_off == has_note(cells, Note::Off)
    &&& t.has_note_fade == has_note(cells, Note::Fade)
    &&& t.note_range == note_range_spec(cells)
    &&& t.total_notes == notes_played(cells)
}

fn falses(n: usize) -> (r: Vec<bool>)
    ensures
        r@.len() == n,
        forall|i: int| 0 <= i < n ==> !r@[i],
{
    let mut v: Vec<bool> = Vec::new();
    while v.len() < n
        invariant
            v@.len() <= n,
            forall|i: int| 0 <= i < v@.len() ==> !v@[i],
        decreases n - v@.len(),
    {
        v.push(false);
    }
    v
}

proof fn lemma_notes_played_bound(cells: Seq<Cell>)
    ensures
        0 <= notes_played(cells) <= cells.len(),
    decreases cells.len(),
{
    if cells.len() > 0 {
        lemma_notes_played_bound(cells.drop_last());
    }
}

/// Count one cell into the tally.
fn accumulate_cell(cell: &Cell, t: &mut Tally, Ghost(cells): Ghost<Seq<Cell>>)
    requires
        tally_of(*old(t), cells),
        cells.len() < usize::MAX,
    ensures
        tally_of(*final(t), cells.push(*cell)),
{
    let ghost next = cells.push(*cell);
    proof {
        assert(next.drop_last() =~= cells);
        lemma_notes_played_bound(cells);
        assert forall|k: int| 0 <= k < EFFECT_KINDS implies
            effect_used(next, k) == (effect_used(cells, k) || effect_kind(cell.effect) == k) by {
            if effect_used(cells, k) {
                let i = choose|i: int| 0 <= i < cells.len() && effect_kind(cells[i].effect) == k;
                assert(next[i] == cells[i]);
            }
            if effect_kind(cell.effect) == k {
                assert(next[cells.len() as int] == *cell);
            }
            if effect_used(next, k) {
                let i = choose|i: int| 0 <= i < next.len() && effect_kind(next[i].effect) == k;
                if i < cells.len() {
                    assert(cells[i] == next[i]);
                }
            }
        }
        assert forall|k: int| 0 <= k < VOLUME_KINDS implies
            volume_used(next, k) == (volume_used(cells, k) || volume_kind(cell.volume) == k) by {
            if volume_used(cells, k) {
                let i = choose|i: int| 0 <= i < cells.len() && volume_kind(cells[i].volume) == k;
                assert(next[i] == cells[i]);
            }
            if volume_kind(cell.volume) == k {
                assert(next[cells.len() as int] == *cell);
            }
            if volume_used(next, k) {
                let i = choose|i: int| 0 <= i < next.len() && volume_kind(next[i].volume) == k;
                if i < cells.len() {
                    assert(cells[i] == next[i]);
                }
            }
        }
        assert forall|n: int| 0 <= n < 256 implies
            instrument_used(next, n) == (instrument_used(cells, n) || (n > 0 && cell.instrument == n)) by {
            if instrument_used(cells, n) {
                let i = choose|i: int| 0 <= i < cells.len() && cells[i].instrument == n;
                assert(next[i] == cells[i]);
            }
            if n > 0 && cell.instrument == n {
                assert(next[cells.len() as int] == *cell);
            }
            if instrument_used(next, n) {
                let i = choose|i: int| 0 <= i < next.len() && next[i].instrument == n;
                if i < cells.len() {
                    assert(cells[i] == next[i]);
                }
            }
        }
        assert forall|note: Note| #![auto] has_note(next, note) == (has_note(cells, note) || cell.note == note) by {
            if has_note(cells, note) {
                let i = choose|i: int| 0 <= i < cells.len() && cells[i].note == note;
                assert(next[i] == cells[i]);
            }
            if cell.note == note {
                assert(next[cells.len() as int] == *cell);
            }
            if has_note(next, note) {
                let i = choose|i: int| 0 <= i < next.len() && next[i].note == note;
                if i < cells.len() {
                    assert(cells[i] == next[i]);
                }
            }
        }
    }
    match cell.note {
        Note::On(n) => {
            t.total_notes = t.total_notes + 1;
            t.note_range = Some(match t.note_range {
                Some((lo, hi)) => (if n < lo { n } else { lo }, if n > hi { n } else { hi }),
                None => (n, n),
            });
        },
        Note::Off => t.has_note_off = true,
        Note::Fade => t.has_note_fade = true,
        Note::Empty => {},
    }
    if cell.instrument > 0 {
        t.instruments.set(cell.instrument as usize, true);
    }
    match cell.effect {
        Effect::Empty => {},
        _ => {
            let k = effect_kind_of(&cell.effect);
            t.effects.set(k as usize, true);
        },
    }
    match cell.volume {
        VolumeCommand::Empty => {},
        _ => {
            let k = volume_kind_of(&cell.volume);
            t.volumes.set(k as usize, true);
        },
    }
}

/// Analyze a single pattern: the features of all its cells.
pub fn analyze_pattern(pattern: &Pattern) -> (r: PatternFeatures)
    ensures
        features_of(r, pattern.data@),
{
    let mut t = Tally {
        effects: falses(EFFECT_KINDS as usize),
        volumes: falses(VOLUME_KINDS as usize),
        instruments: falses(256),
        has_note_off: false,
        has_note_fade: false,
        note_range: None,
        total_notes: 0,
    };
    let ghost cells = pattern.data@;
    proof {
        assert(cells.take(0) =~= Seq::<Cell>::empty());
    }
    let mut j: usize = 0;
    while j < pattern.data.len()
        invariant
            j <= cells.len(),
            cells == pattern.data@,
            tally_of(t, cells.take(j as int)),
        decreases cells.len() - j,
    {
        proof {
            assert(cells.take(j + 1) =~= cells.take(j as int).push(cells[j as int]));
        }
        accumulate_cell(&pattern.data[j], &mut t, Ghost(cells.take(j as int)));
        j = j + 1;
    }
    proof {
        assert(cells.take(j as int) =~= cells);
    }
    let mut effects: Vec<&'static str> = Vec::new();
    let mut k: u8 = 0;
    while k < EFFECT_KINDS
        invariant
            k <= EFFECT_KINDS,
            tally_of(t, cells),
            effects@ == effect_names_upto(cells, k as int),
        decreases EFFECT_KINDS - k,
    {
        if t.effects[k as usize] {
            effects.push(effect_name_of_kind(k));
        }
        k = k + 1;
    }
    let mut volume_commands: Vec<&'static str> = Vec::new();
    let mut k: u8 = 0;
    while k < VOLUME_KINDS
        invariant
            k <= VOLUME_KINDS,
            tally_of(t, cells),
            volume_commands@ == volume_names_upto(cells, k as int),
        decreases VOLUME_KINDS - k,
    {
        if t.volumes[k as usize] {
            volume_commands.push(volume_name_of_kind(k));
        }
        k = k + 1;
    }
    let mut instruments_used: Vec<u8> = Vec::new();
    let mut n: usize = 0;
    while n < 256
        invariant
            n <= 256,
            tally_of(t, cells),
            instruments_used@ == instruments_upto(cells, n as int),
        decreases 256 - n,
    {
        if t.instruments[n] {
            instruments_used.push(n as u8);
        }
        n = n + 1;
    }
    PatternFeatures {
        effects,
        volume_commands,
        has_note_off: t.has_note_off,
        has_note_fade: t.has_note_fade,
        note_range: t.note_range,
        instruments_used,
        total_notes: t.total_notes,
    }
}

/// A position within the song's order/pattern structure (legacy, kept for compatibility).
#[derive(Clone, Copy, Debug, PartialEq, Eq, Structural)]
pub struct PlaybackPosition {
    /// Index into the order list
    pub order_index: usize,
    /// Pattern played there
    pub pattern_index: u8,
    /// Row within the pattern
    pub row: u16,
}

/// A position within the per-track sequencing model.
#[derive(Clone, Copy, Debug, PartialEq, Eq)]
pub struct TrackPlaybackPosition {
    /// Track group
    pub group: Option<u16>,
    /// Index of the sequence entry
    pub seq_index: usize,
    /// Clip the entry plays
    pub clip_idx: u16,
    /// Row within the clip
    pub row: u16,
}

/// The row of a clip starting at `base` that contains `time`, at most the
/// clip's last row; row 0 before the clip, without rows or with no rows per
/// beat.
pub open spec fn row_at_spec(base: MusicalTime, time: MusicalTime, rpb: int, max_rows: int) -> u16 {
    if time.lt_spec(base) || rpb == 0 || max_rows == 0 {
        0
    } else {
        let elapsed = (time.beat - base.beat) * (SUB_BEAT_UNIT as int) + time.sub_beat - base.sub_beat;
        let row = (elapsed / ((SUB_BEAT_UNIT as int) / rpb)) as u16;
        if row <= max_rows - 1 { row } else { (max_rows - 1) as u16 }
    }
}

/// Measuring from `base` to `time` in sub-beats neither overflows nor goes
/// below zero.
pub open spec fn row_at_computable(base: MusicalTime, time: MusicalTime) -> bool {
    let elapsed = (time.beat - base.beat) * (SUB_BEAT_UNIT as int) + time.sub_beat;
    time.lt_spec(base) || (elapsed <= u64::MAX && elapsed >= base.sub_beat)
}

/// Find which row contains `time`, given that the pattern starts at `base`.
fn find_row_at(base: MusicalTime, time: MusicalTime, rpb: u32, max_rows: u16) -> (r: u16)
    requires
        rpb > 0 && max_rows > 0 ==> row_at_computable(base, time) && rpb <= SUB_BEAT_UNIT,
    ensures
        r == row_at_spec(base, time, rpb as int, max_rows as int),
{
    if time < base || rpb == 0 || max_rows == 0 {
        return 0;
    }
    let sub_per_row = SUB_BEAT_UNIT / rpb;
    let elapsed_beats = time.beat - base.beat;
    proof {
        assert(elapsed_beats * 720720 <= u64::MAX) by (nonlinear_arith)
            requires elapsed_beats * 720720 + time.sub_beat <= u64::MAX, time.sub_beat >= 0;
    }
    let elapsed_sub = elapsed_beats * SUB_BEAT_UNIT as u64 + time.sub_beat as u64 - base.sub_beat as u64;
    assert(sub_per_row > 0) by (nonlinear_arith) requires sub_per_row == 720720u32 / rpb, 0 < rpb <= 720720;
    let row = #[verifier::truncate] ((elapsed_sub / sub_per_row as u64) as u16);
    if row <= max_rows - 1 { row } else { max_rows - 1 }
}

/// Index of the first track of group `group` from track `i` on.
pub open spec fn first_in_group(tracks: Seq<Track>, group: Option<u16>, i: int) -> Option<int>
    decreases tracks.len() - i,
{
    if i < 0 || i >= tracks.len() {
        None
    } else if tracks[i].group == group {
        Some(i)
    } else {
        first_in_group(tracks, group, i + 1)
    }
}

/// The position of `time` found by walking the entries of `track` from entry
/// `i` on: the first entry whose clip ends after `time`. `None` when an entry
/// names a missing clip first, or when every clip ends by `time`.
pub open spec fn position_from(track: Track, group: Option<u16>, time: MusicalTime, rpb: int, i: int) -> Option<TrackPlaybackPosition>
    decreases track.sequence@.len() - i,
{
    if i < 0 || i >= track.sequence@.len() {
        None
    } else {
        let entry = track.sequence@[i];
        match pattern_at(track, entry.clip_idx as int) {
            None => None,
            Some(p) => {
                let pat_rpb = effective_rpb(p, rpb);
                let clip_end = add_rows_spec(entry.start, p.rows as int, pat_rpb);
                if time.lt_spec(clip_end) {
                    Some(TrackPlaybackPosition {
                        group,
                        seq_index: i as usize,
                        clip_idx: entry.clip_idx,
                        row: row_at_spec(entry.start, time, pat_rpb, p.rows as int),
                    })
                } else {
                    position_from(track, group, time, rpb, i + 1)
                }
            },
        }
    }
}

/// The walk of [`position_from`] divides by a nonzero rows per beat, computes
/// clip ends without overflow, and starts clips at normalised times.
pub open spec fn position_walk_ok(track: Track, time: MusicalTime, rpb: int, i: int) -> bool
    decreases track.sequence@.len() - i,
{
    if i < 0 || i >= track.sequence@.len() {
        true
    } else {
        let entry = track.sequence@[i];
        match pattern_at(track, entry.clip_idx as int) {
            None => true,
            Some(p) => {
                let pat_rpb = effective_rpb(p, rpb);
                &&& pat_rpb > 0
                &&& can_add_sub_beats(entry.start, p.rows * sub_per_row(pat_rpb))
                &&& entry.start.wf()
                &&& !time.lt_spec(add_rows_spec(entry.start, p.rows as int, pat_rpb)) ==> position_walk_ok(track, time, rpb, i + 1)
            },
        }
    }
}

/// The position that [`time_to_track_position`] finds.
pub open spec fn track_position_spec(song: Song, time: MusicalTime, group: Option<u16>) -> Option<TrackPlaybackPosition> {
    match first_in_group(song.tracks@, group, 0) {
        None => None,
        Some(i) => position_from(song.tracks@[i], group, time, song.rows_per_beat as int, 0),
    }
}

/// The walk for `time` over the first track of `group` can be computed.
pub open spec fn track_position_computable(song: Song, time: MusicalTime, group: Option<u16>) -> bool {
    match first_in_group(song.tracks@, group, 0) {
        None => true,
        Some(i) => position_walk_ok(song.tracks@[i], time, song.rows_per_beat as int, 0),
    }
}

proof fn lemma_first_in_group_bounds(tracks: Seq<Track>, group: Option<u16>, i: int)
    ensures
        first_in_group(tracks, group, i) matches Some(j) ==> (0 <= j < tracks.len() && tracks[j].group == group),
    decreases tracks.len() - i,
{
    if 0 <= i < tracks.len() && tracks[i].group != group {
        lemma_first_in_group_bounds(tracks, group, i + 1);
    }
}

proof fn lemma_clip_span(start: MusicalTime, rows: int, rpb: int, time: MusicalTime)
    requires
        start.wf(),
        0 <= rows <= u16::MAX,
        0 < rpb,
        can_add_sub_beats(start, rows * sub_per_row(rpb)),
        time.lt_spec(add_rows_spec(start, rows, rpb)),
        !time.lt_spec(start),
    ensures
        row_at_computable(start, time),
{
    let u = SUB_BEAT_UNIT as int;
    assert(0 <= sub_per_row(rpb) <= u) by (nonlinear_arith) requires rpb > 0, sub_per_row(rpb) == u / rpb, u == 720720;
    assert(0 <= rows * sub_per_row(rpb) <= 65535 * u) by (nonlinear_arith)
        requires 0 <= rows <= 65535, 0 <= sub_per_row(rpb) <= u;
    assert((start.sub_beat + rows * sub_per_row(rpb)) / u <= 65536) by (nonlinear_arith)
        requires 0 <= start.sub_beat < u, 0 <= rows * sub_per_row(rpb) <= 65535 * u, u == 720720;
    let d = time.beat - start.beat;
    assert(0 <= d <= 65536);
    assert(d * u + time.sub_beat <= u64::MAX) by (nonlinear_arith)
        requires 0 <= d <= 65536, u == 720720, time.sub_beat <= u32::MAX;
    assert(d * u + time.sub_beat >= start.sub_beat) by (nonlinear_arith)
        requires d >= 0, u == 720720, start.sub_beat < u, d == 0 ==> time.sub_beat >= start.sub_beat;
}

fn find_group_track(tracks: &Vec<Track>, group: Option<u16>) -> (r: Option<usize>)
    ensures
        r matches Some(t) ==> first_in_group(tracks@, group, 0) == Some(t as int),
        r is None ==> first_in_group(tracks@, group, 0) is None,
{
    let mut t: usize = 0;
    while t < tracks.len()
        invariant
            t <= tracks@.len(),
            first_in_group(tracks@, group, 0) == first_in_group(tracks@, group, t as int),
        decreases tracks@.len() - t,
    {
        let same = match (tracks[t].group, group) {
            (Some(a), Some(b)) => a == b,
            (None, None) => true,
            _ => false,
        };
        if same {
            return Some(t);
        }
        t = t + 1;
    }
    None
}

/// Map a `MusicalTime` to a position within the per-track sequencing model.
///
/// Uses the first track in the given group to walk the sequence.
/// Returns `None` if time is past the end or no matching group.
pub fn time_to_track_position(song: &Song, time: MusicalTime, group: Option<u16>) -> (r: Option<TrackPlaybackPosition>)
    requires
        track_position_computable(*song, time, group),
    ensures
        r == track_position_spec(*song, time, group),
{
    let t = match find_group_track(&song.tracks, group) {
        Some(t) => t,
        None => return None,
    };
    proof {
        lemma_first_in_group_bounds(song.tracks@, group, 0);
    }
    let track = &song.tracks[t];
    let rpb = song.rows_per_beat as u32;
    let mut seq_index: usize = 0;
    while seq_index < track.sequence.len()
        invariant
            t < song.tracks@.len(),
            *track == song.tracks@[t as int],
            first_in_group(song.tracks@, group, 0) == Some(t as int),
            rpb == song.rows_per_beat,
            seq_index <= track.sequence@.len(),
            position_walk_ok(*track, time, rpb as int, seq_index as int),
            position_from(*track, group, time, rpb as int, 0) == position_from(*track, group, time, rpb as int, seq_index as int),
        decreases track.sequence@.len() - seq_index,
    {
        let entry = track.sequence[seq_index];
        let pattern = match track.get_pattern_at(entry.clip_idx as usize) {
            Some(p) => p,
            None => return None,
        };
        let pat_rpb = pattern_rpb(pattern, rpb);
        let clip_end = entry.start.add_rows(pattern.rows as u32, pat_rpb);
        if time < clip_end {
            proof {
                if !time.lt_spec(entry.start) {
                    lemma_clip_span(entry.start, pattern.rows as int, pat_rpb as int, time);
                }
            }
            let row = find_row_at(entry.start, time, pat_rpb, pattern.rows);
            return Some(TrackPlaybackPosition { group, seq_index, clip_idx: entry.clip_idx, row });
        }
        seq_index = seq_index + 1;
    }
    None
}

} // verus!
