//! Pattern-to-event scheduling.
//!
//! Walks a song's per-track clips and sequences, producing the events that
//! the engine consumes for playback. The walk is described once, as a step
//! function over a [`Cursor`]; the whole-song scheduler and the incremental
//! clip sources both follow it.
use vstd::prelude::*;
use crate::effects::{Effect, VolumeCommand};
use crate::event::{Event, EventPayload, EventTarget};
use crate::musical_time::{add_rows_spec, add_ticks_spec, can_add_sub_beats, sub_per_row, MusicalTime, SUB_BEAT_UNIT};
use crate::pattern::{Cell, Note, Pattern};
use crate::song::{effective_rpb, is_tracker_track, later, pattern_at, pattern_rpb, Clip, SeqEntry, Song, Track};

verus! {

/// Ticks a cell's note (and volume command) is delayed by.
pub open spec fn note_delay_spec(effect: Effect) -> int {
    match effect {
        Effect::NoteDelay(d) => if d > 0 { d as int } else { 0 },
        _ => 0,
    }
}

/// The effect is a tone portamento variant.
pub open spec fn is_tone_porta_spec(effect: Effect) -> bool {
    effect is TonePorta || effect is TonePortaVolSlide
}

/// The effect is consumed by the scheduler and never emitted as an event.
pub open spec fn is_directive_spec(effect: Effect) -> bool {
    effect is PatternBreak || effect is PositionJump || effect is PatternDelay || effect is NoteDelay
}

/// `v` read as a signed byte.
pub open spec fn byte_as_i8(v: u8) -> i8 {
    if v < 128 { v as i8 } else { (v - 256) as i8 }
}

/// A volume command can be turned into an effect without overflow (the
/// slide-down amount is negated as a signed byte).
pub open spec fn volume_command_ok(vol: VolumeCommand) -> bool {
    match vol {
        VolumeCommand::VolumeSlideDown(v) => v != 128,
        _ => true,
    }
}

/// The effect a volume column command stands for.
pub open spec fn volume_effect(vol: VolumeCommand) -> Option<Effect> {
    match vol {
        VolumeCommand::Empty => None,
        VolumeCommand::Volume(v) => Some(Effect::SetVolume(v)),
        VolumeCommand::Panning(p) => Some(Effect::SetPan(p)),
        VolumeCommand::TonePorta(v) => Some(Effect::TonePorta(v)),
        VolumeCommand::Vibrato(v) => Some(Effect::Vibrato { speed: 0, depth: v }),
        VolumeCommand::VolumeSlideDown(v) => Some(Effect::VolumeSlide((-byte_as_i8(v)) as i8)),
        VolumeCommand::VolumeSlideUp(v) => Some(Effect::VolumeSlide(byte_as_i8(v))),
        VolumeCommand::FineVolSlideDown(v) => Some(Effect::FineVolumeSlideDown(v)),
        VolumeCommand::FineVolSlideUp(v) => Some(Effect::FineVolumeSlideUp(v)),
        VolumeCommand::PortaDown(v) => Some(Effect::PortaDown(v)),
        VolumeCommand::PortaUp(v) => Some(Effect::PortaUp(v)),
    }
}

/// The events of a volume column command.
pub open spec fn volume_events(vol: VolumeCommand, time: MusicalTime, target: EventTarget) -> Seq<Event> {
    match volume_effect(vol) {
        None => seq![],
        Some(e) => seq![Event { time, target, payload: EventPayload::Effect(e) }],
    }
}

/// The events of an effect command: tempo and speed go to the global target,
/// scheduler directives produce nothing.
pub open spec fn effect_events(effect: Effect, time: MusicalTime, target: EventTarget) -> Seq<Event> {
    match effect {
        Effect::Empty => seq![],
        Effect::SetTempo(t) => seq![Event { time, target: EventTarget::Global, payload: EventPayload::SetTempo((t * 100) as u16) }],
        Effect::SetSpeed(s) => seq![Event { time, target: EventTarget::Global, payload: EventPayload::SetSpeed(s) }],
        _ => if is_directive_spec(effect) {
            seq![]
        } else {
            seq![Event { time, target, payload: EventPayload::Effect(effect) }]
        },
    }
}

/// The events of a cell's note.
pub open spec fn note_events(cell: Cell, time: MusicalTime, target: EventTarget) -> Seq<Event> {
    match cell.note {
        Note::On(note) => if is_tone_porta_spec(cell.effect) {
            seq![Event { time, target, payload: EventPayload::PortaTarget { note, instrument: cell.instrument } }]
        } else {
            seq![Event { time, target, payload: EventPayload::NoteOn { note, velocity: 64, instrument: cell.instrument } }]
        },
        Note::Off | Note::Fade => seq![Event { time, target, payload: EventPayload::NoteOff { note: 0 } }],
        Note::Empty => seq![],
    }
}

/// When a cell's note sounds: the row time, delayed by the note delay.
pub open spec fn note_time_spec(cell: Cell, time: MusicalTime, speed: int, rpb: int) -> MusicalTime {
    add_ticks_spec(time, note_delay_spec(cell.effect), speed * rpb)
}

/// All events of one cell: note, then volume command (both delayed by the
/// note delay), then effect (at the row time).
pub open spec fn cell_events(cell: Cell, time: MusicalTime, target: EventTarget, speed: int, rpb: int) -> Seq<Event> {
    let nt = note_time_spec(cell, time, speed, rpb);
    note_events(cell, nt, target) + volume_events(cell.volume, nt, target) + effect_events(cell.effect, time, target)
}

/// A cell can be scheduled without overflow.
pub open spec fn cell_schedulable(cell: Cell, time: MusicalTime, speed: int, rpb: int) -> bool {
    &&& speed * rpb <= u32::MAX
    &&& speed * rpb > 0 ==> can_add_sub_beats(time, note_delay_spec(cell.effect) * ((SUB_BEAT_UNIT as int) / (speed * rpb)))
    &&& volume_command_ok(cell.volume)
}

fn note_delay_amount(effect: &Effect) -> (r: u32)
    ensures
        r == note_delay_spec(*effect),
{
    match effect {
        Effect::NoteDelay(d) => if *d > 0 { *d as u32 } else { 0 },
        _ => 0,
    }
}

fn is_tone_porta(effect: &Effect) -> (r: bool)
    ensures
        r == is_tone_porta_spec(*effect),
{
    match effect {
        Effect::TonePorta(_) | Effect::TonePortaVolSlide(_) => true,
        _ => false,
    }
}

fn is_scheduler_directive(effect: &Effect) -> (r: bool)
    ensures
        r == is_directive_spec(*effect),
{
    match effect {
        Effect::PatternBreak(_) | Effect::PositionJump(_) | Effect::PatternDelay(_) | Effect::NoteDelay(_) => true,
        _ => false,
    }
}

pub(crate) fn signed_byte(v: u8) -> (r: i8)
    ensures
        r == byte_as_i8(v),
{
    let r = v as i8;
    assert(r == if v < 128 { v as i8 } else { (v - 256) as i8 }) by (bit_vector)
        requires r == v as i8;
    r
}

/// Convert a volume column command into an event.
fn schedule_volume_command(vol: &VolumeCommand, time: MusicalTime, target: EventTarget, events: &mut Vec<Event>)
    requires
        volume_command_ok(*vol),
    ensures
        final(events)@ == old(events)@ + volume_events(*vol, time, target),
{
    let effect = match vol {
        VolumeCommand::Empty => {
            assert(old(events)@ + seq![] =~= old(events)@);
            return;
        },
        VolumeCommand::Volume(v) => Effect::SetVolume(*v),
        VolumeCommand::Panning(p) => Effect::SetPan(*p),
        VolumeCommand::TonePorta(v) => Effect::TonePorta(*v),
        VolumeCommand::Vibrato(v) => Effect::Vibrato { speed: 0, depth: *v },
        VolumeCommand::VolumeSlideDown(v) => Effect::VolumeSlide(-signed_byte(*v)),
        VolumeCommand::VolumeSlideUp(v) => Effect::VolumeSlide(signed_byte(*v)),
        VolumeCommand::FineVolSlideDown(v) => Effect::FineVolumeSlideDown(*v),
        VolumeCommand::FineVolSlideUp(v) => Effect::FineVolumeSlideUp(*v),
        VolumeCommand::PortaDown(v) => Effect::PortaDown(*v),
        VolumeCommand::PortaUp(v) => Effect::PortaUp(*v),
    };
    events.push(Event::new(time, target, EventPayload::Effect(effect)));
    assert(events@ =~= old(events)@ + volume_events(*vol, time, target));
}

/// Convert an effect command into an event, routing tempo/speed to Global.
fn schedule_effect(effect: &Effect, time: MusicalTime, target: EventTarget, events: &mut Vec<Event>)
    ensures
        final(events)@ == old(events)@ + effect_events(*effect, time, target),
{
    match effect {
        Effect::Empty => {
            assert(events@ =~= old(events)@ + effect_events(*effect, time, target));
        },
        Effect::SetTempo(t) => {
            events.push(Event::new(time, EventTarget::Global, EventPayload::SetTempo(*t as u16 * 100)));
            assert(events@ =~= old(events)@ + effect_events(*effect, time, target));
        },
        Effect::SetSpeed(s) => {
            events.push(Event::new(time, EventTarget::Global, EventPayload::SetSpeed(*s)));
            assert(events@ =~= old(events)@ + effect_events(*effect, time, target));
        },
        _ => {
            if is_scheduler_directive(effect) {
                assert(events@ =~= old(events)@ + effect_events(*effect, time, target));
            } else {
                events.push(Event::new(time, target, EventPayload::Effect(*effect)));
                assert(events@ =~= old(events)@ + effect_events(*effect, time, target));
            }
        },
    }
}

/// Convert a single cell into events and append them to the output.
///
/// `speed` and `rpb` are needed for NoteDelay sub-beat computation:
/// ticks_per_beat = speed * rpb.
pub fn schedule_cell(cell: &Cell, time: MusicalTime, target: EventTarget, speed: u32, rpb: u32, events: &mut Vec<Event>)
    requires
        cell_schedulable(*cell, time, speed as int, rpb as int),
    ensures
        final(events)@ == old(events)@ + cell_events(*cell, time, target, speed as int, rpb as int),
{
    let delay = note_delay_amount(&cell.effect);
    let tpb = speed * rpb;
    let note_time = time.add_ticks(delay, tpb);
    let ghost e0 = events@;
    match cell.note {
        Note::On(note) => {
            if is_tone_porta(&cell.effect) {
                events.push(Event::new(note_time, target, EventPayload::PortaTarget { note, instrument: cell.instrument }));
            } else {
                events.push(Event::new(note_time, target, EventPayload::NoteOn { note, velocity: 64, instrument: cell.instrument }));
            }
        },
        Note::Off | Note::Fade => {
            events.push(Event::new(note_time, target, EventPayload::NoteOff { note: 0 }));
        },
        Note::Empty => {},
    }
    assert(events@ =~= e0 + note_events(*cell, note_time, target));
    // Volume command is delayed with the note
    schedule_volume_command(&cell.volume, note_time, target, events);
    // Effect fires at row time (except NoteDelay/PatternDelay are consumed)
    schedule_effect(&cell.effect, time, target, events);
    assert(events@ =~= old(events)@ + cell_events(*cell, time, target, speed as int, rpb as int));
}

/// Build the event target for a track column.
pub open spec fn column_target(track: Track, column: int) -> EventTarget {
    match track.machine_node {
        Some(node_id) => EventTarget::NodeChannel(node_id, column as u8),
        None => EventTarget::Channel((track.base_channel + column) as u8),
    }
}

/// Build the event target for a track column.
pub fn target_for_track_column(track: &Track, column: u8) -> (r: EventTarget)
    requires
        track.machine_node.is_none() ==> track.base_channel + column <= u8::MAX,
    ensures
        r == column_target(*track, column as int),
{
    match track.machine_node {
        Some(node_id) => EventTarget::NodeChannel(node_id, column),
        None => EventTarget::Channel(track.base_channel + column),
    }
}

/// Resolve engine channel index from a track column.
pub fn track_column_to_channel(track: &Track, column: u8) -> (r: u8)
    requires
        track.base_channel + column <= u8::MAX,
    ensures
        r == track.base_channel + column,
{
    track.base_channel + column
}

/// Flow control state extracted from a pattern row.
#[derive(Clone, Copy, Debug)]
pub struct FlowControl {
    /// Row to start the next entry at (pattern break)
    pub break_row: Option<u8>,
    /// Sequence position to jump to (position jump)
    pub jump_order: Option<u8>,
    /// New speed (set speed with a nonzero value)
    pub new_speed: Option<u32>,
    /// Extra rows the row lasts (pattern delay)
    pub pattern_delay: u8,
}

/// No flow control.
pub open spec fn no_flow() -> FlowControl {
    FlowControl { break_row: None, jump_order: None, new_speed: None, pattern_delay: 0 }
}

/// Flow control of the first `n` columns of a row; a later column overrides
/// an earlier one.
pub open spec fn flow_upto(p: Pattern, row: int, n: int) -> FlowControl
    decreases n,
{
    if n <= 0 {
        no_flow()
    } else {
        let fc = flow_upto(p, row, n - 1);
        match p.cell_at(row, n - 1).effect {
            Effect::PatternBreak(r) => FlowControl { break_row: Some(r), ..fc },
            Effect::PositionJump(j) => FlowControl { jump_order: Some(j), ..fc },
            Effect::SetSpeed(s) => if s > 0 { FlowControl { new_speed: Some(s as u32), ..fc } } else { fc },
            Effect::PatternDelay(d) => FlowControl { pattern_delay: d, ..fc },
            _ => fc,
        }
    }
}

proof fn lemma_flow_speed_fits(p: Pattern, row: int, n: int)
    ensures
        flow_upto(p, row, n).new_speed matches Some(s) ==> s <= 255,
    decreases n,
{
    if n > 0 {
        lemma_flow_speed_fits(p, row, n - 1);
    }
}

/// Flow control of a row across all its columns (none past the last row).
pub open spec fn flow_spec(p: Pattern, row: int) -> FlowControl {
    if row >= p.rows { no_flow() } else { flow_upto(p, row, p.channels as int) }
}

/// Scan flow control effects across all columns of a pattern at a given row.
fn scan_row_flow_control(pattern: &Pattern, row: u16) -> (r: FlowControl)
    requires
        pattern.wf(),
    ensures
        r == flow_spec(*pattern, row as int),
{
    let mut fc = FlowControl { break_row: None, jump_order: None, new_speed: None, pattern_delay: 0 };
    if row >= pattern.rows {
        return fc;
    }
    let mut col: u8 = 0;
    while col < pattern.channels
        invariant
            pattern.wf(),
            row < pattern.rows,
            col <= pattern.channels,
            fc == flow_upto(*pattern, row as int, col as int),
        decreases pattern.channels - col,
    {
        match pattern.cell(row, col).effect {
            Effect::PatternBreak(r) => fc.break_row = Some(r),
            Effect::PositionJump(p) => fc.jump_order = Some(p),
            Effect::SetSpeed(s) => if s > 0 { fc.new_speed = Some(s as u32) },
            Effect::PatternDelay(d) => fc.pattern_delay = d,
            _ => {},
        }
        col = col + 1;
    }
    fc
}

/// Speed of a pattern: its own ticks per row, or the running speed.
pub open spec fn pattern_speed(p: Pattern, global_speed: u32) -> u32 {
    if p.ticks_per_row > 0 { p.ticks_per_row as u32 } else { global_speed }
}

/// Resolve effective speed for a pattern row.
fn effective_speed(pattern: &Pattern, global_speed: u32) -> (r: u32)
    ensures
        r == pattern_speed(*pattern, global_speed),
{
    if pattern.ticks_per_row > 0 {
        pattern.ticks_per_row as u32
    } else {
        global_speed
    }
}

/// The events of the first `n` columns of a row.
pub open spec fn row_events_upto(track: Track, p: Pattern, row: int, time: MusicalTime, speed: int, rpb: int, n: int) -> Seq<Event>
    decreases n,
{
    if n <= 0 {
        seq![]
    } else {
        row_events_upto(track, p, row, time, speed, rpb, n - 1)
            + cell_events(p.cell_at(row, n - 1), time, column_target(track, n - 1), speed, rpb)
    }
}

/// The events of a whole row, column by column.
pub open spec fn row_events(track: Track, p: Pattern, row: int, time: MusicalTime, speed: int, rpb: int) -> Seq<Event> {
    row_events_upto(track, p, row, time, speed, rpb, p.channels as int)
}

/// The start of sequence entry `idx`, or `current` past the end.
pub open spec fn entry_start_or(track: Track, idx: int, current: MusicalTime) -> MusicalTime {
    if 0 <= idx < track.sequence@.len() { track.sequence@[idx].start } else { current }
}

/// Get the start time for a sequence entry, falling back to the current time.
///
/// For MOD files (contiguous entries) this equals where the linear time
/// would be; for BMX files (absolute positions) it jumps to the entry's
/// timeline position.
fn advance_to_seq_entry(track: &Track, seq_idx: usize, current: MusicalTime) -> (r: MusicalTime)
    ensures
        r == entry_start_or(*track, seq_idx as int, current),
{
    if seq_idx < track.sequence.len() {
        track.sequence[seq_idx].start
    } else {
        current
    }
}

/// Position of a walk over a track's sequence.
#[derive(Clone, Copy, Debug)]
pub struct Cursor {
    /// Current sequence entry index
    pub seq_idx: usize,
    /// Current row within the current clip
    pub row: u16,
    /// Current musical time
    pub time: MusicalTime,
    /// Current speed (ticks per row), updated by SetSpeed effects
    pub speed: u32,
    /// Rows played so far
    pub rows_processed: u64,
}

/// What one step of a walk did.
#[derive(Clone, Copy, Debug, PartialEq, Eq, Structural)]
pub enum StepKind {
    /// The sequence is over; nothing changed.
    Done,
    /// Moved to another sequence entry without playing a row.
    Skipped,
    /// Played one row.
    Played,
    /// Played one row and used up the row budget; the walk is over.
    Exhausted,
}

/// The rows of entry `length` that play from a clip of `rows` rows.
pub open spec fn min_rows(length: u16, rows: u16) -> u16 {
    if length <= rows { length } else { rows }
}

/// Play the row under the cursor from pattern `p` (`num_rows` rows long in
/// this entry): the row's events, the cursor after it, and whether the row
/// budget ran out.
pub open spec fn play_row(track: Track, song_rpb: int, max_rows: u64, c: Cursor, p: Pattern, num_rows: u16) -> (StepKind, Seq<Event>, Cursor) {
    let rpb = effective_rpb(p, song_rpb);
    let speed = pattern_speed(p, c.speed);
    let evs = row_events(track, p, c.row as int, c.time, speed as int, rpb);
    let fc = flow_spec(p, c.row as int);
    let new_speed = match fc.new_speed {
        Some(s) => s,
        None => c.speed,
    };
    let t = add_rows_spec(c.time, 1 + fc.pattern_delay, rpb);
    if c.rows_processed + 1 >= max_rows {
        (StepKind::Exhausted, evs, Cursor { time: t, speed: new_speed, rows_processed: (c.rows_processed + 1) as u64, ..c })
    } else {
        let rp = (c.rows_processed + 1) as u64;
        let next = match (fc.jump_order, fc.break_row) {
            (Some(pos), Some(r)) => Cursor { seq_idx: pos as usize, row: r as u16, time: t, speed: new_speed, rows_processed: rp },
            (Some(pos), None) => Cursor { seq_idx: pos as usize, row: 0, time: t, speed: new_speed, rows_processed: rp },
            (None, Some(r)) => Cursor { seq_idx: (c.seq_idx + 1) as usize, row: r as u16, time: t, speed: new_speed, rows_processed: rp },
            (None, None) => if c.row + 1 >= num_rows {
                Cursor {
                    seq_idx: (c.seq_idx + 1) as usize,
                    row: 0,
                    time: entry_start_or(track, c.seq_idx + 1, t),
                    speed: new_speed,
                    rows_processed: rp,
                }
            } else {
                Cursor { row: (c.row + 1) as u16, time: t, speed: new_speed, rows_processed: rp, ..c }
            },
        };
        (StepKind::Played, evs, next)
    }
}

/// One step of the walk: what it did, the events it produced, the cursor
/// after it.
pub open spec fn step(track: Track, song_rpb: int, max_rows: u64, c: Cursor) -> (StepKind, Seq<Event>, Cursor) {
    if c.seq_idx >= track.sequence.len() {
        (StepKind::Done, seq![], c)
    } else {
        let entry = track.sequence@[c.seq_idx as int];
        let skip = Cursor {
            seq_idx: (c.seq_idx + 1) as usize,
            row: 0,
            time: entry_start_or(track, c.seq_idx + 1, c.time),
            ..c
        };
        match pattern_at(track, entry.clip_idx as int) {
            None => (StepKind::Skipped, seq![], skip),
            Some(p) => if c.seq_idx + 1 < track.sequence.len() && !c.time.lt_spec(track.sequence@[c.seq_idx + 1].start) {
                (StepKind::Skipped, seq![], skip)
            } else if c.row >= min_rows(entry.length, p.rows) {
                (StepKind::Skipped, seq![], skip)
            } else {
                play_row(track, song_rpb, max_rows, c, p, min_rows(entry.length, p.rows))
            },
        }
    }
}

/// Rows left before the walk stops.
pub open spec fn rows_left(max_rows: u64, c: Cursor) -> int {
    if max_rows > c.rows_processed { max_rows - c.rows_processed } else { 0 }
}

/// Sequence entries left after the cursor's.
pub open spec fn entries_left(track: Track, c: Cursor) -> int {
    if track.sequence.len() > c.seq_idx { track.sequence.len() - c.seq_idx } else { 0 }
}

/// The whole walk from `c`: the events it produces and the time it ends at.
pub open spec fn run(track: Track, song_rpb: int, max_rows: u64, c: Cursor) -> (Seq<Event>, MusicalTime)
    decreases rows_left(max_rows, c), entries_left(track, c),
{
    let s = step(track, song_rpb, max_rows, c);
    match s.0 {
        StepKind::Done => (seq![], c.time),
        StepKind::Exhausted => (s.1, s.2.time),
        StepKind::Skipped => run(track, song_rpb, max_rows, s.2),
        StepKind::Played => {
            let r = run(track, song_rpb, max_rows, s.2);
            (s.1 + r.0, r.1)
        },
    }
}

/// Bound on the beats a time moves forward by one row of up to 256 rows'
/// length, or by a note delay of up to 255 ticks: `(u32::MAX + 256 *
/// SUB_BEAT_UNIT) / SUB_BEAT_UNIT`, rounded up.
pub const ROW_BEAT_ADVANCE: u64 = 6216;

/// Every clip pattern can be walked: well-formed, with a nonzero rows per
/// beat, channel targets that fit in a byte and volume commands that convert
/// without overflow; and no entry starts so late that walking `max_rows` rows
/// from it could overflow the beat counter.
pub open spec fn track_ok(track: Track, song_rpb: int, max_rows: u64) -> bool {
    &&& forall|i: int| 0 <= i < track.clips@.len() ==> {
        let p = #[trigger] track.clips@[i].pattern_spec();
        &&& p.wf()
        &&& effective_rpb(p, song_rpb) > 0
        &&& track.machine_node.is_none() ==> track.base_channel + p.channels <= 256
        &&& forall|k: int| 0 <= k < p.data@.len() ==> volume_command_ok(#[trigger] p.data@[k].volume)
    }
    &&& forall|j: int| 0 <= j < track.sequence@.len() ==>
        (#[trigger] track.sequence@[j]).start.beat + ROW_BEAT_ADVANCE * max_rows <= u64::MAX
}

/// A cursor whose speed fits in a byte and whose time leaves room for the
/// rows it may still play.
pub open spec fn cursor_ok(max_rows: u64, c: Cursor) -> bool {
    &&& c.speed <= 255
    &&& c.rows_processed <= max_rows
    &&& c.time.beat + ROW_BEAT_ADVANCE * (max_rows - c.rows_processed) <= u64::MAX
}

proof fn lemma_advance_fits(t: MusicalTime, delta: int)
    requires
        0 <= delta <= 256 * (SUB_BEAT_UNIT as int),
        t.beat + ROW_BEAT_ADVANCE <= u64::MAX,
    ensures
        can_add_sub_beats(t, delta),
        t.beat + (t.sub_beat + delta) / (SUB_BEAT_UNIT as int) <= t.beat + ROW_BEAT_ADVANCE,
{
    assert((t.sub_beat + delta) / 720720int <= 6216) by (nonlinear_arith)
        requires 0 <= t.sub_beat <= 0xffff_ffff, 0 <= delta <= 256 * 720720;
}

proof fn lemma_headroom_after_row(b0: int, b1: int, m: int, r: int)
    requires
        b1 <= b0 + ROW_BEAT_ADVANCE,
        b0 + ROW_BEAT_ADVANCE * (m - r) <= u64::MAX,
        r < m,
    ensures
        b1 + ROW_BEAT_ADVANCE * (m - (r + 1)) <= u64::MAX,
{
    assert(ROW_BEAT_ADVANCE * (m - r) == ROW_BEAT_ADVANCE * (m - (r + 1)) + ROW_BEAT_ADVANCE) by (nonlinear_arith);
}

proof fn lemma_headroom_at_entry(start: int, m: int, r: int)
    requires
        start + ROW_BEAT_ADVANCE * m <= u64::MAX,
        0 <= r <= m,
    ensures
        start + ROW_BEAT_ADVANCE * (m - r) <= u64::MAX,
{
    assert(ROW_BEAT_ADVANCE * (m - r) <= ROW_BEAT_ADVANCE * m) by (nonlinear_arith) requires 0 <= r <= m;
}

proof fn lemma_per_unit_bound(n: int, d: int)
    requires
        0 <= n <= 256,
        d >= 1,
    ensures
        0 <= n * ((SUB_BEAT_UNIT as int) / d) <= 256 * (SUB_BEAT_UNIT as int),
{
    assert(0 <= (720720int / d) <= 720720) by (nonlinear_arith) requires d >= 1;
    assert(0 <= n * (720720int / d) <= 256 * 720720) by (nonlinear_arith)
        requires 0 <= n <= 256, 0 <= (720720int / d) <= 720720;
}

/// Play one row of `clip` under the cursor: append the events of every column.
fn play_columns(track: &Track, clip: &Pattern, row: u16, time: MusicalTime, speed: u32, rpb: u32, out: &mut Vec<Event>)
    requires
        clip.wf(),
        row < clip.rows,
        speed <= 255,
        0 < rpb <= 255,
        time.beat + ROW_BEAT_ADVANCE <= u64::MAX,
        track.machine_node.is_none() ==> track.base_channel + clip.channels <= 256,
        forall|k: int| 0 <= k < clip.data@.len() ==> volume_command_ok(#[trigger] clip.data@[k].volume),
    ensures
        final(out)@ == old(out)@ + row_events(*track, *clip, row as int, time, speed as int, rpb as int),
{
    let mut col: u8 = 0;
    while col < clip.channels
        invariant
            clip.wf(),
            row < clip.rows,
            speed <= 255,
            0 < rpb <= 255,
            time.beat + ROW_BEAT_ADVANCE <= u64::MAX,
            track.machine_node.is_none() ==> track.base_channel + clip.channels <= 256,
            forall|k: int| 0 <= k < clip.data@.len() ==> volume_command_ok(#[trigger] clip.data@[k].volume),
            col <= clip.channels,
            out@ == old(out)@ + row_events_upto(*track, *clip, row as int, time, speed as int, rpb as int, col as int),
        decreases clip.channels - col,
    {
        let target = target_for_track_column(track, col);
        let cell = clip.cell(row, col);
        proof {
            crate::pattern::lemma_cell_index_in_bounds(row as int, col as int, clip.rows as int, clip.channels as int);
            assert(volume_command_ok(clip.data@[clip.index_of(row as int, col as int)].volume));
            assert(speed * rpb <= 255 * 255) by (nonlinear_arith) requires speed <= 255, rpb <= 255;
            if speed * rpb > 0 {
                lemma_per_unit_bound(note_delay_spec(cell.effect), speed * rpb);
                lemma_advance_fits(time, note_delay_spec(cell.effect) * ((SUB_BEAT_UNIT as int) / (speed * rpb)));
            }
        }
        schedule_cell(cell, time, target, speed, rpb, out);
        proof {
            assert(out@ =~= old(out)@ + row_events_upto(*track, *clip, row as int, time, speed as int, rpb as int, col + 1));
        }
        col = col + 1;
    }
}

/// Take one step of the walk over `track` (rows per beat `song_rpb` where a
/// pattern has none, at most `max_rows` rows): move the cursor and append the
/// events of the row it played, if any.
pub(crate) fn step_cursor(track: &Track, song_rpb: u32, max_rows: u64, c: &mut Cursor, out: &mut Vec<Event>) -> (k: StepKind)
    requires
        song_rpb <= 255,
        track_ok(*track, song_rpb as int, max_rows),
        cursor_ok(max_rows, *old(c)),
        old(c).rows_processed < max_rows,
    ensures
        ({
            let s = step(*track, song_rpb as int, max_rows, *old(c));
            &&& k == s.0
            &&& final(out)@ == old(out)@ + s.1
            &&& *final(c) == s.2
        }),
        cursor_ok(max_rows, *final(c)),
        k != StepKind::Exhausted ==> final(c).rows_processed < max_rows,
{
    let ghost c0 = *c;
    if c.seq_idx >= track.sequence.len() {
        assert(out@ =~= old(out)@ + seq![]);
        return StepKind::Done;
    }
    let entry = track.sequence[c.seq_idx];
    let clip = match track.get_pattern_at(entry.clip_idx as usize) {
        Some(p) => p,
        None => {
            c.seq_idx = c.seq_idx + 1;
            c.row = 0;
            c.time = advance_to_seq_entry(track, c.seq_idx, c.time);
            assert(out@ =~= old(out)@ + seq![]);
            return StepKind::Skipped;
        },
    };
    let ghost clip_at = choose|i: int| 0 <= i < track.clips@.len() && track.clips@[i].pattern_spec() == *clip;
    assert(track.clips@[entry.clip_idx as int].pattern_spec() == *clip);
    let num_rows = if entry.length <= clip.rows { entry.length } else { clip.rows };
    let rpb = pattern_rpb(clip, song_rpb);
    let eff_speed = effective_speed(clip, c.speed);

    // Truncate: if current time has reached the next entry's start, advance
    if c.seq_idx + 1 < track.sequence.len() {
        let ns = track.sequence[c.seq_idx + 1].start;
        if c.time >= ns {
            c.seq_idx = c.seq_idx + 1;
            c.row = 0;
            c.time = ns;
            assert(out@ =~= old(out)@ + seq![]);
            return StepKind::Skipped;
        }
    }
    if c.row >= num_rows {
        c.seq_idx = c.seq_idx + 1;
        c.row = 0;
        c.time = advance_to_seq_entry(track, c.seq_idx, c.time);
        assert(out@ =~= old(out)@ + seq![]);
        return StepKind::Skipped;
    }

    // Schedule all columns at this row
    play_columns(track, clip, c.row, c.time, eff_speed, rpb, out);

    let fc = scan_row_flow_control(clip, c.row);
    proof {
        lemma_flow_speed_fits(*clip, c.row as int, clip.channels as int);
    }
    if let Some(s) = fc.new_speed {
        c.speed = s;
    }
    proof {
        lemma_per_unit_bound(1 + fc.pattern_delay, rpb as int);
        lemma_advance_fits(c.time, (1 + fc.pattern_delay) * sub_per_row(rpb as int));
    }
    c.time = c.time.add_rows(1 + fc.pattern_delay as u32, rpb);
    proof {
        lemma_headroom_after_row(c0.time.beat as int, c.time.beat as int, max_rows as int, c0.rows_processed as int);
    }
    c.rows_processed = c.rows_processed + 1;
    if c.rows_processed >= max_rows {
        return StepKind::Exhausted;
    }
    match (fc.jump_order, fc.break_row) {
        // Flow control: keep linear time (SeqEntry.start assumes no breaks)
        (Some(pos), Some(r)) => {
            c.seq_idx = pos as usize;
            c.row = r as u16;
        },
        (Some(pos), None) => {
            c.seq_idx = pos as usize;
            c.row = 0;
        },
        (None, Some(r)) => {
            c.seq_idx = c.seq_idx + 1;
            c.row = r as u16;
        },
        // Normal advancement: use absolute SeqEntry.start
        (None, None) => {
            c.row = c.row + 1;
            if c.row >= num_rows {
                c.seq_idx = c.seq_idx + 1;
                c.row = 0;
                proof {
                    if c.seq_idx < track.sequence@.len() {
                        let e = track.sequence@[c.seq_idx as int];
                        lemma_headroom_at_entry(e.start.beat as int, max_rows as int, c.rows_processed as int);
                    }
                }
                c.time = advance_to_seq_entry(track, c.seq_idx, c.time);
            }
        },
    }
    StepKind::Played
}

/// Rows of all clip patterns together.
pub open spec fn clip_rows_sum(clips: Seq<Clip>) -> int
    decreases clips.len(),
{
    if clips.len() == 0 {
        0
    } else {
        clip_rows_sum(clips.drop_last()) + clips.last().pattern_spec().rows
    }
}

/// Lengths of all sequence entries together.
pub open spec fn seq_length_sum(entries: Seq<SeqEntry>) -> int
    decreases entries.len(),
{
    if entries.len() == 0 {
        0
    } else {
        seq_length_sum(entries.drop_last()) + entries.last().length
    }
}

/// The row budget of a walk over `track`: twice the larger of the clip rows
/// and the entry lengths, times the channel count (at least one), plus 256.
/// A walk that loops through position jumps stops there.
pub open spec fn max_rows_spec(track: Track) -> int {
    let clips = clip_rows_sum(track.clips@);
    let entries = seq_length_sum(track.sequence@);
    let rows = if clips >= entries { clips } else { entries };
    let channels = if track.num_channels >= 1 { track.num_channels as int } else { 1 };
    rows * channels * 2 + 256
}

proof fn lemma_clip_rows_prefix(clips: Seq<Clip>, i: int)
    requires
        0 <= i <= clips.len(),
    ensures
        0 <= clip_rows_sum(clips.take(i)) <= clip_rows_sum(clips),
    decreases clips.len(),
{
    if i == clips.len() {
        assert(clips.take(i) =~= clips);
        if clips.len() > 0 {
            lemma_clip_rows_prefix(clips.drop_last(), i - 1);
            assert(clips.drop_last().take(i - 1) =~= clips.drop_last());
        }
    } else {
        lemma_clip_rows_prefix(clips.drop_last(), i);
        assert(clips.drop_last().take(i) =~= clips.take(i));
    }
}

proof fn lemma_seq_length_prefix(entries: Seq<SeqEntry>, i: int)
    requires
        0 <= i <= entries.len(),
    ensures
        0 <= seq_length_sum(entries.take(i)) <= seq_length_sum(entries),
    decreases entries.len(),
{
    if i == entries.len() {
        assert(entries.take(i) =~= entries);
        if entries.len() > 0 {
            lemma_seq_length_prefix(entries.drop_last(), i - 1);
            assert(entries.drop_last().take(i - 1) =~= entries.drop_last());
        }
    } else {
        lemma_seq_length_prefix(entries.drop_last(), i);
        assert(entries.drop_last().take(i) =~= entries.take(i));
    }
}

/// Compute the row budget of a walk over `track` (see [`max_rows_spec`]).
pub(crate) fn compute_max_rows(track: &Track) -> (r: u64)
    requires
        max_rows_spec(*track) <= u64::MAX,
    ensures
        r == max_rows_spec(*track),
        r >= 256,
{
    let channels: u64 = if track.num_channels as u64 >= 1 { track.num_channels as u64 } else { 1 };
    let ghost total_clips = clip_rows_sum(track.clips@);
    let ghost total_entries = seq_length_sum(track.sequence@);
    proof {
        let rows = if total_clips >= total_entries { total_clips } else { total_entries };
        lemma_clip_rows_prefix(track.clips@, 0);
        lemma_seq_length_prefix(track.sequence@, 0);
        assert(rows <= rows * channels * 2) by (nonlinear_arith) requires rows >= 0, channels >= 1;
    }
    let mut from_clips: u64 = 0;
    let mut i: usize = 0;
    while i < track.clips.len()
        invariant
            i <= track.clips@.len(),
            from_clips == clip_rows_sum(track.clips@.take(i as int)),
            total_clips == clip_rows_sum(track.clips@),
            total_clips <= u64::MAX,
        decreases track.clips@.len() - i,
    {
        proof {
            lemma_clip_rows_prefix(track.clips@, i + 1);
            assert(track.clips@.take(i + 1).drop_last() =~= track.clips@.take(i as int));
        }
        match track.clips[i].pattern() {
            Some(p) => from_clips = from_clips + p.rows as u64,
            None => {},
        }
        i = i + 1;
    }
    proof {
        assert(track.clips@.take(i as int) =~= track.clips@);
    }
    let mut from_seq: u64 = 0;
    let mut j: usize = 0;
    while j < track.sequence.len()
        invariant
            j <= track.sequence@.len(),
            from_seq == seq_length_sum(track.sequence@.take(j as int)),
            total_entries == seq_length_sum(track.sequence@),
            total_entries <= u64::MAX,
        decreases track.sequence@.len() - j,
    {
        proof {
            lemma_seq_length_prefix(track.sequence@, j + 1);
            assert(track.sequence@.take(j + 1).drop_last() =~= track.sequence@.take(j as int));
        }
        from_seq = from_seq + track.sequence[j].length as u64;
        j = j + 1;
    }
    proof {
        assert(track.sequence@.take(j as int) =~= track.sequence@);
    }
    let rows = if from_clips >= from_seq { from_clips } else { from_seq };
    proof {
        assert(0 <= rows * channels <= rows * channels * 2) by (nonlinear_arith) requires rows >= 0, channels >= 1;
    }
    rows * channels * 2 + 256
}

/// Where the walk over a track starts: its first entry's start, row 0, at
/// the song's initial speed.
pub open spec fn start_cursor(track: Track, song: Song) -> Cursor {
    Cursor {
        seq_idx: 0,
        row: 0,
        time: entry_start_or(track, 0, MusicalTime { beat: 0, sub_beat: 0 }),
        speed: song.initial_speed as u32,
        rows_processed: 0,
    }
}

/// A track of `song` can be walked without overflow.
pub open spec fn track_schedulable(track: Track, song: Song) -> bool {
    &&& max_rows_spec(track) <= u64::MAX
    &&& track_ok(track, song.rows_per_beat as int, max_rows_spec(track) as u64)
}

/// The events of a track and the time its walk ends at (zero for an empty
/// sequence).
pub open spec fn track_schedule(track: Track, song: Song) -> (Seq<Event>, MusicalTime) {
    if track.sequence@.len() == 0 {
        (seq![], MusicalTime { beat: 0, sub_beat: 0 })
    } else {
        run(track, song.rows_per_beat as int, max_rows_spec(track) as u64, start_cursor(track, song))
    }
}

/// Schedule events for a single track (walks sequence, iterates multi-channel patterns).
fn schedule_track(track: &Track, song: &Song, events: &mut Vec<Event>) -> (r: MusicalTime)
    requires
        track_schedulable(*track, *song),
    ensures
        final(events)@ == old(events)@ + track_schedule(*track, *song).0,
        r == track_schedule(*track, *song).1,
{
    if track.sequence.len() == 0 {
        assert(events@ =~= old(events)@ + seq![]);
        return MusicalTime::zero();
    }
    let song_rpb = song.rows_per_beat as u32;
    let max_rows = compute_max_rows(track);
    let mut c = Cursor {
        seq_idx: 0,
        row: 0,
        time: track.sequence[0].start,
        speed: song.initial_speed as u32,
        rows_processed: 0,
    };
    let ghost total = track_schedule(*track, *song);
    proof {
        assert(c == start_cursor(*track, *song));
        let e = track.sequence@[0];
        lemma_headroom_at_entry(e.start.beat as int, max_rows as int, 0);
        assert(events@ + total.0 =~= old(events)@ + total.0);
    }
    loop
        invariant_except_break
            track_ok(*track, song_rpb as int, max_rows),
            song_rpb <= 255,
            cursor_ok(max_rows, c),
            c.rows_processed < max_rows,
            events@ + run(*track, song_rpb as int, max_rows, c).0 == old(events)@ + total.0,
            run(*track, song_rpb as int, max_rows, c).1 == total.1,
        ensures
            events@ == old(events)@ + total.0,
            c.time == total.1,
        decreases rows_left(max_rows, c), entries_left(*track, c),
    {
        let ghost before = c;
        let ghost e0 = events@;
        let k = step_cursor(track, song_rpb, max_rows, &mut c, events);
        match k {
            StepKind::Done => {
                assert(events@ =~= events@ + seq![]);
                break;
            },
            StepKind::Exhausted => {
                break;
            },
            StepKind::Skipped => {},
            StepKind::Played => {
                let ghost r = run(*track, song_rpb as int, max_rows, c);
                assert(events@ + r.0 =~= e0 + run(*track, song_rpb as int, max_rows, before).0);
            },
        }
    }
    c.time
}

/// Result of scheduling a song: events and total length.
pub struct ScheduleResult {
    /// All events, track by track
    pub events: Vec<Event>,
    /// The latest time any track's walk ends at
    pub total_time: MusicalTime,
}

/// The track takes part in scheduling: not muted, and driven by the tracker.
pub open spec fn is_scheduled(song: Song, track: Track) -> bool {
    !track.muted && is_tracker_track(song.graph, track)
}

/// The schedule of the first `n` tracks: their events one track after the
/// other, and the latest end time (zero when none is scheduled).
pub open spec fn song_schedule(song: Song, n: int) -> (Seq<Event>, MusicalTime)
    decreases n,
{
    if n <= 0 {
        (seq![], MusicalTime { beat: 0, sub_beat: 0 })
    } else {
        let prev = song_schedule(song, n - 1);
        let track = song.tracks@[n - 1];
        if is_scheduled(song, track) {
            let r = track_schedule(track, song);
            (prev.0 + r.0, later(prev.1, r.1))
        } else {
            prev
        }
    }
}

/// Every scheduled track of the song can be walked without overflow.
pub open spec fn song_schedulable(song: Song) -> bool {
    forall|i: int| 0 <= i < song.tracks@.len() && is_scheduled(song, #[trigger] song.tracks@[i])
        ==> track_schedulable(song.tracks@[i], song)
}

/// Schedule all events from per-track clips + sequences.
pub fn schedule_song(song: &Song) -> (r: ScheduleResult)
    requires
        song_schedulable(*song),
    ensures
        r.events@ == song_schedule(*song, song.tracks@.len() as int).0,
        r.total_time == song_schedule(*song, song.tracks@.len() as int).1,
{
    let mut events: Vec<Event> = Vec::new();
    let mut max_time = MusicalTime::zero();
    let mut i: usize = 0;
    while i < song.tracks.len()
        invariant
            i <= song.tracks@.len(),
            song_schedulable(*song),
            events@ == song_schedule(*song, i as int).0,
            max_time == song_schedule(*song, i as int).1,
        decreases song.tracks@.len() - i,
    {
        let track = &song.tracks[i];
        if !track.muted && song.is_tracker(track) {
            let t = schedule_track(track, song, &mut events);
            if t > max_time {
                max_time = t;
            }
        }
        i = i + 1;
    }
    ScheduleResult { events, total_time: max_time }
}

/// The time at which `row` of clip `clip_idx` plays in entry `e`, if the
/// entry plays that clip and reaches that row.
pub open spec fn entry_row_time(track: Track, e: SeqEntry, clip_idx: u16, row: u16, song_rpb: int) -> Option<MusicalTime> {
    if e.clip_idx == clip_idx && e.length > 0 {
        match pattern_at(track, e.clip_idx as int) {
            None => None,
            Some(p) => if row >= min_rows(e.length, p.rows) {
                None
            } else {
                Some(add_rows_spec(e.start, row as int, effective_rpb(p, song_rpb)))
            },
        }
    } else {
        None
    }
}

/// The times found in the first `n` entries, in sequence order.
pub open spec fn row_times(track: Track, clip_idx: u16, row: u16, song_rpb: int, n: int) -> Seq<MusicalTime>
    decreases n,
{
    if n <= 0 {
        seq![]
    } else {
        let prev = row_times(track, clip_idx, row, song_rpb, n - 1);
        match entry_row_time(track, track.sequence@[n - 1], clip_idx, row, song_rpb) {
            Some(t) => prev.push(t),
            None => prev,
        }
    }
}

/// Every entry that reaches `row` of clip `clip_idx` has a nonzero rows per
/// beat and a start from which `row` rows do not overflow.
pub open spec fn row_times_computable(track: Track, clip_idx: u16, row: u16, song_rpb: int) -> bool {
    forall|j: int| 0 <= j < track.sequence@.len() ==> {
        let e = #[trigger] track.sequence@[j];
        (e.clip_idx == clip_idx && e.length > 0) ==> match pattern_at(track, e.clip_idx as int) {
            None => true,
            Some(p) => row < min_rows(e.length, p.rows) ==> {
                &&& effective_rpb(p, song_rpb) > 0
                &&& can_add_sub_beats(e.start, row * sub_per_row(effective_rpb(p, song_rpb)))
            },
        }
    }
}

/// Find all MusicalTimes at which a given track clip + row appears in the sequence.
pub fn time_for_track_clip_row(track: &Track, clip_idx: u16, row: u16, song_rpb: u8) -> (r: Vec<MusicalTime>)
    requires
        row_times_computable(*track, clip_idx, row, song_rpb as int),
    ensures
        r@ == row_times(*track, clip_idx, row, song_rpb as int, track.sequence@.len() as int),
{
    let rpb = song_rpb as u32;
    let mut times: Vec<MusicalTime> = Vec::new();
    let mut j: usize = 0;
    while j < track.sequence.len()
        invariant
            j <= track.sequence@.len(),
            row_times_computable(*track, clip_idx, row, song_rpb as int),
            rpb == song_rpb,
            times@ == row_times(*track, clip_idx, row, song_rpb as int, j as int),
        decreases track.sequence@.len() - j,
    {
        let e = track.sequence[j];
        if e.clip_idx == clip_idx && e.length > 0 {
            match track.get_pattern_at(e.clip_idx as usize) {
                None => {},
                Some(clip) => {
                    let effective_rows = if e.length <= clip.rows { e.length } else { clip.rows };
                    if row < effective_rows {
                        let pat_rpb = pattern_rpb(clip, rpb);
                        times.push(e.start.add_rows(row as u32, pat_rpb));
                    }
                },
            }
        }
        j = j + 1;
    }
    times
}

/// The row budget of a walk over `track`, when it fits in 64 bits.
pub fn row_budget(track: &Track) -> (r: Option<u64>)
    ensures
        r is Some <==> max_rows_spec(*track) <= u64::MAX,
        r matches Some(m) ==> m == max_rows_spec(*track),
{
    let mut from_clips: u128 = 0;
    let mut i: usize = 0;
    while i < track.clips.len()
        invariant
            i <= track.clips@.len(),
            from_clips == clip_rows_sum(track.clips@.take(i as int)),
            from_clips <= i * 65535,
        decreases track.clips@.len() - i,
    {
        proof {
            assert(track.clips@.take(i + 1).drop_last() =~= track.clips@.take(i as int));
        }
        match track.clips[i].pattern() {
            Some(p) => from_clips = from_clips + p.rows as u128,
            None => {},
        }
        i = i + 1;
    }
    proof {
        assert(track.clips@.take(i as int) =~= track.clips@);
    }
    let mut from_seq: u128 = 0;
    let mut j: usize = 0;
    while j < track.sequence.len()
        invariant
            j <= track.sequence@.len(),
            from_seq == seq_length_sum(track.sequence@.take(j as int)),
            from_seq <= j * 65535,
        decreases track.sequence@.len() - j,
    {
        proof {
            assert(track.sequence@.take(j + 1).drop_last() =~= track.sequence@.take(j as int));
        }
        from_seq = from_seq + track.sequence[j].length as u128;
        j = j + 1;
    }
    proof {
        assert(track.sequence@.take(j as int) =~= track.sequence@);
    }
    let rows: u128 = if from_clips >= from_seq { from_clips } else { from_seq };
    let channels: u128 = if track.num_channels >= 1 { track.num_channels as u128 } else { 1 };
    assert(rows * channels * 2 + 256 <= 0x1_0000_0000_0000_0000 * 65535 * 255 * 2 + 256) by (nonlinear_arith)
        requires rows <= 0x1_0000_0000_0000_0000 * 65535, 1 <= channels <= 255;
    let total: u128 = rows * channels * 2 + 256;
    if total <= u64::MAX as u128 { Some(total as u64) } else { None }
}

/// The clip pattern `p` of a track can be walked: its cells fill its shape,
/// it has rows per beat, its channels fit after `base` where the track has
/// no machine node, and its volume commands are ones a walk can turn into
/// effects.
pub open spec fn pattern_walkable(p: Pattern, song_rpb: int, no_node: bool, base: int) -> bool {
    &&& p.wf()
    &&& effective_rpb(p, song_rpb) > 0
    &&& no_node ==> base + p.channels <= 256
    &&& forall|k: int| 0 <= k < p.data@.len() ==> volume_command_ok(#[trigger] p.data@[k].volume)
}

fn pattern_walkable_check(p: &Pattern, song_rpb: u8, no_node: bool, base: u8) -> (r: bool)
    ensures
        r == pattern_walkable(*p, song_rpb as int, no_node, base as int),
{
    assert(p.rows * p.channels <= 65535 * 255) by (nonlinear_arith)
        requires p.rows <= 65535, p.channels <= 255;
    if p.data.len() as u64 != p.rows as u64 * p.channels as u64 {
        return false;
    }
    let rpb: u8 = match p.rows_per_beat {
        Some(r) => r,
        None => song_rpb,
    };
    if rpb == 0 {
        return false;
    }
    if no_node && base as u16 + p.channels as u16 > 256 {
        return false;
    }
    let mut k: usize = 0;
    while k < p.data.len()
        invariant
            k <= p.data@.len(),
            forall|m: int| 0 <= m < k ==> volume_command_ok(#[trigger] p.data@[m].volume),
        decreases p.data@.len() - k,
    {
        match p.data[k].volume {
            VolumeCommand::VolumeSlideDown(v) => {
                if v == 128 {
                    return false;
                }
            },
            _ => {},
        }
        k = k + 1;
    }
    true
}

/// Whether `track` of `song` can be walked without overflow.
pub fn track_schedulable_check(track: &Track, song: &Song) -> (r: bool)
    ensures
        r == track_schedulable(*track, *song),
{
    let max_rows = match row_budget(track) {
        Some(m) => m,
        None => return false,
    };
    let mut i: usize = 0;
    while i < track.clips.len()
        invariant
            i <= track.clips@.len(),
            max_rows == max_rows_spec(*track),
            forall|k: int| 0 <= k < i ==> pattern_walkable(#[trigger] track.clips@[k].pattern_spec(), song.rows_per_beat as int,
                track.machine_node.is_none(), track.base_channel as int),
        decreases track.clips@.len() - i,
    {
        let p = match track.clips[i].pattern() {
            Some(p) => p,
            None => return false,
        };
        if !pattern_walkable_check(p, song.rows_per_beat, track.machine_node.is_none(), track.base_channel) {
            return false;
        }
        i = i + 1;
    }
    let mut j: usize = 0;
    while j < track.sequence.len()
        invariant
            j <= track.sequence@.len(),
            max_rows == max_rows_spec(*track),
            forall|k: int| 0 <= k < track.clips@.len() ==> pattern_walkable(#[trigger] track.clips@[k].pattern_spec(), song.rows_per_beat as int,
                track.machine_node.is_none(), track.base_channel as int),
            forall|k: int| 0 <= k < j ==> (#[trigger] track.sequence@[k]).start.beat + ROW_BEAT_ADVANCE * max_rows <= u64::MAX,
        decreases track.sequence@.len() - j,
    {
        if track.sequence[j].start.beat as u128 + ROW_BEAT_ADVANCE as u128 * max_rows as u128 > u64::MAX as u128 {
            return false;
        }
        j = j + 1;
    }
    true
}

/// The song can be played: every track has a row budget that fits in 64
/// bits, and every scheduled track can be walked without overflow.
pub open spec fn song_playable_spec(song: Song) -> bool {
    &&& song_schedulable(song)
    &&& forall|i: int| 0 <= i < song.tracks@.len() ==> max_rows_spec(#[trigger] song.tracks@[i]) <= u64::MAX
}

/// Whether `song` can be played (its sources made and walked).
pub fn song_playable(song: &Song) -> (r: bool)
    ensures
        r == song_playable_spec(*song),
{
    let mut i: usize = 0;
    while i < song.tracks.len()
        invariant
            i <= song.tracks@.len(),
            forall|k: int| 0 <= k < i ==> max_rows_spec(#[trigger] song.tracks@[k]) <= u64::MAX,
            forall|k: int| 0 <= k < i && is_scheduled(*song, #[trigger] song.tracks@[k]) ==> track_schedulable(song.tracks@[k], *song),
        decreases song.tracks@.len() - i,
    {
        let t = &song.tracks[i];
        if row_budget(t).is_none() {
            return false;
        }
        if !t.muted && song.is_tracker(t) && !track_schedulable_check(t, song) {
            return false;
        }
        i = i + 1;
    }
    true
}

/// The payload starts, stops or retargets a note.
pub open spec fn is_note_payload(p: EventPayload) -> bool {
    p is NoteOn || p is NoteOff || p is PortaTarget
}

/// The events of one cell come in a fixed order: first the note's event
/// (a note-on, or a portamento target under tone portamento, or a note-off),
/// then the volume column's effect, both at the note's time; whatever
/// follows is at the row's time. So a volume column acts on the note its
/// cell starts, and no event but the first one concerns the note.
pub proof fn lemma_cell_event_order(cell: Cell, time: MusicalTime, target: EventTarget, speed: int, rpb: int)
    ensures
        ({
            let ev = cell_events(cell, time, target, speed, rpb);
            let nt = note_time_spec(cell, time, speed, rpb);
            let k: int = if cell.note is Empty { 0 } else { 1 };
            let m: int = k + if volume_effect(cell.volume) is Some { 1int } else { 0int };
            &&& cell.note !is Empty ==> ev.len() >= 1 && is_note_payload(ev[0].payload) && ev[0].time == nt && ev[0].target == target
            &&& (cell.note is On && !is_tone_porta_spec(cell.effect)) ==>
                ev[0].payload == (EventPayload::NoteOn { note: cell.note->On_0, velocity: 64, instrument: cell.instrument })
            &&& forall|i: int| k <= i < ev.len() ==> !is_note_payload(#[trigger] ev[i].payload)
            &&& volume_effect(cell.volume) matches Some(e) ==> ev.len() > k
                && ev[k] == (Event { time: nt, target, payload: EventPayload::Effect(e) })
            &&& m <= ev.len() <= m + 1
            &&& forall|i: int| m <= i < ev.len() ==> (#[trigger] ev[i]).time == time
        }),
{
}

/// A volume column command acts as the effect of the same meaning and
/// value: set volume, set pan, slides up by and down by its value (as a
/// signed byte), fine slides, portamentos and tone portamento with its
/// speed, vibrato with its depth.
pub proof fn lemma_volume_column_meaning(v: u8)
    ensures
        volume_effect(VolumeCommand::Volume(v)) == Some(Effect::SetVolume(v)),
        volume_effect(VolumeCommand::Panning(v)) == Some(Effect::SetPan(v)),
        v < 128 ==> volume_effect(VolumeCommand::VolumeSlideUp(v)) == Some(Effect::VolumeSlide(v as i8)),
        v < 128 ==> volume_effect(VolumeCommand::VolumeSlideDown(v)) == Some(Effect::VolumeSlide((0 - v) as i8)),
        volume_effect(VolumeCommand::FineVolSlideUp(v)) == Some(Effect::FineVolumeSlideUp(v)),
        volume_effect(VolumeCommand::FineVolSlideDown(v)) == Some(Effect::FineVolumeSlideDown(v)),
        volume_effect(VolumeCommand::PortaUp(v)) == Some(Effect::PortaUp(v)),
        volume_effect(VolumeCommand::PortaDown(v)) == Some(Effect::PortaDown(v)),
        volume_effect(VolumeCommand::TonePorta(v)) == Some(Effect::TonePorta(v)),
        volume_effect(VolumeCommand::Vibrato(v)) == Some(Effect::Vibrato { speed: 0, depth: v }),
        volume_effect(VolumeCommand::Empty) is None,
{
}

} // verus!
