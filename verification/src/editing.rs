//! Song editing: placing and removing sequence entries, editing cells, and
//! the bookkeeping a controller does around them.
use vstd::prelude::*;
use crate::edit::{Edit, SeqEntryData};
use crate::event::NodeId;
use crate::musical_time::{add_rows_spec, can_add_sub_beats, sub_per_row, MusicalTime};
use crate::pattern::Pattern;
use crate::song::{
    build_tracks, first_on_beat, first_named_from, pattern_at, sequence_from_order, tracker_graph, Clip, OrderEntry,
    SeqEntry, SeqTermination, Song, Track,
};
use crate::instrument::Instrument;
use crate::names::{fitted, name26_bytes, name32_bytes};
use crate::sample::Sample;
use vstd::string::StringSliceAdditionalSpecFns;

verus! {

/// Rows per beat of clip `idx` for an entry: the pattern's own value, else
/// `rpb` (also when there is no such clip).
pub open spec fn entry_rpb(track: Track, idx: int, rpb: int) -> int {
    match pattern_at(track, idx) {
        Some(p) => match p.rows_per_beat {
            Some(r) => r as int,
            None => rpb,
        },
        None => rpb,
    }
}

/// Where a sequence entry ends: its start plus its length in rows.
pub open spec fn entry_end(track: Track, e: SeqEntry, rpb: int) -> MusicalTime {
    add_rows_spec(e.start, e.length as int, entry_rpb(track, e.clip_idx as int, rpb))
}

/// The end of an entry can be computed: nonzero rows per beat, no overflow.
pub open spec fn entry_end_ok(track: Track, e: SeqEntry, rpb: int) -> bool {
    let r = entry_rpb(track, e.clip_idx as int, rpb);
    r > 0 && can_add_sub_beats(e.start, e.length * sub_per_row(r))
}

/// The entry's span `[start, end)` meets `[new_start, new_end)`.
pub open spec fn spans_meet(track: Track, e: SeqEntry, rpb: int, new_start: MusicalTime, new_end: MusicalTime) -> bool {
    new_start.lt_spec(entry_end(track, e, rpb)) && e.start.lt_spec(new_end)
}

/// The entry starts on `beat` (compared in 32 bits).
pub open spec fn on_beat(e: SeqEntry, beat: u32) -> bool {
    e.start.beat as u32 == beat
}

/// Some entry from `i` on, other than those on `beat`, meets the span.
pub open spec fn overlap_from(track: Track, beat: u32, rpb: int, new_start: MusicalTime, new_end: MusicalTime, i: int) -> bool
    decreases track.sequence@.len() - i,
{
    if i < 0 || i >= track.sequence@.len() {
        false
    } else {
        let e = track.sequence@[i];
        (!on_beat(e, beat) && spans_meet(track, e, rpb, new_start, new_end))
            || overlap_from(track, beat, rpb, new_start, new_end, i + 1)
    }
}

/// The scan of [`overlap_from`] computes every entry end it looks at, up to
/// the first entry that meets the span.
pub open spec fn overlap_scan_ok(track: Track, beat: u32, rpb: int, new_start: MusicalTime, new_end: MusicalTime, i: int) -> bool
    decreases track.sequence@.len() - i,
{
    if i < 0 || i >= track.sequence@.len() {
        true
    } else {
        let e = track.sequence@[i];
        if on_beat(e, beat) {
            overlap_scan_ok(track, beat, rpb, new_start, new_end, i + 1)
        } else {
            entry_end_ok(track, e, rpb) && (spans_meet(track, e, rpb, new_start, new_end)
                || overlap_scan_ok(track, beat, rpb, new_start, new_end, i + 1))
        }
    }
}

/// The span a clip of `length` rows placed at `beat` would take.
pub open spec fn placed_end(beat: u32, length: u16, rpb: int) -> MusicalTime {
    add_rows_spec(MusicalTime { beat: beat as u64, sub_beat: 0 }, length as int, rpb)
}

/// Placing a clip of `length` rows at `beat` can be checked for overlaps.
pub open spec fn overlap_check_ok(track: Track, beat: u32, length: u16, rpb: u8) -> bool {
    &&& rpb > 0
    &&& overlap_scan_ok(track, beat, rpb as int, MusicalTime { beat: beat as u64, sub_beat: 0 }, placed_end(beat, length, rpb as int), 0)
}

/// Whether placing a clip of `length` rows at `beat` would overlap an entry
/// (other than one at that beat).
pub open spec fn would_overlap_spec(track: Track, beat: u32, length: u16, rpb: u8) -> bool {
    overlap_from(track, beat, rpb as int, MusicalTime { beat: beat as u64, sub_beat: 0 }, placed_end(beat, length, rpb as int), 0)
}

fn entry_rows_per_beat(track: &Track, idx: usize, rpb: u32) -> (r: u32)
    ensures
        r == entry_rpb(*track, idx as int, rpb as int),
{
    match track.get_pattern_at(idx) {
        Some(p) => match p.rows_per_beat {
            Some(r) => r as u32,
            None => rpb,
        },
        None => rpb,
    }
}

/// Check if placing a clip of the given length at the given beat would overlap
/// any existing sequence entry (excluding an entry already at that beat).
pub fn would_overlap(track: &Track, beat: u32, length: u16, rpb: u8) -> (r: bool)
    requires
        overlap_check_ok(*track, beat, length, rpb),
    ensures
        r == would_overlap_spec(*track, beat, length, rpb),
{
    let new_start = MusicalTime::from_beats(beat as u64);
    proof {
        assert(length * sub_per_row(rpb as int) <= 65535 * 720720) by (nonlinear_arith)
            requires sub_per_row(rpb as int) == 720720int / (rpb as int), rpb > 0, length <= 65535;
    }
    let new_end = new_start.add_rows(length as u32, rpb as u32);
    let mut i: usize = 0;
    while i < track.sequence.len()
        invariant
            i <= track.sequence@.len(),
            new_start == (MusicalTime { beat: beat as u64, sub_beat: 0 }),
            new_end == placed_end(beat, length, rpb as int),
            overlap_scan_ok(*track, beat, rpb as int, new_start, new_end, i as int),
            would_overlap_spec(*track, beat, length, rpb) == overlap_from(*track, beat, rpb as int, new_start, new_end, i as int),
        decreases track.sequence@.len() - i,
    {
        let e = track.sequence[i];
        if e.start.beat as u32 != beat {
            let pat_rpb = entry_rows_per_beat(track, e.clip_idx as usize, rpb as u32);
            let e_end = e.start.add_rows(e.length as u32, pat_rpb);
            if new_start < e_end && e.start < new_end {
                return true;
            }
        }
        i = i + 1;
    }
    false
}

/// The end of the last entry of track `track_idx` (zero without one).
pub open spec fn sequence_end_spec(song: Song, track_idx: int) -> MusicalTime {
    if 0 <= track_idx < song.tracks@.len() && song.tracks@[track_idx].sequence@.len() > 0 {
        let t = song.tracks@[track_idx];
        entry_end(t, t.sequence@.last(), song.rows_per_beat as int)
    } else {
        MusicalTime { beat: 0, sub_beat: 0 }
    }
}

/// The end of the last entry of track `track_idx` can be computed.
pub open spec fn sequence_end_ok(song: Song, track_idx: int) -> bool {
    0 <= track_idx < song.tracks@.len() && song.tracks@[track_idx].sequence@.len() > 0 ==> {
        let t = song.tracks@[track_idx];
        entry_end_ok(t, t.sequence@.last(), song.rows_per_beat as int)
    }
}

/// End time of a track's sequence (after the last clip finishes).
pub fn track_end_time(song: &Song, track_idx: usize) -> (r: MusicalTime)
    requires
        sequence_end_ok(*song, track_idx as int),
    ensures
        r == sequence_end_spec(*song, track_idx as int),
{
    if track_idx >= song.tracks.len() {
        return MusicalTime::zero();
    }
    let t = &song.tracks[track_idx];
    if t.sequence.len() == 0 {
        return MusicalTime::zero();
    }
    let last = t.sequence[t.sequence.len() - 1];
    let pat_rpb = entry_rows_per_beat(t, last.clip_idx as usize, song.rows_per_beat as u32);
    last.start.add_rows(last.length as u32, pat_rpb)
}

/// The entries of `seq` not on `beat`, in order.
pub open spec fn without_beat(seq: Seq<SeqEntry>, beat: u32) -> Seq<SeqEntry>
    decreases seq.len(),
{
    if seq.len() == 0 {
        seq
    } else {
        let rest = without_beat(seq.drop_last(), beat);
        if on_beat(seq.last(), beat) { rest } else { rest.push(seq.last()) }
    }
}

/// Index of the first entry from `i` on that starts after `t` (the length
/// when there is none).
pub open spec fn first_after(seq: Seq<SeqEntry>, t: MusicalTime, i: int) -> int
    decreases seq.len() - i,
{
    if i < 0 || i >= seq.len() {
        seq.len() as int
    } else if t.lt_spec(seq[i].start) {
        i
    } else {
        first_after(seq, t, i + 1)
    }
}

/// The entry an edit places at `beat`.
pub open spec fn placed_entry(beat: u32, data: SeqEntryData) -> SeqEntry {
    SeqEntry {
        start: MusicalTime { beat: beat as u64, sub_beat: 0 },
        clip_idx: data.clip_idx,
        length: data.length,
        termination: data.termination,
    }
}

/// A sequence after setting the entry at `beat`: entries on that beat are
/// removed, then the new entry, if any, goes before the first entry that
/// starts after it.
pub open spec fn set_entry_spec(seq: Seq<SeqEntry>, beat: u32, entry: Option<SeqEntryData>) -> Seq<SeqEntry> {
    let kept = without_beat(seq, beat);
    match entry {
        None => kept,
        Some(data) => {
            let e = placed_entry(beat, data);
            kept.insert(first_after(kept, e.start, 0), e)
        },
    }
}

proof fn lemma_without_beat_len(seq: Seq<SeqEntry>, beat: u32)
    ensures
        without_beat(seq, beat).len() <= seq.len(),
    decreases seq.len(),
{
    if seq.len() > 0 {
        lemma_without_beat_len(seq.drop_last(), beat);
    }
}

proof fn lemma_first_after_bounds(seq: Seq<SeqEntry>, t: MusicalTime, i: int)
    requires
        0 <= i <= seq.len(),
    ensures
        i <= first_after(seq, t, i) <= seq.len(),
    decreases seq.len() - i,
{
    if i < seq.len() && !t.lt_spec(seq[i].start) {
        lemma_first_after_bounds(seq, t, i + 1);
    }
}

fn remove_beat_entries(seq: &Vec<SeqEntry>, beat: u32) -> (r: Vec<SeqEntry>)
    ensures
        r@ == without_beat(seq@, beat),
{
    let mut kept: Vec<SeqEntry> = Vec::new();
    let mut i: usize = 0;
    proof {
        assert(seq@.take(0) =~= Seq::<SeqEntry>::empty());
    }
    while i < seq.len()
        invariant
            i <= seq@.len(),
            kept@ == without_beat(seq@.take(i as int), beat),
        decreases seq@.len() - i,
    {
        proof {
            assert(seq@.take(i + 1).drop_last() =~= seq@.take(i as int));
        }
        let e = seq[i];
        if e.start.beat as u32 != beat {
            kept.push(e);
        }
        i = i + 1;
    }
    proof {
        assert(seq@.take(i as int) =~= seq@);
    }
    kept
}

/// Apply a SetSeqEntry edit: remove any entry at beat, optionally insert new one.
pub fn apply_set_seq_entry(song: &mut Song, track_idx: u16, beat: u32, entry: &Option<SeqEntryData>)
    ensures
        final(song).tracks@.len() == old(song).tracks@.len(),
        forall|i: int| 0 <= i < old(song).tracks@.len() && i != track_idx ==> #[trigger] final(song).tracks@[i] == old(song).tracks@[i],
        (track_idx as int) < old(song).tracks@.len() ==> ({
            let t0 = old(song).tracks@[track_idx as int];
            let t1 = final(song).tracks@[track_idx as int];
            &&& t1.sequence@ == set_entry_spec(t0.sequence@, beat, *entry)
            &&& t1.clips == t0.clips
            &&& t1.machine_node == t0.machine_node
            &&& t1.base_channel == t0.base_channel
            &&& t1.num_channels == t0.num_channels
            &&& t1.group == t0.group
            &&& t1.muted == t0.muted
        }),
        same_song_settings(*final(song), *old(song)),
{
    if (track_idx as usize) >= song.tracks.len() {
        return;
    }
    let mut kept = remove_beat_entries(&song.tracks[track_idx as usize].sequence, beat);
    match entry {
        None => {},
        Some(data) => {
            let new_entry = SeqEntry {
                start: MusicalTime::from_beats(beat as u64),
                clip_idx: data.clip_idx,
                length: data.length,
                termination: data.termination,
            };
            // Insert sorted by start time
            let mut pos: usize = 0;
            while pos < kept.len() && !(new_entry.start < kept[pos].start)
                invariant
                    pos <= kept@.len(),
                    first_after(kept@, new_entry.start, 0) == first_after(kept@, new_entry.start, pos as int),
                decreases kept@.len() - pos,
            {
                pos = pos + 1;
            }
            proof {
                lemma_first_after_bounds(kept@, new_entry.start, pos as int);
            }
            kept.insert(pos, new_entry);
        },
    }
    song.tracks[track_idx as usize].sequence = kept;
}

/// The cell edit lands: clip `clip` of track `track` exists and `row`,
/// `column` lie in its pattern.
pub open spec fn cell_edit_target(song: Song, track: u16, clip: u16, row: u16, column: u8) -> bool {
    &&& (track as int) < song.tracks@.len()
    &&& (clip as int) < song.tracks@[track as int].clips@.len()
    &&& row < song.tracks@[track as int].clips@[clip as int].pattern_spec().rows
    &&& column < song.tracks@[track as int].clips@[clip as int].pattern_spec().channels
}

/// A cell edit can be applied: the pattern it lands in is well-formed.
pub open spec fn edit_ok(song: Song, edit: Edit) -> bool {
    match edit {
        Edit::SetCell { track, clip, row, column, cell } => cell_edit_target(song, track, clip, row, column)
            ==> song.tracks@[track as int].clips@[clip as int].pattern_spec().wf(),
        _ => true,
    }
}

/// `new` is `old` with the cell at `row`, `column` of clip `clip` of track
/// `track` set to `cell` (when that cell exists; otherwise unchanged).
pub open spec fn cell_edited(old: Song, new: Song, track: u16, clip: u16, row: u16, column: u8, cell: crate::pattern::Cell) -> bool {
    if cell_edit_target(old, track, clip, row, column) {
        let t0 = old.tracks@[track as int];
        let t1 = new.tracks@[track as int];
        let p0 = t0.clips@[clip as int].pattern_spec();
        let p1 = t1.clips@[clip as int].pattern_spec();
        &&& new.tracks@.len() == old.tracks@.len()
        &&& forall|i: int| 0 <= i < old.tracks@.len() && i != track ==> #[trigger] new.tracks@[i] == old.tracks@[i]
        &&& t1.sequence == t0.sequence
        &&& t1.machine_node == t0.machine_node
        &&& t1.base_channel == t0.base_channel
        &&& t1.num_channels == t0.num_channels
        &&& t1.group == t0.group
        &&& t1.muted == t0.muted
        &&& t1.clips@.len() == t0.clips@.len()
        &&& forall|k: int| 0 <= k < t0.clips@.len() && k != clip ==> #[trigger] t1.clips@[k] == t0.clips@[k]
        &&& p1.rows == p0.rows
        &&& p1.channels == p0.channels
        &&& p1.ticks_per_row == p0.ticks_per_row
        &&& p1.rows_per_beat == p0.rows_per_beat
        &&& p1.data@ == p0.data@.update(p0.index_of(row as int, column as int), cell)
    } else {
        new.tracks == old.tracks
    }
}

/// The song after applying `edit` to `old`, as far as its tracks go.
pub open spec fn edit_applied(old: Song, new: Song, edit: Edit) -> bool {
    match edit {
        Edit::SetCell { track, clip, row, column, cell } => cell_edited(old, new, track, clip, row, column, cell),
        Edit::SetNodeBypass { .. } => new.tracks == old.tracks,
        Edit::SetSeqEntry { track, beat, entry } => {
            &&& new.tracks@.len() == old.tracks@.len()
            &&& forall|i: int| 0 <= i < old.tracks@.len() && i != track ==> #[trigger] new.tracks@[i] == old.tracks@[i]
            &&& (track as int) < old.tracks@.len() ==> ({
                let t0 = old.tracks@[track as int];
                let t1 = new.tracks@[track as int];
                &&& t1.sequence@ == set_entry_spec(t0.sequence@, beat, entry)
                &&& t1.clips == t0.clips
                &&& t1.machine_node == t0.machine_node
                &&& t1.base_channel == t0.base_channel
                &&& t1.num_channels == t0.num_channels
                &&& t1.group == t0.group
                &&& t1.muted == t0.muted
            })
        },
    }
}

fn set_clip_cell(clip: &mut Clip, row: u16, column: u8, cell: crate::pattern::Cell)
    requires
        row < old(clip).pattern_spec().rows && column < old(clip).pattern_spec().channels ==> old(clip).pattern_spec().wf(),
    ensures
        row < old(clip).pattern_spec().rows && column < old(clip).pattern_spec().channels ==> ({
            let p0 = old(clip).pattern_spec();
            let p1 = final(clip).pattern_spec();
            &&& p1.rows == p0.rows
            &&& p1.channels == p0.channels
            &&& p1.ticks_per_row == p0.ticks_per_row
            &&& p1.rows_per_beat == p0.rows_per_beat
            &&& p1.data@ == p0.data@.update(p0.index_of(row as int, column as int), cell)
        }),
        !(row < old(clip).pattern_spec().rows && column < old(clip).pattern_spec().channels) ==> *final(clip) == *old(clip),
{
    match clip {
        Clip::Pattern(pat) => {
            if row < pat.rows && column < pat.channels {
                pat.set_cell(row, column, cell);
            }
        },
    }
}

fn set_track_cell(track: &mut Track, c: usize, row: u16, column: u8, cell: crate::pattern::Cell)
    requires
        c < old(track).clips@.len(),
        row < old(track).clips@[c as int].pattern_spec().rows && column < old(track).clips@[c as int].pattern_spec().channels
            ==> old(track).clips@[c as int].pattern_spec().wf(),
    ensures
        final(track).sequence == old(track).sequence,
        final(track).machine_node == old(track).machine_node,
        final(track).base_channel == old(track).base_channel,
        final(track).num_channels == old(track).num_channels,
        final(track).group == old(track).group,
        final(track).muted == old(track).muted,
        final(track).clips@.len() == old(track).clips@.len(),
        forall|k: int| 0 <= k < old(track).clips@.len() && k != c ==> #[trigger] final(track).clips@[k] == old(track).clips@[k],
        ({
            let p0 = old(track).clips@[c as int].pattern_spec();
            let p1 = final(track).clips@[c as int].pattern_spec();
            if row < p0.rows && column < p0.channels {
                &&& p1.rows == p0.rows
                &&& p1.channels == p0.channels
                &&& p1.ticks_per_row == p0.ticks_per_row
                &&& p1.rows_per_beat == p0.rows_per_beat
                &&& p1.data@ == p0.data@.update(p0.index_of(row as int, column as int), cell)
            } else {
                final(track).clips@[c as int] == old(track).clips@[c as int]
            }
        }),
{
    set_clip_cell(&mut track.clips[c], row, column, cell);
}

/// Apply an edit directly to song data.
pub fn apply_edit_to_song(song: &mut Song, edit: &Edit)
    requires
        edit_ok(*old(song), *edit),
    ensures
        edit_applied(*old(song), *final(song), *edit),
        same_song_settings(*final(song), *old(song)),
{
    match edit {
        Edit::SetCell { track, clip, row, column, cell } => {
            let t = *track as usize;
            let c = *clip as usize;
            if t >= song.tracks.len() || c >= song.tracks[t].clips.len() {
                return;
            }
            let in_range = match song.tracks[t].clips[c].pattern() {
                Some(p) => *row < p.rows && *column < p.channels,
                None => false,
            };
            if !in_range {
                return;
            }
            set_track_cell(&mut song.tracks[t], c, *row, *column, *cell);
        },
        Edit::SetNodeBypass { .. } => {},
        Edit::SetSeqEntry { track, beat, entry } => {
            apply_set_seq_entry(song, *track, *beat, entry);
        },
    }
}

/// The placement data of an entry.
pub open spec fn entry_data(e: SeqEntry) -> SeqEntryData {
    SeqEntryData { clip_idx: e.clip_idx, length: e.length, termination: e.termination }
}

/// The placement data of the first entry on `beat`, if any.
pub open spec fn data_at_beat(seq: Seq<SeqEntry>, beat: u32) -> Option<SeqEntryData> {
    match first_on_beat(seq, beat, 0) {
        Some(i) => Some(entry_data(seq[i])),
        None => None,
    }
}

/// Rows of clip `clip_idx` of a track, or 16 when there is no such clip.
pub open spec fn placed_length(track: Track, clip_idx: u16) -> u16 {
    match pattern_at(track, clip_idx as int) {
        Some(p) => p.rows,
        None => 16,
    }
}

/// Placing clip `clip_idx` at `beat` on track `track_idx` can be checked for
/// overlaps.
pub open spec fn placement_ok(song: Song, track_idx: int, beat: u32, clip_idx: u16) -> bool {
    0 <= track_idx < song.tracks@.len() ==> {
        let t = song.tracks@[track_idx];
        overlap_check_ok(t, beat, placed_length(t, clip_idx), song.rows_per_beat)
    }
}

/// Place a clip at a specific beat in a track's sequence.
/// Returns the forward and reverse edits, or None if there is no such track
/// or the clip would overlap another entry.
pub fn set_seq_entry(song: &mut Song, track_idx: usize, beat: u32, clip_idx: u16) -> (r: Option<(Edit, Edit)>)
    requires
        placement_ok(*old(song), track_idx as int, beat, clip_idx),
    ensures
        ({
            let fits = (track_idx as int) < old(song).tracks@.len() && !would_overlap_spec(
                old(song).tracks@[track_idx as int],
                beat,
                placed_length(old(song).tracks@[track_idx as int], clip_idx),
                old(song).rows_per_beat,
            );
            &&& fits <==> r is Some
            &&& !fits ==> *final(song) == *old(song)
            &&& r matches Some((fwd, rev)) ==> {
                let t = old(song).tracks@[track_idx as int];
                let data = SeqEntryData { clip_idx, length: placed_length(t, clip_idx), termination: SeqTermination::Natural };
                &&& fwd == (Edit::SetSeqEntry { track: track_idx as u16, beat, entry: Some(data) })
                &&& rev == (Edit::SetSeqEntry { track: track_idx as u16, beat, entry: data_at_beat(t.sequence@, beat) })
                &&& edit_applied(*old(song), *final(song), fwd)
                &&& same_song_settings(*final(song), *old(song))
            }
        }),
{
    if track_idx >= song.tracks.len() {
        return None;
    }
    let track = &song.tracks[track_idx];
    let length = match track.get_pattern_at(clip_idx as usize) {
        Some(p) => p.rows,
        None => 16,
    };
    let rpb = song.rows_per_beat;
    if would_overlap(track, beat, length, rpb) {
        return None;
    }
    let data = SeqEntryData { clip_idx, length, termination: SeqTermination::Natural };
    // Build reverse: restore whatever was at this beat before
    let old_entry = match track.seq_entry_at_beat(beat) {
        Some(e) => Some(SeqEntryData { clip_idx: e.clip_idx, length: e.length, termination: e.termination }),
        None => None,
    };
    let forward = Edit::SetSeqEntry { track: track_idx as u16, beat, entry: Some(data) };
    let reverse = Edit::SetSeqEntry { track: track_idx as u16, beat, entry: old_entry };
    apply_edit_to_song(song, &forward);
    Some((forward, reverse))
}

/// Remove a sequence entry at a specific beat.
/// Returns the forward and reverse edits, or None if nothing there.
pub fn remove_seq_entry(song: &mut Song, track_idx: usize, beat: u32) -> (r: Option<(Edit, Edit)>)
    ensures
        ({
            let found = (track_idx as int) < old(song).tracks@.len()
                && data_at_beat(old(song).tracks@[track_idx as int].sequence@, beat) is Some;
            &&& found <==> r is Some
            &&& !found ==> *final(song) == *old(song)
            &&& r matches Some((fwd, rev)) ==> {
                let t = old(song).tracks@[track_idx as int];
                &&& fwd == (Edit::SetSeqEntry { track: track_idx as u16, beat, entry: None })
                &&& rev == (Edit::SetSeqEntry { track: track_idx as u16, beat, entry: data_at_beat(t.sequence@, beat) })
                &&& edit_applied(*old(song), *final(song), fwd)
                &&& same_song_settings(*final(song), *old(song))
            }
        }),
{
    if track_idx >= song.tracks.len() {
        return None;
    }
    let old_data = match song.tracks[track_idx].seq_entry_at_beat(beat) {
        Some(old) => SeqEntryData { clip_idx: old.clip_idx, length: old.length, termination: old.termination },
        None => return None,
    };
    let forward = Edit::SetSeqEntry { track: track_idx as u16, beat, entry: None };
    let reverse = Edit::SetSeqEntry { track: track_idx as u16, beat, entry: Some(old_data) };
    apply_edit_to_song(song, &forward);
    Some((forward, reverse))
}

/// Read helper: get the sequence entry at a specific beat.
pub fn seq_entry_at(song: &Song, track_idx: usize, beat: u32) -> (r: Option<&SeqEntry>)
    ensures
        r == (if (track_idx as int) < song.tracks@.len() {
            match first_on_beat(song.tracks@[track_idx as int].sequence@, beat, 0) {
                Some(i) => Some(&song.tracks@[track_idx as int].sequence@[i]),
                None => None,
            }
        } else {
            None
        }),
{
    if track_idx >= song.tracks.len() {
        return None;
    }
    song.tracks[track_idx].seq_entry_at_beat(beat)
}

/// Toggle mute state on a track. Returns the bypass edit for the track's
/// node, if it has one, to send to a running engine.
pub fn toggle_track_mute(song: &mut Song, track_idx: usize) -> (r: Option<Edit>)
    ensures
        same_song_settings(*final(song), *old(song)),
        final(song).tracks@.len() == old(song).tracks@.len(),
        forall|i: int| 0 <= i < old(song).tracks@.len() && i != track_idx ==> #[trigger] final(song).tracks@[i] == old(song).tracks@[i],
        (track_idx as int) < old(song).tracks@.len() ==> ({
            let t0 = old(song).tracks@[track_idx as int];
            let t1 = final(song).tracks@[track_idx as int];
            &&& t1.muted == !t0.muted
            &&& t1.clips == t0.clips
            &&& t1.sequence == t0.sequence
            &&& t1.machine_node == t0.machine_node
            &&& t1.base_channel == t0.base_channel
            &&& t1.num_channels == t0.num_channels
            &&& t1.group == t0.group
            &&& r == (match t0.machine_node {
                Some(node) => Some(Edit::SetNodeBypass { node, bypassed: !t0.muted }),
                None => None,
            })
        }),
        (track_idx as int) >= old(song).tracks@.len() ==> r is None && *final(song) == *old(song),
{
    if track_idx >= song.tracks.len() {
        return None;
    }
    let muted = !song.tracks[track_idx].muted;
    song.tracks[track_idx].muted = muted;
    match song.tracks[track_idx].machine_node {
        Some(node) => Some(Edit::SetNodeBypass { node, bypassed: muted }),
        None => None,
    }
}

/// Add a new empty clip of `rows` rows (as many channels as the track) to
/// the given track. Returns the clip index (0 without such a track).
pub fn add_clip(song: &mut Song, track_idx: usize, rows: u16) -> (r: u16)
    ensures
        same_song_settings(*final(song), *old(song)),
        final(song).tracks@.len() == old(song).tracks@.len(),
        forall|i: int| 0 <= i < old(song).tracks@.len() && i != track_idx ==> #[trigger] final(song).tracks@[i] == old(song).tracks@[i],
        (track_idx as int) < old(song).tracks@.len() ==> ({
            let t0 = old(song).tracks@[track_idx as int];
            let t1 = final(song).tracks@[track_idx as int];
            let p = t1.clips@.last().pattern_spec();
            &&& r == t0.clips@.len() as u16
            &&& t1.clips@.len() == t0.clips@.len() + 1
            &&& t1.clips@.drop_last() == t0.clips@
            &&& p.wf() && p.rows == rows && p.channels == t0.num_channels
            &&& p.ticks_per_row == 6 && p.rows_per_beat.is_none()
            &&& forall|k: int| 0 <= k < p.data@.len() ==> p.data@[k] == crate::pattern::empty_cell()
            &&& t1.sequence == t0.sequence
            &&& t1.muted == t0.muted
            &&& t1.machine_node == t0.machine_node
            &&& t1.base_channel == t0.base_channel
            &&& t1.num_channels == t0.num_channels
            &&& t1.group == t0.group
        }),
        (track_idx as int) >= old(song).tracks@.len() ==> r == 0 && *final(song) == *old(song),
{
    if track_idx >= song.tracks.len() {
        return 0;
    }
    let clip_idx = song.tracks[track_idx].clips.len() as u16;
    let channels = song.tracks[track_idx].num_channels;
    song.tracks[track_idx].clips.push(Clip::Pattern(Pattern::new(rows, channels)));
    proof {
        let t1 = song.tracks@[track_idx as int];
        assert(t1.clips@.drop_last() =~= old(song).tracks@[track_idx as int].clips@);
    }
    clip_idx
}

/// The entry appended by [`add_seq_entry`]: the clip placed at the end of
/// the track's last entry, for the clip's row count (0 without such a clip).
pub open spec fn appended_entry(song: Song, track_idx: int, clip_idx: u16) -> SeqEntry {
    let t = song.tracks@[track_idx];
    SeqEntry {
        start: sequence_end_spec(song, track_idx),
        clip_idx,
        length: match pattern_at(t, clip_idx as int) {
            Some(p) => p.rows,
            None => 0,
        },
        termination: SeqTermination::Natural,
    }
}

/// Add a sequence entry for clip `clip_idx` after the last entry of the
/// given track.
pub fn add_seq_entry(song: &mut Song, track_idx: usize, clip_idx: u16)
    requires
        sequence_end_ok(*old(song), track_idx as int),
    ensures
        same_song_settings(*final(song), *old(song)),
        final(song).tracks@.len() == old(song).tracks@.len(),
        forall|i: int| 0 <= i < old(song).tracks@.len() && i != track_idx ==> #[trigger] final(song).tracks@[i] == old(song).tracks@[i],
        (track_idx as int) < old(song).tracks@.len() ==> ({
            let t0 = old(song).tracks@[track_idx as int];
            let t1 = final(song).tracks@[track_idx as int];
            &&& t1.sequence@ == t0.sequence@.push(appended_entry(*old(song), track_idx as int, clip_idx))
            &&& t1.clips == t0.clips
            &&& t1.muted == t0.muted
            &&& t1.machine_node == t0.machine_node
            &&& t1.base_channel == t0.base_channel
            &&& t1.num_channels == t0.num_channels
            &&& t1.group == t0.group
        }),
        (track_idx as int) >= old(song).tracks@.len() ==> *final(song) == *old(song),
{
    let start = track_end_time(song, track_idx);
    if track_idx >= song.tracks.len() {
        return;
    }
    let length = match song.tracks[track_idx].get_pattern_at(clip_idx as usize) {
        Some(p) => p.rows,
        None => 0,
    };
    let entry = SeqEntry { start, clip_idx, length, termination: SeqTermination::Natural };
    song.tracks[track_idx].sequence.push(entry);
}

/// Remove the last sequence entry from the given track.
pub fn remove_last_seq_entry(song: &mut Song, track_idx: usize)
    ensures
        same_song_settings(*final(song), *old(song)),
        final(song).tracks@.len() == old(song).tracks@.len(),
        forall|i: int| 0 <= i < old(song).tracks@.len() && i != track_idx ==> #[trigger] final(song).tracks@[i] == old(song).tracks@[i],
        (track_idx as int) < old(song).tracks@.len() ==> ({
            let t0 = old(song).tracks@[track_idx as int];
            let t1 = final(song).tracks@[track_idx as int];
            &&& t1.sequence@ == (if t0.sequence@.len() > 0 { t0.sequence@.drop_last() } else { t0.sequence@ })
            &&& t1.clips == t0.clips
            &&& t1.muted == t0.muted
            &&& t1.machine_node == t0.machine_node
            &&& t1.base_channel == t0.base_channel
            &&& t1.num_channels == t0.num_channels
            &&& t1.group == t0.group
        }),
        (track_idx as int) >= old(song).tracks@.len() ==> *final(song) == *old(song),
{
    if track_idx < song.tracks.len() {
        let _ = song.tracks[track_idx].sequence.pop();
    }
}

/// Frames to render before the next position report, clamped to batch_size.
pub fn frames_until_report(frame_count: u64, interval: u64, batch_size: usize) -> (r: usize)
    requires
        interval > 0,
        interval - frame_count % interval <= usize::MAX,
    ensures
        r == (if interval - frame_count % interval <= batch_size { interval - frame_count % interval } else { batch_size as int }),
{
    let remaining = interval - (frame_count % interval);
    if (remaining as usize) <= batch_size { remaining as usize } else { batch_size }
}

/// Nodes of the muted tracks, in track order: what a fresh engine is told
/// to bypass.
pub open spec fn muted_nodes(tracks: Seq<Track>) -> Seq<NodeId>
    decreases tracks.len(),
{
    if tracks.len() == 0 {
        seq![]
    } else {
        let prev = muted_nodes(tracks.drop_last());
        let t = tracks.last();
        if t.muted && t.machine_node is Some { prev.push(t.machine_node->0) } else { prev }
    }
}

/// Collect the nodes of muted tracks (to bypass when playback starts).
pub fn initial_bypasses(song: &Song) -> (r: Vec<NodeId>)
    ensures
        r@ == muted_nodes(song.tracks@),
{
    let mut nodes: Vec<NodeId> = Vec::new();
    let mut i: usize = 0;
    proof {
        assert(song.tracks@.take(0) =~= Seq::<Track>::empty());
    }
    while i < song.tracks.len()
        invariant
            i <= song.tracks@.len(),
            nodes@ == muted_nodes(song.tracks@.take(i as int)),
        decreases song.tracks@.len() - i,
    {
        proof {
            assert(song.tracks@.take(i + 1).drop_last() =~= song.tracks@.take(i as int));
        }
        if song.tracks[i].muted {
            match song.tracks[i].machine_node {
                Some(node) => nodes.push(node),
                None => {},
            }
        }
        i = i + 1;
    }
    proof {
        assert(song.tracks@.take(i as int) =~= song.tracks@);
    }
    nodes
}

/// Rebuild track sequences to play only a single clip on a single track:
/// that track gets one entry at time zero for the clip (when the clip
/// exists), every other track none.
pub fn rebuild_track_sequences(song: &mut Song, track_idx: usize, clip_idx: u16)
    ensures
        same_song_settings(*final(song), *old(song)),
        final(song).tracks@.len() == old(song).tracks@.len(),
        forall|i: int| 0 <= i < old(song).tracks@.len() ==> {
            let t0 = old(song).tracks@[i];
            let t1 = #[trigger] final(song).tracks@[i];
            &&& t1.clips == t0.clips
            &&& t1.muted == t0.muted
            &&& t1.machine_node == t0.machine_node
            &&& t1.base_channel == t0.base_channel
            &&& t1.num_channels == t0.num_channels
            &&& t1.group == t0.group
            &&& t1.sequence@ == (if i == track_idx && (clip_idx as int) < t0.clips@.len() {
                seq![SeqEntry {
                    start: MusicalTime { beat: 0, sub_beat: 0 },
                    clip_idx,
                    length: t0.clips@[clip_idx as int].pattern_spec().rows,
                    termination: SeqTermination::Natural,
                }]
            } else {
                Seq::<SeqEntry>::empty()
            })
        },
{
    let length = if track_idx < song.tracks.len() {
        match song.tracks[track_idx].get_pattern_at(clip_idx as usize) {
            Some(p) => p.rows,
            None => 0,
        }
    } else {
        0
    };
    let entry = SeqEntry { start: MusicalTime::zero(), clip_idx, length, termination: SeqTermination::Natural };
    let ghost s0 = *song;
    let mut i: usize = 0;
    while i < song.tracks.len()
        invariant
            i <= song.tracks@.len(),
            song.tracks@.len() == s0.tracks@.len(),
            same_song_settings(*song, s0),
            track_idx < s0.tracks@.len() && (clip_idx as int) < s0.tracks@[track_idx as int].clips@.len()
                ==> length == s0.tracks@[track_idx as int].clips@[clip_idx as int].pattern_spec().rows,
            entry == (SeqEntry { start: MusicalTime { beat: 0, sub_beat: 0 }, clip_idx, length, termination: SeqTermination::Natural }),
            forall|j: int| i <= j < s0.tracks@.len() ==> #[trigger] song.tracks@[j] == s0.tracks@[j],
            forall|j: int| 0 <= j < i ==> {
                let t0 = s0.tracks@[j];
                let t1 = #[trigger] song.tracks@[j];
                &&& t1.clips == t0.clips
                &&& t1.muted == t0.muted
                &&& t1.machine_node == t0.machine_node
                &&& t1.base_channel == t0.base_channel
                &&& t1.num_channels == t0.num_channels
                &&& t1.group == t0.group
                &&& t1.sequence@ == (if j == track_idx && (clip_idx as int) < t0.clips@.len() {
                    seq![entry]
                } else {
                    Seq::<SeqEntry>::empty()
                })
            },
        decreases song.tracks@.len() - i,
    {
        let only = i == track_idx && (clip_idx as usize) < song.tracks[i].clips.len();
        let mut seq: Vec<SeqEntry> = Vec::new();
        if only {
            seq.push(entry);
        }
        song.tracks[i].sequence = seq;
        proof {
            if only {
                assert(song.tracks@[i as int].sequence@ =~= seq![entry]);
            } else {
                assert(song.tracks@[i as int].sequence@ =~= Seq::<SeqEntry>::empty());
            }
        }
        i = i + 1;
    }
}

/// Create a new empty song of `channels` tracker channels: one 64-row clip
/// played once by the tracker track.
pub fn new_song(channels: u8) -> (r: Song)
    ensures
        tracker_graph(r.graph),
        r.channels@.len() == channels,
        r.rows_per_beat == 4,
        r.initial_speed == 6,
        r.initial_tempo == 125,
        channels > 0 ==> ({
            let t = r.tracks@[0];
            &&& r.tracks@.len() == 1
            &&& t.clips@.len() == 1
            &&& t.clips@[0].pattern_spec().rows == 64
            &&& t.clips@[0].pattern_spec().channels == channels
            &&& t.num_channels == channels
            &&& t.machine_node == first_named_from(r.graph, "Tracker"@, 0)
            &&& t.sequence@ == seq![SeqEntry {
                start: MusicalTime { beat: 0, sub_beat: 0 },
                clip_idx: 0,
                length: 64,
                termination: SeqTermination::Natural,
            }]
        }),
        channels == 0 ==> r.tracks@.len() == 0,
{
    let mut song = Song::with_channels("Untitled", channels);
    let mut patterns: Vec<Pattern> = Vec::new();
    patterns.push(Pattern::new(64, channels));
    let mut order: Vec<OrderEntry> = Vec::new();
    order.push(OrderEntry::Pattern(0));
    let ghost before = song;
    build_tracks(&mut song, patterns.as_slice(), order.as_slice());
    proof {
        crate::song::lemma_first_named_same_nodes(before.graph, song.graph, "Tracker"@, 0);
        if channels > 0 {
            let t = song.tracks@[0];
            let z = MusicalTime { beat: 0, sub_beat: 0 };
            let next = crate::musical_time::add_rows_spec(z, 64, 4);
            assert(order@[0] == OrderEntry::Pattern(0));
            assert(patterns@[0].rows == 64);
            assert(sequence_from_order(order@, patterns@, 4, 1, next) == Seq::<SeqEntry>::empty());
            assert(t.sequence@ =~= seq![SeqEntry {
                start: MusicalTime { beat: 0, sub_beat: 0 },
                clip_idx: 0,
                length: 64,
                termination: SeqTermination::Natural,
            }]);
        }
    }
    song
}

/// Add a sample to the song with an instrument that plays it on every note.
/// Returns the new instrument count, the 1-based number of the new
/// instrument (in 8 bits).
pub fn add_sample_instrument(song: &mut Song, sample: Sample, name: &str) -> (r: u8)
    ensures
        final(song).samples@ == old(song).samples@.push(sample),
        final(song).instruments@.len() == old(song).instruments@.len() + 1,
        final(song).instruments@.drop_last() == old(song).instruments@,
        name26_bytes(final(song).instruments@.last().name) == fitted(name.spec_bytes(), 26),
        forall|n: int| 0 <= n < 120 ==> final(song).instruments@.last().sample_map@[n] == old(song).samples@.len() as u8,
        r == final(song).instruments@.len() as u8,
        final(song).tracks == old(song).tracks,
        final(song).graph == old(song).graph,
        final(song).channels == old(song).channels,
{
    let sample_idx = song.samples.len() as u8;
    song.samples.push(sample);
    let mut inst = Instrument::new(name);
    inst.set_single_sample(sample_idx);
    song.instruments.push(inst);
    proof {
        assert(song.instruments@.drop_last() =~= old(song).instruments@);
    }
    song.instruments.len() as u8
}

/// A sequence in which undoing an edit at `beat` is exact: entries strictly
/// ordered by start, every start's beat within 32 bits, and entries on
/// `beat` starting exactly on it.
pub open spec fn undoable_at(seq: Seq<SeqEntry>, beat: u32) -> bool {
    &&& forall|i: int, j: int| 0 <= i < j < seq.len() ==> (#[trigger] seq[i]).start.lt_spec((#[trigger] seq[j]).start)
    &&& forall|i: int| 0 <= i < seq.len() ==> (#[trigger] seq[i]).start.beat <= u32::MAX
    &&& forall|i: int| 0 <= i < seq.len() && on_beat(#[trigger] seq[i], beat) ==> seq[i].start.sub_beat == 0
}

proof fn lemma_without_beat_none(s: Seq<SeqEntry>, beat: u32)
    requires
        forall|i: int| 0 <= i < s.len() ==> !on_beat(#[trigger] s[i], beat),
    ensures
        without_beat(s, beat) == s,
    decreases s.len(),
{
    if s.len() > 0 {
        assert forall|i: int| 0 <= i < s.drop_last().len() implies !on_beat(#[trigger] s.drop_last()[i], beat) by {
            assert(s.drop_last()[i] == s[i]);
        }
        lemma_without_beat_none(s.drop_last(), beat);
        assert(s.drop_last().push(s.last()) =~= s);
    }
}

proof fn lemma_without_beat_concat(a: Seq<SeqEntry>, b: Seq<SeqEntry>, beat: u32)
    ensures
        without_beat(a + b, beat) == without_beat(a, beat) + without_beat(b, beat),
    decreases b.len(),
{
    if b.len() == 0 {
        assert(a + b =~= a);
        assert(without_beat(a, beat) + without_beat(b, beat) =~= without_beat(a, beat));
    } else {
        lemma_without_beat_concat(a, b.drop_last(), beat);
        assert((a + b).drop_last() =~= a + b.drop_last());
        assert((a + b).last() == b.last());
        if on_beat(b.last(), beat) {
        } else {
            assert(without_beat(a, beat) + without_beat(b.drop_last(), beat).push(b.last())
                =~= (without_beat(a, beat) + without_beat(b.drop_last(), beat)).push(b.last()));
        }
    }
}

proof fn lemma_without_beat_clean(s: Seq<SeqEntry>, beat: u32)
    ensures
        forall|i: int| 0 <= i < without_beat(s, beat).len() ==> !on_beat(#[trigger] without_beat(s, beat)[i], beat),
    decreases s.len(),
{
    if s.len() > 0 {
        lemma_without_beat_clean(s.drop_last(), beat);
        let rest = without_beat(s.drop_last(), beat);
        if !on_beat(s.last(), beat) {
            assert forall|i: int| 0 <= i < rest.push(s.last()).len() implies !on_beat(#[trigger] rest.push(s.last())[i], beat) by {
                if i < rest.len() {
                    assert(rest.push(s.last())[i] == rest[i]);
                }
            }
        }
    }
}

proof fn lemma_single_on_beat(x: SeqEntry, beat: u32)
    requires
        on_beat(x, beat),
    ensures
        without_beat(seq![x], beat) == Seq::<SeqEntry>::empty(),
{
    let s = seq![x];
    assert(s.drop_last() =~= Seq::<SeqEntry>::empty());
    assert(s.last() == x);
    assert(without_beat(s.drop_last(), beat) == Seq::<SeqEntry>::empty());
}

proof fn lemma_first_after_sorted(s: Seq<SeqEntry>, t: MusicalTime, k: int, i: int)
    requires
        0 <= i <= k <= s.len(),
        forall|j: int| 0 <= j < k ==> !t.lt_spec(#[trigger] s[j].start),
        k < s.len() ==> t.lt_spec(s[k].start),
    ensures
        first_after(s, t, i) == k,
    decreases k - i,
{
    if i < k {
        lemma_first_after_sorted(s, t, k, i + 1);
    }
}

proof fn lemma_first_on_beat_found(seq: Seq<SeqEntry>, beat: u32, i: int)
    requires
        0 <= i <= seq.len(),
    ensures
        first_on_beat(seq, beat, i) matches Some(k) ==> i <= k < seq.len() && on_beat(seq[k], beat)
            && forall|j: int| i <= j < k ==> !on_beat(#[trigger] seq[j], beat),
        first_on_beat(seq, beat, i) is None ==> forall|j: int| i <= j < seq.len() ==> !on_beat(#[trigger] seq[j], beat),
    decreases seq.len() - i,
{
    if i < seq.len() && !crate::song::starts_on_beat(seq[i], beat) {
        lemma_first_on_beat_found(seq, beat, i + 1);
    }
}

/// Removing the entries on `beat` takes out one inserted entry on it.
proof fn lemma_without_inserted(kept: Seq<SeqEntry>, pos: int, e: SeqEntry, beat: u32)
    requires
        0 <= pos <= kept.len(),
        on_beat(e, beat),
        forall|i: int| 0 <= i < kept.len() ==> !on_beat(#[trigger] kept[i], beat),
    ensures
        without_beat(kept.insert(pos, e), beat) == kept,
{
    let a = kept.take(pos);
    let b = kept.skip(pos);
    assert(kept.insert(pos, e) =~= a + (seq![e] + b));
    lemma_without_beat_concat(a, seq![e] + b, beat);
    lemma_without_beat_concat(seq![e], b, beat);
    lemma_single_on_beat(e, beat);
    assert forall|i: int| 0 <= i < a.len() implies !on_beat(#[trigger] a[i], beat) by {
        assert(a[i] == kept[i]);
    }
    assert forall|i: int| 0 <= i < b.len() implies !on_beat(#[trigger] b[i], beat) by {
        assert(b[i] == kept[pos + i]);
    }
    lemma_without_beat_none(a, beat);
    lemma_without_beat_none(b, beat);
    assert(Seq::<SeqEntry>::empty() + b =~= b);
    assert(a + b =~= kept);
}

/// In an undoable sequence the first entry on `beat` is the only one, and
/// removing the entries on `beat` removes exactly it.
proof fn lemma_remove_single(seq: Seq<SeqEntry>, beat: u32, k: int)
    requires
        undoable_at(seq, beat),
        0 <= k < seq.len(),
        on_beat(seq[k], beat),
    ensures
        without_beat(seq, beat) == seq.take(k) + seq.skip(k + 1),
{
    assert forall|j: int| 0 <= j < seq.len() && j != k implies !on_beat(#[trigger] seq[j], beat) by {
        if on_beat(seq[j], beat) {
            if j < k {
                assert(seq[j].start.lt_spec(seq[k].start));
            } else {
                assert(seq[k].start.lt_spec(seq[j].start));
            }
        }
    }
    let before = seq.take(k);
    let after = seq.skip(k + 1);
    assert(seq =~= before + (seq![seq[k]] + after));
    lemma_without_beat_concat(before, seq![seq[k]] + after, beat);
    lemma_without_beat_concat(seq![seq[k]], after, beat);
    lemma_single_on_beat(seq[k], beat);
    assert forall|i: int| 0 <= i < before.len() implies !on_beat(#[trigger] before[i], beat) by {
        assert(before[i] == seq[i]);
    }
    assert forall|i: int| 0 <= i < after.len() implies !on_beat(#[trigger] after[i], beat) by {
        assert(after[i] == seq[k + 1 + i]);
    }
    lemma_without_beat_none(before, beat);
    lemma_without_beat_none(after, beat);
    assert(Seq::<SeqEntry>::empty() + after =~= after);
}

/// Applying the reverse of an edit at `beat` to the result of the edit gives
/// the sequence back: setting an entry at `beat` (or removing the one there)
/// is undone by restoring the entry that was on `beat` before (or none), for
/// sequences ordered by start whose entries on `beat` start exactly on it.
pub proof fn lemma_set_entry_undo(seq: Seq<SeqEntry>, beat: u32, entry: Option<SeqEntryData>)
    requires
        undoable_at(seq, beat),
    ensures
        set_entry_spec(set_entry_spec(seq, beat, entry), beat, data_at_beat(seq, beat)) == seq,
{
    let kept = without_beat(seq, beat);
    lemma_without_beat_clean(seq, beat);
    let s1 = set_entry_spec(seq, beat, entry);
    match entry {
        None => {
            lemma_without_beat_none(kept, beat);
        },
        Some(data) => {
            let e = placed_entry(beat, data);
            lemma_without_beat_len(seq, beat);
            lemma_first_after_bounds(kept, e.start, 0);
            lemma_without_inserted(kept, first_after(kept, e.start, 0), e, beat);
        },
    }
    assert(without_beat(s1, beat) == kept);
    lemma_first_on_beat_found(seq, beat, 0);
    match first_on_beat(seq, beat, 0) {
        None => {
            lemma_without_beat_none(seq, beat);
        },
        Some(k) => {
            lemma_remove_single(seq, beat, k);
            let e = placed_entry(beat, entry_data(seq[k]));
            assert(e == seq[k]);
            assert forall|j: int| 0 <= j < k implies !e.start.lt_spec(#[trigger] kept[j].start) by {
                assert(kept[j] == seq[j]);
                assert(seq[j].start.lt_spec(seq[k].start));
            }
            if k < kept.len() {
                assert(kept[k] == seq[k + 1]);
                assert(seq[k].start.lt_spec(seq[k + 1].start));
            }
            lemma_first_after_sorted(kept, e.start, k, 0);
            assert(kept.insert(k, e) =~= seq);
        },
    }
}

/// Two songs agree on everything but their tracks.
pub open spec fn same_song_settings(a: Song, b: Song) -> bool {
    &&& a.title == b.title
    &&& a.initial_tempo == b.initial_tempo
    &&& a.initial_speed == b.initial_speed
    &&& a.rows_per_beat == b.rows_per_beat
    &&& a.global_volume == b.global_volume
    &&& a.instruments == b.instruments
    &&& a.samples == b.samples
    &&& a.channels == b.channels
    &&& a.graph == b.graph
}

} // verus!
