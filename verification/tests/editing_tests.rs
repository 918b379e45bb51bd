use masterblaster::editing::{
    add_clip, add_sample_instrument, add_seq_entry, apply_edit_to_song, frames_until_report,
    initial_bypasses, new_song, remove_last_seq_entry, remove_seq_entry, seq_entry_at,
    set_seq_entry, toggle_track_mute, track_end_time, would_overlap,
};
use masterblaster::edit::Edit;
use masterblaster::musical_time::MusicalTime;
use masterblaster::pattern::{Cell, Note, Pattern};
use masterblaster::sample::Sample;
use masterblaster::song::{Clip, SeqEntry, SeqTermination, Song, Track};

/// A song of 4 channels: one track, clip 0 of 64 rows played at beat 0 and
/// clip 1 of 16 rows, at 4 rows per beat.
fn test_song() -> Song {
    let mut song = new_song(4);
    add_clip(&mut song, 0, 16);
    song
}

#[test]
fn set_seq_entry_inserts_sorted() {
    let mut song = test_song();
    let result = set_seq_entry(&mut song, 0, 16, 1);
    assert!(result.is_some());
    let track = &song.tracks[0];
    assert_eq!(track.sequence.len(), 2);
    assert_eq!(track.sequence[0].start.beat, 0);
    assert_eq!(track.sequence[1].start.beat, 16);
    assert_eq!(track.sequence[1].clip_idx, 1);
}

#[test]
fn remove_seq_entry_at_beat() {
    let mut song = test_song();
    let result = remove_seq_entry(&mut song, 0, 0);
    assert!(result.is_some());
    assert!(song.tracks[0].sequence.is_empty());
}

#[test]
fn remove_seq_entry_nonexistent_returns_none() {
    let song = test_song();
    assert!(seq_entry_at(&song, 0, 99).is_none());
    let mut song2 = test_song();
    assert!(remove_seq_entry(&mut song2, 0, 99).is_none());
}

#[test]
fn overlap_rejection() {
    let mut song = test_song();
    let result = set_seq_entry(&mut song, 0, 4, 0);
    assert!(result.is_none(), "Should reject overlapping placement");
}

#[test]
fn overlap_allows_adjacent() {
    let mut song = test_song();
    let result = set_seq_entry(&mut song, 0, 16, 1);
    assert!(result.is_some(), "Adjacent placement should succeed");
}

#[test]
fn set_seq_entry_undo_round_trip() {
    let mut song = test_song();
    remove_seq_entry(&mut song, 0, 0);
    assert!(song.tracks[0].sequence.is_empty());

    let (fwd, rev) = set_seq_entry(&mut song, 0, 0, 0).unwrap();
    assert_eq!(song.tracks[0].sequence.len(), 1);

    apply_edit_to_song(&mut song, &rev);
    assert!(song.tracks[0].sequence.is_empty());

    apply_edit_to_song(&mut song, &fwd);
    assert_eq!(song.tracks[0].sequence.len(), 1);
}

#[test]
fn seq_entry_at_beat_lookup() {
    let song = test_song();
    let entry = seq_entry_at(&song, 0, 0);
    assert!(entry.is_some());
    assert_eq!(entry.unwrap().clip_idx, 0);
    assert!(seq_entry_at(&song, 0, 99).is_none());
}

fn one_clip_track() -> Track {
    let mut track = Track::new(None, 0, 4);
    track.clips.push(Clip::Pattern(Pattern::new(16, 4)));
    track.sequence.push(SeqEntry {
        start: MusicalTime::zero(),
        clip_idx: 0,
        length: 16,
        termination: SeqTermination::Natural,
    });
    track
}

#[test]
fn would_overlap_no_conflict() {
    let track = one_clip_track();
    assert!(!would_overlap(&track, 4, 16, 4));
}

#[test]
fn would_overlap_detects_conflict() {
    let track = one_clip_track();
    assert!(would_overlap(&track, 2, 16, 4));
}

#[test]
fn remove_then_undo_restores_the_entry() {
    let mut song = test_song();
    set_seq_entry(&mut song, 0, 16, 1).unwrap();
    let before = song.tracks[0].sequence.clone();
    let (_fwd, rev) = remove_seq_entry(&mut song, 0, 16).unwrap();
    assert_eq!(song.tracks[0].sequence.len(), 1);
    apply_edit_to_song(&mut song, &rev);
    assert_eq!(song.tracks[0].sequence, before);
}

#[test]
fn replacing_an_entry_undoes_to_the_old_one() {
    let mut song = test_song();
    // beat 0 holds clip 0; put clip 1 there instead
    let (_fwd, rev) = set_seq_entry(&mut song, 0, 0, 1).unwrap();
    assert_eq!(song.tracks[0].sequence.len(), 1);
    assert_eq!(song.tracks[0].sequence[0].clip_idx, 1);
    apply_edit_to_song(&mut song, &rev);
    assert_eq!(song.tracks[0].sequence[0].clip_idx, 0);
    assert_eq!(song.tracks[0].sequence[0].length, 64);
}

#[test]
fn set_cell_edit_changes_one_cell() {
    let mut song = test_song();
    let cell = Cell { note: Note::On(50), instrument: 2, ..Cell::empty() };
    apply_edit_to_song(&mut song, &Edit::SetCell { track: 0, clip: 0, row: 3, column: 1, cell });
    let p = song.tracks[0].clips[0].pattern().unwrap();
    assert_eq!(*p.cell(3, 1), cell);
    assert!(p.cell(3, 0).is_empty());
}

#[test]
fn new_song_has_one_track_playing_one_clip() {
    let song = new_song(4);
    assert_eq!(song.tracks.len(), 1);
    assert_eq!(song.tracks[0].clips.len(), 1);
    assert_eq!(song.tracks[0].sequence.len(), 1);
    assert_eq!(song.tracks[0].sequence[0].length, 64);
    assert_eq!(song.channels.len(), 4);
    assert!(song.is_tracker(&song.tracks[0]));
}

#[test]
fn add_clip_and_seq_entry_append_after_the_end() {
    let mut song = new_song(2);
    let c = add_clip(&mut song, 0, 8);
    assert_eq!(c, 1);
    assert_eq!(track_end_time(&song, 0), MusicalTime::from_beats(16));
    add_seq_entry(&mut song, 0, c);
    let seq = &song.tracks[0].sequence;
    assert_eq!(seq.len(), 2);
    assert_eq!(seq[1].start, MusicalTime::from_beats(16));
    assert_eq!(seq[1].length, 8);
    assert_eq!(track_end_time(&song, 0), MusicalTime::from_beats(18));
    remove_last_seq_entry(&mut song, 0);
    assert_eq!(song.tracks[0].sequence.len(), 1);
    // no such track
    assert_eq!(add_clip(&mut song, 9, 8), 0);
}

#[test]
fn toggle_mute_twice_restores() {
    let mut song = new_song(2);
    let e = toggle_track_mute(&mut song, 0);
    assert!(e.is_some());
    assert!(song.tracks[0].muted);
    toggle_track_mute(&mut song, 0);
    assert!(!song.tracks[0].muted);
    assert!(toggle_track_mute(&mut song, 5).is_none());
}

#[test]
fn sample_instrument_maps_all_notes() {
    let mut song = new_song(1);
    // the 1-based number of the new instrument
    let i = add_sample_instrument(&mut song, Sample::new("s"), "inst");
    assert_eq!(i, 1);
    assert_eq!(song.samples.len(), 1);
    assert!(song.instruments[0].sample_map.iter().all(|&s| s == 0));
}

#[test]
fn report_interval_batches() {
    assert_eq!(frames_until_report(0, 100, 64), 64);
    assert_eq!(frames_until_report(90, 100, 64), 10);
    assert_eq!(frames_until_report(100, 100, 64), 64);
}

#[test]
fn no_bypasses_without_muted_tracks() {
    let song = new_song(2);
    assert!(initial_bypasses(&song).is_empty());
}
