use masterblaster::clip_source::ClipSourceState;
use masterblaster::effects::{Effect, VolumeCommand};
use masterblaster::event::Event;
use masterblaster::event_source::EventSource;
use masterblaster::musical_time::MusicalTime;
use masterblaster::pattern::{Note, Pattern};
use masterblaster::scheduler::schedule_song;
use masterblaster::song::{build_tracks, OrderEntry, Song};

/// Build a minimal 1-channel song with a single pattern.
fn one_channel_song(pattern: Pattern) -> Song {
    let mut song = Song::with_channels("test", 1);
    let patterns = vec![pattern];
    let order = vec![OrderEntry::Pattern(0)];
    build_tracks(&mut song, &patterns, &order);
    song
}

/// Build a song from patterns + order.
fn song_from(channels: u8, patterns: Vec<Pattern>, order: Vec<OrderEntry>) -> Song {
    let mut song = Song::with_channels("test", channels);
    build_tracks(&mut song, &patterns, &order);
    song
}

/// Drain a ClipSource to completion, collecting all events.
fn drain_all(song: &Song, track_idx: usize) -> Vec<Event> {
    let mut source = ClipSourceState::new(song, track_idx);
    let mut events = Vec::new();
    let far_future = MusicalTime::from_beats(10000);
    source.drain_until(far_future, song, &mut events);
    events
}

/// Drain all sources and compare with schedule_song output.
fn assert_matches_schedule_song(song: &Song) {
    let expected = schedule_song(song);
    let mut expected_events = expected.events;
    expected_events.sort_by(|a, b| a.time.cmp(&b.time));

    let mut actual_events = Vec::new();
    for track_idx in 0..song.tracks.len() {
        let mut source = ClipSourceState::new(song, track_idx);
        let far_future = MusicalTime::from_beats(10000);
        source.drain_until(far_future, song, &mut actual_events);
    }
    actual_events.sort_by(|a, b| a.time.cmp(&b.time));

    assert_eq!(
        actual_events.len(), expected_events.len(),
        "event count mismatch: clip_source={}, schedule_song={}",
        actual_events.len(), expected_events.len()
    );

    for (i, (actual, expected)) in actual_events.iter().zip(expected_events.iter()).enumerate() {
        assert_eq!(
            actual.time, expected.time,
            "time mismatch at event {}: {:?} vs {:?}",
            i, actual, expected
        );
        assert_eq!(
            actual.target, expected.target,
            "target mismatch at event {}: {:?} vs {:?}",
            i, actual, expected
        );
        assert_eq!(
            actual.payload, expected.payload,
            "payload mismatch at event {}: {:?} vs {:?}",
            i, actual, expected
        );
    }
}

#[test]
fn clip_source_empty_pattern_produces_no_events() {
    let song = one_channel_song(Pattern::new(4, 1));
    let events = drain_all(&song, 0);
    assert!(events.is_empty());
}

#[test]
fn single_note_matches_scheduler() {
    let mut pat = Pattern::new(4, 1);
    pat.cell_mut(0, 0).note = Note::On(60);
    pat.cell_mut(0, 0).instrument = 1;
    assert_matches_schedule_song(&one_channel_song(pat));
}

#[test]
fn multiple_channels_matches_scheduler() {
    let mut pat = Pattern::new(4, 3);
    pat.cell_mut(0, 0).note = Note::On(60);
    pat.cell_mut(0, 0).instrument = 1;
    pat.cell_mut(0, 2).note = Note::On(64);
    pat.cell_mut(0, 2).instrument = 1;
    assert_matches_schedule_song(&song_from(3, vec![pat], vec![OrderEntry::Pattern(0)]));
}

#[test]
fn two_patterns_matches_scheduler() {
    let mut pat0 = Pattern::new(4, 1);
    pat0.cell_mut(0, 0).note = Note::On(60);
    pat0.cell_mut(0, 0).instrument = 1;
    let mut pat1 = Pattern::new(4, 1);
    pat1.cell_mut(0, 0).note = Note::On(64);
    pat1.cell_mut(0, 0).instrument = 1;
    assert_matches_schedule_song(&song_from(
        1, vec![pat0, pat1],
        vec![OrderEntry::Pattern(0), OrderEntry::Pattern(1)],
    ));
}

#[test]
fn repeated_pattern_matches_scheduler() {
    let mut pat = Pattern::new(4, 1);
    pat.cell_mut(0, 0).note = Note::On(60);
    pat.cell_mut(0, 0).instrument = 1;
    assert_matches_schedule_song(&song_from(
        1, vec![pat],
        vec![OrderEntry::Pattern(0), OrderEntry::Pattern(0)],
    ));
}

#[test]
fn pattern_break_matches_scheduler() {
    let mut pat0 = Pattern::new(4, 1);
    pat0.cell_mut(0, 0).note = Note::On(60);
    pat0.cell_mut(0, 0).instrument = 1;
    pat0.cell_mut(1, 0).effect = Effect::PatternBreak(0);
    let mut pat1 = Pattern::new(4, 1);
    pat1.cell_mut(0, 0).note = Note::On(64);
    pat1.cell_mut(0, 0).instrument = 1;
    assert_matches_schedule_song(&song_from(
        1, vec![pat0, pat1],
        vec![OrderEntry::Pattern(0), OrderEntry::Pattern(1)],
    ));
}

#[test]
fn position_jump_matches_scheduler() {
    let mut pat0 = Pattern::new(2, 1);
    pat0.cell_mut(0, 0).note = Note::On(60);
    pat0.cell_mut(0, 0).instrument = 1;
    pat0.cell_mut(0, 0).effect = Effect::PositionJump(2);
    let mut pat1 = Pattern::new(2, 1);
    pat1.cell_mut(0, 0).note = Note::On(62);
    pat1.cell_mut(0, 0).instrument = 1;
    let mut pat2 = Pattern::new(2, 1);
    pat2.cell_mut(0, 0).note = Note::On(64);
    pat2.cell_mut(0, 0).instrument = 1;
    assert_matches_schedule_song(&song_from(
        1, vec![pat0, pat1, pat2],
        vec![OrderEntry::Pattern(0), OrderEntry::Pattern(1), OrderEntry::Pattern(2)],
    ));
}

#[test]
fn set_speed_matches_scheduler() {
    let mut pat = Pattern::new(4, 1);
    pat.ticks_per_row = 0;
    pat.cell_mut(0, 0).note = Note::On(60);
    pat.cell_mut(0, 0).instrument = 1;
    pat.cell_mut(1, 0).effect = Effect::SetSpeed(3);
    pat.cell_mut(2, 0).note = Note::On(64);
    pat.cell_mut(2, 0).instrument = 1;
    assert_matches_schedule_song(&one_channel_song(pat));
}

#[test]
fn note_delay_matches_scheduler() {
    let mut pat = Pattern::new(4, 1);
    pat.cell_mut(0, 0).note = Note::On(60);
    pat.cell_mut(0, 0).instrument = 1;
    pat.cell_mut(0, 0).effect = Effect::NoteDelay(3);
    assert_matches_schedule_song(&one_channel_song(pat));
}

#[test]
fn pattern_delay_matches_scheduler() {
    let mut pat = Pattern::new(4, 1);
    pat.cell_mut(0, 0).effect = Effect::PatternDelay(1);
    pat.cell_mut(1, 0).note = Note::On(60);
    pat.cell_mut(1, 0).instrument = 1;
    assert_matches_schedule_song(&one_channel_song(pat));
}

#[test]
fn effects_and_volume_match_scheduler() {
    let mut pat = Pattern::new(4, 1);
    pat.cell_mut(0, 0).note = Note::On(60);
    pat.cell_mut(0, 0).instrument = 1;
    pat.cell_mut(0, 0).effect = Effect::VolumeSlide(4);
    pat.cell_mut(0, 0).volume = VolumeCommand::Volume(48);
    assert_matches_schedule_song(&one_channel_song(pat));
}

#[test]
fn incremental_drain_matches_full_drain() {
    let mut pat = Pattern::new(8, 1);
    pat.cell_mut(0, 0).note = Note::On(60);
    pat.cell_mut(0, 0).instrument = 1;
    pat.cell_mut(4, 0).note = Note::On(64);
    pat.cell_mut(4, 0).instrument = 1;
    let song = one_channel_song(pat);

    // Drain incrementally (one beat at a time)
    let mut source = ClipSourceState::new(&song, 0);
    let mut incremental = Vec::new();
    for beat in 0..10 {
        source.drain_until(MusicalTime::from_beats(beat), &song, &mut incremental);
    }

    // Drain all at once
    let full = drain_all(&song, 0);

    assert_eq!(incremental.len(), full.len());
    for (i, (a, b)) in incremental.iter().zip(full.iter()).enumerate() {
        assert_eq!(a.time, b.time, "time mismatch at {}", i);
        assert_eq!(a.payload, b.payload, "payload mismatch at {}", i);
    }
}

#[test]
fn exhausted_source_returns_none_peek() {
    let song = one_channel_song(Pattern::new(4, 1));
    let mut source = ClipSourceState::new(&song, 0);
    source.drain_until(MusicalTime::from_beats(10000), &song, &mut Vec::new());
    assert!(source.peek_time().is_none());
}

#[test]
fn tone_porta_matches_scheduler() {
    let mut pat = Pattern::new(4, 1);
    pat.cell_mut(0, 0).note = Note::On(60);
    pat.cell_mut(0, 0).instrument = 1;
    pat.cell_mut(0, 0).effect = Effect::TonePorta(8);
    assert_matches_schedule_song(&one_channel_song(pat));
}


#[test]
fn draining_in_two_steps_equals_one_step() {
    let mut pat = Pattern::new(8, 2);
    pat.cell_mut(1, 0).note = Note::On(60);
    pat.cell_mut(1, 0).instrument = 1;
    pat.cell_mut(5, 1).note = Note::On(62);
    pat.cell_mut(5, 1).instrument = 1;
    let song = song_from(2, vec![pat], vec![OrderEntry::Pattern(0), OrderEntry::Pattern(0)]);
    let mut a = ClipSourceState::new(&song, 0);
    let mut split = Vec::new();
    let n1 = a.drain_until(MusicalTime::from_beats(1), &song, &mut split);
    let n2 = a.drain_until(MusicalTime::from_beats(3), &song, &mut split);
    let mut b = ClipSourceState::new(&song, 0);
    let mut whole = Vec::new();
    let n = b.drain_until(MusicalTime::from_beats(3), &song, &mut whole);
    assert_eq!(n1 + n2, n);
    assert_eq!(split, whole);
    // notes at beats 0.25, 1.25 and 2.25; the one at 3.25 is later
    assert_eq!(whole.len(), 3);
}

#[test]
fn muted_track_source_is_exhausted() {
    let mut pat = Pattern::new(4, 1);
    pat.cell_mut(0, 0).note = Note::On(60);
    let mut song = one_channel_song(pat);
    song.tracks[0].muted = true;
    let mut source = ClipSourceState::new(&song, 0);
    let mut out = Vec::new();
    assert_eq!(source.drain_until(MusicalTime::from_beats(100), &song, &mut out), 0);
    assert!(out.is_empty());
    assert_eq!(source.end_time(), Some(MusicalTime::zero()));
}
