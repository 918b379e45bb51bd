use masterblaster::effects::{Effect, VolumeCommand};
use masterblaster::event::{Event, EventPayload, EventTarget};
use masterblaster::musical_time::MusicalTime;
use masterblaster::pattern::{Note, Pattern};
use masterblaster::scheduler::{schedule_song, time_for_track_clip_row};
use masterblaster::song::{build_tracks, find_tracker_node, Clip, OrderEntry, SeqEntry, SeqTermination, Song, Track};

/// Schedule and return just the events (convenience for tests).
fn schedule_events(song: &Song) -> Vec<Event> {
    schedule_song(song).events
}

/// Build a minimal 1-channel song with a single pattern via build_tracks.
fn one_channel_song(pattern: Pattern) -> Song {
    let mut song = Song::with_channels("test", 1);
    let patterns = vec![pattern];
    let order = vec![OrderEntry::Pattern(0)];
    build_tracks(&mut song, &patterns, &order);
    song
}

/// Build a song from patterns + order via build_tracks.
fn song_from(channels: u8, patterns: Vec<Pattern>, order: Vec<OrderEntry>) -> Song {
    let mut song = Song::with_channels("test", channels);
    build_tracks(&mut song, &patterns, &order);
    song
}

/// MusicalTime for row N at rpb=4 (default).
fn time_at_row(n: u32) -> MusicalTime {
    MusicalTime::zero().add_rows(n, 4)
}

#[test]
fn scheduler_empty_pattern_produces_no_events() {
    let song = one_channel_song(Pattern::new(4, 1));
    let events = schedule_events(&song);
    assert!(events.is_empty());
}

#[test]
fn single_note_at_row_zero() {
    let mut pat = Pattern::new(4, 1);
    pat.cell_mut(0, 0).note = Note::On(60);
    pat.cell_mut(0, 0).instrument = 1;

    let events = schedule_events(&one_channel_song(pat));

    assert_eq!(events.len(), 1);
    assert_eq!(events[0].time, MusicalTime::zero());
    assert_eq!(events[0].target, EventTarget::NodeChannel(2, 0));
    assert_eq!(
        events[0].payload,
        EventPayload::NoteOn { note: 60, velocity: 64, instrument: 1 }
    );
}

#[test]
fn note_at_row_n_offset_by_rows_per_beat() {
    let mut pat = Pattern::new(8, 1);
    pat.cell_mut(3, 0).note = Note::On(48);
    pat.cell_mut(3, 0).instrument = 2;

    let events = schedule_events(&one_channel_song(pat));

    assert_eq!(events.len(), 1);
    assert_eq!(events[0].time, time_at_row(3));
}

#[test]
fn note_off_produces_note_off_event() {
    let mut pat = Pattern::new(4, 1);
    pat.cell_mut(1, 0).note = Note::Off;

    let events = schedule_events(&one_channel_song(pat));

    assert_eq!(events.len(), 1);
    assert_eq!(events[0].time, time_at_row(1));
    assert_eq!(events[0].payload, EventPayload::NoteOff { note: 0 });
}

#[test]
fn multiple_channels_same_row() {
    let mut pat = Pattern::new(4, 3);
    pat.cell_mut(0, 0).note = Note::On(60);
    pat.cell_mut(0, 0).instrument = 1;
    pat.cell_mut(0, 2).note = Note::On(64);
    pat.cell_mut(0, 2).instrument = 1;

    let song = song_from(3, vec![pat], vec![OrderEntry::Pattern(0)]);
    let events = schedule_events(&song);

    assert_eq!(events.len(), 2);
    assert_eq!(events[0].target, EventTarget::NodeChannel(2, 0));
    assert_eq!(events[1].target, EventTarget::NodeChannel(2, 2));
    assert_eq!(events[0].time, MusicalTime::zero());
    assert_eq!(events[1].time, MusicalTime::zero());
}

#[test]
fn two_patterns_in_order_offsets_correctly() {
    let mut pat0 = Pattern::new(4, 1);
    pat0.cell_mut(0, 0).note = Note::On(60);
    pat0.cell_mut(0, 0).instrument = 1;

    let mut pat1 = Pattern::new(4, 1);
    pat1.cell_mut(0, 0).note = Note::On(64);
    pat1.cell_mut(0, 0).instrument = 1;

    let song = song_from(1, vec![pat0, pat1],
        vec![OrderEntry::Pattern(0), OrderEntry::Pattern(1)]);
    let events = schedule_events(&song);

    assert_eq!(events.len(), 2);
    assert_eq!(events[0].time, MusicalTime::zero());
    assert_eq!(events[1].time, MusicalTime::from_beats(1));
}

#[test]
fn repeated_pattern_in_order() {
    let mut pat = Pattern::new(4, 1);
    pat.cell_mut(0, 0).note = Note::On(60);
    pat.cell_mut(0, 0).instrument = 1;

    let song = song_from(1, vec![pat],
        vec![OrderEntry::Pattern(0), OrderEntry::Pattern(0)]);
    let events = schedule_events(&song);

    assert_eq!(events.len(), 2);
    assert_eq!(events[0].time, MusicalTime::zero());
    assert_eq!(events[1].time, MusicalTime::from_beats(1));
}

#[test]
fn set_tempo_routes_to_global() {
    let mut pat = Pattern::new(4, 1);
    pat.cell_mut(1, 0).effect = Effect::SetTempo(140);

    let events = schedule_events(&one_channel_song(pat));

    assert_eq!(events.len(), 1);
    assert_eq!(events[0].target, EventTarget::Global);
    assert_eq!(events[0].payload, EventPayload::SetTempo(14000));
}

#[test]
fn set_speed_routes_to_global() {
    let mut pat = Pattern::new(4, 1);
    pat.cell_mut(0, 0).effect = Effect::SetSpeed(3);

    let events = schedule_events(&one_channel_song(pat));

    assert_eq!(events.len(), 1);
    assert_eq!(events[0].target, EventTarget::Global);
    assert_eq!(events[0].payload, EventPayload::SetSpeed(3));
}

#[test]
fn effect_routes_to_channel() {
    let mut pat = Pattern::new(4, 1);
    pat.cell_mut(0, 0).effect = Effect::VolumeSlide(4);

    let events = schedule_events(&one_channel_song(pat));

    assert_eq!(events.len(), 1);
    assert_eq!(events[0].target, EventTarget::NodeChannel(2, 0));
    assert_eq!(events[0].payload, EventPayload::Effect(Effect::VolumeSlide(4)));
}

#[test]
fn note_and_effect_on_same_cell() {
    let mut pat = Pattern::new(4, 1);
    pat.cell_mut(0, 0).note = Note::On(60);
    pat.cell_mut(0, 0).instrument = 1;
    pat.cell_mut(0, 0).effect = Effect::VolumeSlide(2);

    let events = schedule_events(&one_channel_song(pat));

    assert_eq!(events.len(), 2);
    assert!(matches!(events[0].payload, EventPayload::NoteOn { .. }));
    assert!(matches!(events[1].payload, EventPayload::Effect(_)));
    assert_eq!(events[0].time, events[1].time);
}

#[test]
fn volume_column_produces_event() {
    let mut pat = Pattern::new(4, 1);
    pat.cell_mut(0, 0).volume = VolumeCommand::Volume(48);

    let events = schedule_events(&one_channel_song(pat));

    assert_eq!(events.len(), 1);
    assert_eq!(events[0].payload, EventPayload::Effect(Effect::SetVolume(48)));
}

#[test]
fn order_end_stops_scheduling() {
    let mut pat = Pattern::new(4, 1);
    pat.cell_mut(0, 0).note = Note::On(60);
    pat.cell_mut(0, 0).instrument = 1;

    let song = song_from(1, vec![pat],
        vec![OrderEntry::Pattern(0), OrderEntry::End, OrderEntry::Pattern(0)]);
    let events = schedule_events(&song);
    assert_eq!(events.len(), 1);
}

#[test]
fn order_skip_is_ignored() {
    let mut pat = Pattern::new(4, 1);
    pat.cell_mut(0, 0).note = Note::On(60);
    pat.cell_mut(0, 0).instrument = 1;

    let song = song_from(1, vec![pat],
        vec![OrderEntry::Pattern(0), OrderEntry::Skip, OrderEntry::Pattern(0)]);
    let events = schedule_events(&song);

    assert_eq!(events.len(), 2);
    assert_eq!(events[0].time, MusicalTime::zero());
    assert_eq!(events[1].time, MusicalTime::from_beats(1));
}

#[test]
fn total_time_matches_pattern_rows() {
    let pat = Pattern::new(4, 1);
    let result = schedule_song(&one_channel_song(pat));
    assert_eq!(result.total_time, MusicalTime::from_beats(1));
}

#[test]
fn total_time_sums_across_order() {
    let song = song_from(1, vec![Pattern::new(8, 1)],
        vec![OrderEntry::Pattern(0), OrderEntry::Pattern(0)]);
    let result = schedule_song(&song);
    assert_eq!(result.total_time, MusicalTime::from_beats(4));
}

#[test]
fn tone_porta_with_note_emits_porta_target() {
    let mut pat = Pattern::new(4, 1);
    pat.cell_mut(0, 0).note = Note::On(60);
    pat.cell_mut(0, 0).instrument = 1;
    pat.cell_mut(0, 0).effect = Effect::TonePorta(8);

    let events = schedule_events(&one_channel_song(pat));

    assert_eq!(events.len(), 2);
    assert_eq!(
        events[0].payload,
        EventPayload::PortaTarget { note: 60, instrument: 1 }
    );
    assert!(matches!(events[1].payload, EventPayload::Effect(Effect::TonePorta(8))));
}

#[test]
fn tone_porta_vol_slide_with_note_emits_porta_target() {
    let mut pat = Pattern::new(4, 1);
    pat.cell_mut(0, 0).note = Note::On(64);
    pat.cell_mut(0, 0).instrument = 2;
    pat.cell_mut(0, 0).effect = Effect::TonePortaVolSlide(4);

    let events = schedule_events(&one_channel_song(pat));

    assert_eq!(events.len(), 2);
    assert_eq!(
        events[0].payload,
        EventPayload::PortaTarget { note: 64, instrument: 2 }
    );
}

#[test]
fn note_without_tone_porta_still_emits_note_on() {
    let mut pat = Pattern::new(4, 1);
    pat.cell_mut(0, 0).note = Note::On(60);
    pat.cell_mut(0, 0).instrument = 1;
    pat.cell_mut(0, 0).effect = Effect::VolumeSlide(4);

    let events = schedule_events(&one_channel_song(pat));

    assert_eq!(events.len(), 2);
    assert!(matches!(events[0].payload, EventPayload::NoteOn { .. }));
}

// --- PatternBreak tests ---

#[test]
fn pattern_break_skips_to_next_pattern() {
    let mut pat0 = Pattern::new(4, 1);
    pat0.cell_mut(0, 0).note = Note::On(60);
    pat0.cell_mut(0, 0).instrument = 1;
    pat0.cell_mut(1, 0).effect = Effect::PatternBreak(0);

    let mut pat1 = Pattern::new(4, 1);
    pat1.cell_mut(0, 0).note = Note::On(64);
    pat1.cell_mut(0, 0).instrument = 1;

    let result = schedule_song(&song_from(1, vec![pat0, pat1],
        vec![OrderEntry::Pattern(0), OrderEntry::Pattern(1)]));

    let notes: Vec<_> = result.events.iter().filter_map(|e| match e.payload {
        EventPayload::NoteOn { note, .. } => Some((note, e.time)),
        _ => None,
    }).collect();

    assert_eq!(notes[0], (60, MusicalTime::zero()));
    assert_eq!(notes[1], (64, time_at_row(2)));
}

#[test]
fn pattern_break_to_specific_row() {
    let mut pat0 = Pattern::new(2, 1);
    pat0.cell_mut(0, 0).effect = Effect::PatternBreak(2);

    let mut pat1 = Pattern::new(4, 1);
    pat1.cell_mut(2, 0).note = Note::On(60);
    pat1.cell_mut(2, 0).instrument = 1;

    let events = schedule_events(&song_from(1, vec![pat0, pat1],
        vec![OrderEntry::Pattern(0), OrderEntry::Pattern(1)]));

    let notes: Vec<_> = events.iter().filter_map(|e| match e.payload {
        EventPayload::NoteOn { note, .. } => Some((note, e.time)),
        _ => None,
    }).collect();

    assert_eq!(notes, vec![(60, time_at_row(1))]);
}

#[test]
fn pattern_break_total_time() {
    let mut pat0 = Pattern::new(4, 1);
    pat0.cell_mut(1, 0).effect = Effect::PatternBreak(0);

    let result = schedule_song(&song_from(1, vec![pat0, Pattern::new(4, 1)],
        vec![OrderEntry::Pattern(0), OrderEntry::Pattern(1)]));
    assert_eq!(result.total_time, time_at_row(6));
}

// --- PositionJump tests ---

#[test]
fn position_jump_to_later_order() {
    let mut pat0 = Pattern::new(2, 1);
    pat0.cell_mut(0, 0).note = Note::On(60);
    pat0.cell_mut(0, 0).instrument = 1;
    pat0.cell_mut(0, 0).effect = Effect::PositionJump(2);

    let mut pat1 = Pattern::new(2, 1);
    pat1.cell_mut(0, 0).note = Note::On(62);
    pat1.cell_mut(0, 0).instrument = 1;

    let mut pat2 = Pattern::new(2, 1);
    pat2.cell_mut(0, 0).note = Note::On(64);
    pat2.cell_mut(0, 0).instrument = 1;

    let events = schedule_events(&song_from(1, vec![pat0, pat1, pat2],
        vec![OrderEntry::Pattern(0), OrderEntry::Pattern(1), OrderEntry::Pattern(2)]));

    let notes: Vec<_> = events.iter().filter_map(|e| match e.payload {
        EventPayload::NoteOn { note, .. } => Some(note),
        _ => None,
    }).collect();
    assert_eq!(notes, vec![60, 64]);
    assert_eq!(events[0].time, MusicalTime::zero());
}

#[test]
fn position_jump_backwards_terminates() {
    let mut pat = Pattern::new(2, 1);
    pat.cell_mut(1, 0).effect = Effect::PositionJump(0);

    let result = schedule_song(&one_channel_song(pat));
    assert!(result.total_time > MusicalTime::zero());
}

// --- Combined PatternBreak + PositionJump ---

#[test]
fn position_jump_with_pattern_break() {
    let mut pat0 = Pattern::new(2, 2);
    pat0.cell_mut(0, 0).effect = Effect::PositionJump(2);
    pat0.cell_mut(0, 1).effect = Effect::PatternBreak(1);

    let mut pat1 = Pattern::new(4, 2);
    pat1.cell_mut(0, 0).note = Note::On(62);
    pat1.cell_mut(0, 0).instrument = 1;

    let mut pat2 = Pattern::new(4, 2);
    pat2.cell_mut(1, 0).note = Note::On(64);
    pat2.cell_mut(1, 0).instrument = 1;

    let events = schedule_events(&song_from(2, vec![pat0, pat1, pat2],
        vec![OrderEntry::Pattern(0), OrderEntry::Pattern(1), OrderEntry::Pattern(2)]));

    let notes: Vec<_> = events.iter().filter_map(|e| match e.payload {
        EventPayload::NoteOn { note, .. } => Some(note),
        _ => None,
    }).collect();
    assert_eq!(notes, vec![64]);
}

// --- SetSpeed ---

#[test]
fn set_speed_does_not_change_row_timing() {
    let mut pat = Pattern::new(4, 1);
    pat.ticks_per_row = 0;
    pat.cell_mut(0, 0).note = Note::On(60);
    pat.cell_mut(0, 0).instrument = 1;
    pat.cell_mut(1, 0).effect = Effect::SetSpeed(3);
    pat.cell_mut(2, 0).note = Note::On(64);
    pat.cell_mut(2, 0).instrument = 1;

    let result = schedule_song(&one_channel_song(pat));

    let note_events: Vec<_> = result.events.iter().filter_map(|e| match e.payload {
        EventPayload::NoteOn { note, .. } => Some((note, e.time)),
        _ => None,
    }).collect();

    assert_eq!(note_events, vec![
        (60, MusicalTime::zero()),
        (64, time_at_row(2)),
    ]);
}

#[test]
fn set_speed_still_emits_event() {
    let mut pat = Pattern::new(4, 1);
    pat.ticks_per_row = 0;
    pat.cell_mut(2, 0).effect = Effect::SetSpeed(3);

    let result = schedule_song(&one_channel_song(pat));
    let speed_events: Vec<_> = result.events.iter().filter(|e|
        matches!(e.payload, EventPayload::SetSpeed(_))
    ).collect();
    assert_eq!(speed_events.len(), 1);
}

// --- NoteDelay tests ---

#[test]
fn note_delay_offsets_note_event() {
    let mut pat = Pattern::new(4, 1);
    pat.cell_mut(0, 0).note = Note::On(60);
    pat.cell_mut(0, 0).instrument = 1;
    pat.cell_mut(0, 0).effect = Effect::NoteDelay(3);

    let events = schedule_events(&one_channel_song(pat));

    let note = events.iter().find(|e| matches!(e.payload, EventPayload::NoteOn { .. }));
    assert!(note.is_some());
    let expected = MusicalTime::zero().add_ticks(3, 24);
    assert_eq!(note.unwrap().time, expected);
}

#[test]
fn note_delay_zero_plays_normally() {
    let mut pat = Pattern::new(4, 1);
    pat.cell_mut(0, 0).note = Note::On(60);
    pat.cell_mut(0, 0).instrument = 1;
    pat.cell_mut(0, 0).effect = Effect::NoteDelay(0);

    let events = schedule_events(&one_channel_song(pat));

    let note = events.iter().find(|e| matches!(e.payload, EventPayload::NoteOn { .. }));
    assert_eq!(note.unwrap().time, MusicalTime::zero());
}

#[test]
fn note_delay_does_not_emit_effect_event() {
    let mut pat = Pattern::new(4, 1);
    pat.cell_mut(0, 0).note = Note::On(60);
    pat.cell_mut(0, 0).instrument = 1;
    pat.cell_mut(0, 0).effect = Effect::NoteDelay(3);

    let events = schedule_events(&one_channel_song(pat));

    assert_eq!(events.len(), 1);
    assert!(matches!(events[0].payload, EventPayload::NoteOn { .. }));
}

#[test]
fn note_delay_also_delays_volume_command() {
    let mut pat = Pattern::new(4, 1);
    pat.cell_mut(0, 0).note = Note::On(60);
    pat.cell_mut(0, 0).instrument = 1;
    pat.cell_mut(0, 0).volume = VolumeCommand::Volume(32);
    pat.cell_mut(0, 0).effect = Effect::NoteDelay(2);

    let events = schedule_events(&one_channel_song(pat));

    let expected = MusicalTime::zero().add_ticks(2, 24);
    for e in &events {
        assert_eq!(e.time, expected);
    }
}

// --- PatternDelay tests ---

#[test]
fn pattern_delay_adds_extra_rows_in_beat_space() {
    let mut pat = Pattern::new(2, 1);
    pat.cell_mut(0, 0).effect = Effect::PatternDelay(2);

    let result = schedule_song(&one_channel_song(pat));
    assert_eq!(result.total_time, MusicalTime::from_beats(1));
}

#[test]
fn pattern_delay_shifts_subsequent_rows() {
    let mut pat = Pattern::new(4, 1);
    pat.cell_mut(0, 0).effect = Effect::PatternDelay(1);
    pat.cell_mut(1, 0).note = Note::On(60);
    pat.cell_mut(1, 0).instrument = 1;

    let events = schedule_events(&one_channel_song(pat));

    let note = events.iter().find(|e| matches!(e.payload, EventPayload::NoteOn { .. }));
    assert_eq!(note.unwrap().time, time_at_row(2));
}

#[test]
fn pattern_delay_does_not_emit_effect_event() {
    let mut pat = Pattern::new(2, 1);
    pat.cell_mut(0, 0).effect = Effect::PatternDelay(2);

    let events = schedule_events(&one_channel_song(pat));
    assert!(events.is_empty());
}

#[test]
fn pattern_break_does_not_emit_effect_event() {
    let mut pat0 = Pattern::new(2, 1);
    pat0.cell_mut(0, 0).effect = Effect::PatternBreak(0);

    let song = one_channel_song(pat0);
    let events = schedule_events(&song);
    assert!(events.is_empty());
}

// --- time_for_track_clip_row tests ---

#[test]
fn time_for_row_single_occurrence() {
    let song = one_channel_song(Pattern::new(8, 1));
    let times = time_for_track_clip_row(&song.tracks[0], 0, 3, song.rows_per_beat);
    assert_eq!(times, vec![time_at_row(3)]);
}

#[test]
fn time_for_row_repeated_pattern() {
    let song = song_from(1, vec![Pattern::new(4, 1)],
        vec![OrderEntry::Pattern(0), OrderEntry::Pattern(0)]);

    let times = time_for_track_clip_row(&song.tracks[0], 0, 0, song.rows_per_beat);
    assert_eq!(times.len(), 2);
    assert_eq!(times[0], time_at_row(0));
    assert_eq!(times[1], time_at_row(4));
}

#[test]
fn time_for_row_out_of_range_row() {
    let song = one_channel_song(Pattern::new(4, 1));
    let times = time_for_track_clip_row(&song.tracks[0], 0, 100, song.rows_per_beat);
    assert!(times.is_empty());
}

// --- SeqEntry.length tests ---

#[test]
fn mute_truncated_entry_plays_shortened() {
    let mut pat = Pattern::new(8, 1);
    pat.cell_mut(0, 0).note = Note::On(60);
    pat.cell_mut(0, 0).instrument = 1;
    pat.cell_mut(4, 0).note = Note::On(64);
    pat.cell_mut(4, 0).instrument = 1;

    let mut song = Song::with_channels("test", 1);
    let machine_node = find_tracker_node(&song.graph);
    let mut track = Track::new(machine_node, 0, 1);
    track.clips.push(Clip::Pattern(pat));
    // Mute truncates the 8-row pattern to 4 rows
    track.sequence.push(SeqEntry {
        start: MusicalTime::zero(), clip_idx: 0, length: 4,
        termination: SeqTermination::Mute,
    });
    song.tracks = vec![track];

    let notes: Vec<_> = schedule_events(&song).into_iter()
        .filter(|e| matches!(e.payload, EventPayload::NoteOn { .. }))
        .collect();
    // Only the note at row 0 should play; row 4 is beyond truncated length
    assert_eq!(notes.len(), 1, "mute-truncated entry should only play rows 0-3");
    assert_eq!(notes[0].time, MusicalTime::zero());
}

#[test]
fn length_truncates_pattern() {
    let mut pat = Pattern::new(8, 1);
    // Notes at rows 0, 2, 4, 6
    for r in [0, 2, 4, 6] {
        pat.cell_mut(r, 0).note = Note::On(60);
        pat.cell_mut(r, 0).instrument = 1;
    }

    let mut song = Song::with_channels("test", 1);
    let machine_node = find_tracker_node(&song.graph);
    let mut track = Track::new(machine_node, 0, 1);
    track.clips.push(Clip::Pattern(pat));
    // length=4 means only rows 0-3 should play (notes at 0 and 2)
    track.sequence.push(SeqEntry {
        start: MusicalTime::zero(), clip_idx: 0, length: 4,
        termination: SeqTermination::Natural,
    });
    song.tracks = vec![track];

    let notes: Vec<_> = schedule_events(&song).into_iter()
        .filter(|e| matches!(e.payload, EventPayload::NoteOn { .. }))
        .collect();
    assert_eq!(notes.len(), 2, "length=4 should only play rows 0-3 (2 notes)");
}

#[test]
fn break_truncated_entry_plays_shortened() {
    let mut pat = Pattern::new(8, 1);
    for r in [0, 2, 4, 6] {
        pat.cell_mut(r, 0).note = Note::On(60);
        pat.cell_mut(r, 0).instrument = 1;
    }

    let mut song = Song::with_channels("test", 1);
    let machine_node = find_tracker_node(&song.graph);
    let mut track = Track::new(machine_node, 0, 1);
    track.clips.push(Clip::Pattern(pat));
    // Break truncates the 8-row pattern to 3 rows
    track.sequence.push(SeqEntry {
        start: MusicalTime::zero(), clip_idx: 0, length: 3,
        termination: SeqTermination::Break,
    });
    song.tracks = vec![track];

    let notes: Vec<_> = schedule_events(&song).into_iter()
        .filter(|e| matches!(e.payload, EventPayload::NoteOn { .. }))
        .collect();
    // Only rows 0 and 2 should play (row 4 is beyond length=3)
    assert_eq!(notes.len(), 2, "break-truncated entry should only play rows 0-2");
}

#[test]
fn time_for_row_respects_entry_length() {
    let mut song = Song::with_channels("test", 1);
    let machine_node = find_tracker_node(&song.graph);
    let mut track = Track::new(machine_node, 0, 1);
    track.clips.push(Clip::Pattern(Pattern::new(8, 1)));
    // length=4: only rows 0-3 are valid
    track.sequence.push(SeqEntry {
        start: MusicalTime::zero(), clip_idx: 0, length: 4,
        termination: SeqTermination::Natural,
    });
    song.tracks = vec![track];

    // Row 3 is within length — should return a time
    let times = time_for_track_clip_row(&song.tracks[0], 0, 3, song.rows_per_beat);
    assert_eq!(times.len(), 1);

    // Row 4 is beyond length — should return empty
    let times = time_for_track_clip_row(&song.tracks[0], 0, 4, song.rows_per_beat);
    assert!(times.is_empty(), "row beyond entry.length should not be accessible");
}

