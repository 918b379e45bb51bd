use masterblaster::event::{Event, EventPayload, EventTarget};
use masterblaster::musical_time::{MusicalTime, SUB_BEAT_UNIT};
use masterblaster::pattern::{Note, Pattern};
use masterblaster::scheduler::schedule_song;
use masterblaster::song::{build_tracks, OrderEntry, Song};
use masterblaster::transport::{
    channels_for_node, compute_mix_shift, drain_all_sources, make_sources, sort_by_time,
    take_due_events, Transport,
};

fn at(beat: u64) -> Event {
    Event::new(MusicalTime::from_beats(beat), EventTarget::Global, EventPayload::SetSpeed(beat as u8))
}

fn one_channel_song(pattern: Pattern) -> Song {
    let mut song = Song::with_channels("test", 1);
    build_tracks(&mut song, &[pattern], &[OrderEntry::Pattern(0)]);
    song
}

#[test]
fn new_transport_follows_the_song() {
    let song = Song::with_channels("t", 4);
    let t = Transport::new(&song, 44100);
    // 44100 * 5 / (125 * 2) = 882 frames per tick
    assert_eq!(t.samples_per_tick, 882);
    assert_eq!(t.tempo, 125);
    assert_eq!(t.speed, 6);
    assert_eq!(t.rows_per_beat, 4);
    assert_eq!(t.ticks_per_beat(), 24);
    assert!(!t.playing);
    assert_eq!(t.node_bypass, vec![false, false, false]);
}

#[test]
fn frames_make_ticks_and_ticks_make_beats() {
    let song = Song::with_channels("t", 1);
    let mut t = Transport::new(&song, 44100);
    assert!(!t.advance_frames(881));
    assert!(t.advance_frames(1));
    assert_eq!(t.sample_counter, 0);
    assert_eq!(t.tick_in_beat, 1);
    assert_eq!(t.current_time, MusicalTime { beat: 0, sub_beat: SUB_BEAT_UNIT / 24 });
    for _ in 1..24 {
        t.advance_tick();
    }
    assert_eq!(t.current_time, MusicalTime::from_beats(1));
    assert_eq!(t.tick_in_beat, 0);
}

#[test]
fn sub_block_stops_at_tick_end_and_block_size() {
    let song = Song::with_channels("t", 1);
    let mut t = Transport::new(&song, 44100);
    assert_eq!(t.sub_block(100), 100);
    assert_eq!(t.sub_block(10_000), 256);
    t.advance_frames(800);
    assert_eq!(t.sub_block(10_000), 82);
}

#[test]
fn tempo_and_speed_events_change_the_clock() {
    let song = one_channel_song(Pattern::new(4, 1));
    let mut t = Transport::new(&song, 48000);
    let mut sources = make_sources(&song);
    t.apply_global_event(&EventPayload::SetTempo(15000), &mut sources);
    assert_eq!(t.tempo, 150);
    // 48000 * 5 / 300 = 800
    assert_eq!(t.samples_per_tick, 800);
    t.apply_global_event(&EventPayload::SetSpeed(3), &mut sources);
    assert_eq!(t.speed, 3);
    assert_eq!(t.ticks_per_beat(), 12);
    t.apply_global_event(&EventPayload::NoteOff { note: 1 }, &mut sources);
    assert_eq!(t.speed, 3);
}

#[test]
fn due_events_leave_the_later_ones_pending() {
    let mut pending = vec![at(3), at(1), at(5), at(2)];
    let mut out = Vec::new();
    take_due_events(&mut pending, MusicalTime::from_beats(2), &mut out);
    assert_eq!(out, vec![at(1), at(2)]);
    assert_eq!(pending, vec![at(3), at(5)]);
}

#[test]
fn sorting_keeps_equal_times_in_order() {
    let a = Event::new(MusicalTime::from_beats(1), EventTarget::Global, EventPayload::SetSpeed(7));
    let mut v = vec![at(4), a, at(0), at(1), at(2)];
    sort_by_time(&mut v);
    let beats: Vec<u64> = v.iter().map(|e| e.time.beat).collect();
    assert_eq!(beats, vec![0, 1, 1, 2, 4]);
    assert_eq!(v[1], a);
}

#[test]
fn draining_everything_gives_the_schedule() {
    let mut pat = Pattern::new(8, 1);
    pat.cell_mut(0, 0).note = Note::On(60);
    pat.cell_mut(0, 0).instrument = 1;
    pat.cell_mut(5, 0).note = Note::Off;
    let song = one_channel_song(pat);
    let mut sources = make_sources(&song);
    let mut pending = vec![at(0), at(50)];
    let mut out = Vec::new();
    drain_all_sources(&mut pending, &mut sources, &song, MusicalTime::from_beats(10), &mut out);
    let mut expected = schedule_song(&song).events;
    expected.push(at(0));
    sort_by_time(&mut expected);
    assert_eq!(out.len(), expected.len());
    for e in &expected {
        assert!(out.contains(e));
    }
    assert_eq!(pending, vec![at(50)]);

    let mut t = Transport::new(&song, 44100);
    t.lock_end_time(&sources);
    assert_eq!(t.song_end_time, Some(MusicalTime::from_beats(2)));
    assert!(!t.is_finished(&sources));
    t.current_time = MusicalTime::from_beats(2);
    assert!(t.is_finished(&sources));
}

#[test]
fn unfinished_sources_leave_the_end_open() {
    let song = one_channel_song(Pattern::new(64, 1));
    let mut sources = make_sources(&song);
    let mut pending = Vec::new();
    let mut out = Vec::new();
    drain_all_sources(&mut pending, &mut sources, &song, MusicalTime::from_beats(1), &mut out);
    let mut t = Transport::new(&song, 44100);
    t.lock_end_time(&sources);
    assert!(t.song_end_time.is_none());
    assert!(!t.is_finished(&sources));
    assert!(!t.is_finished(&Vec::new()));
}

#[test]
fn mix_shift_halves_per_doubling() {
    assert_eq!(compute_mix_shift(0), 0);
    assert_eq!(compute_mix_shift(2), 0);
    assert_eq!(compute_mix_shift(4), 1);
    assert_eq!(compute_mix_shift(6), 2);
    assert_eq!(compute_mix_shift(8), 2);
    assert_eq!(compute_mix_shift(32), 4);
}

#[test]
fn channels_of_the_tracker_node() {
    let song = Song::with_channels("t", 3);
    let mut song2 = song.clone();
    build_tracks(&mut song2, &[Pattern::new(4, 3)], &[OrderEntry::Pattern(0)]);
    let node = song2.tracks[0].machine_node.unwrap();
    assert_eq!(channels_for_node(&song2, node).len(), 3);
    assert_eq!(channels_for_node(&song2, 0).len(), 0);
    assert!(channels_for_node(&song, node).is_empty());
}

#[test]
fn bypass_flags_by_node() {
    let song = Song::with_channels("t", 1);
    let mut t = Transport::new(&song, 44100);
    t.set_bypass(1, true);
    t.set_bypass(9, true);
    assert_eq!(t.node_bypass, vec![false, true, false]);
}
