use masterblaster::graph::NodeType;
use masterblaster::musical_time::MusicalTime;
use masterblaster::pattern::{Note, Pattern};
use masterblaster::song::{build_tracks, OrderEntry, Song};

fn make_test_song() -> Song {
    let mut song = Song::with_channels("test", 4);

    let mut pat0 = Pattern::new(4, 4);
    pat0.cell_mut(0, 0).note = Note::On(48);
    pat0.cell_mut(0, 0).instrument = 1;
    pat0.cell_mut(0, 2).note = Note::On(60);
    pat0.cell_mut(0, 2).instrument = 2;
    pat0.cell_mut(3, 1).note = Note::Off;

    let mut pat1 = Pattern::new(8, 4);
    pat1.cell_mut(0, 3).note = Note::On(72);
    pat1.cell_mut(0, 3).instrument = 3;

    let patterns = vec![pat0, pat1];
    let order = vec![OrderEntry::Pattern(0), OrderEntry::Pattern(1)];
    build_tracks(&mut song, &patterns, &order);

    song
}

#[test]
fn build_tracks_creates_one_track() {
    let song = make_test_song();
    assert_eq!(song.tracks.len(), 1);
    assert_eq!(song.tracks[0].num_channels, 4);
    assert_eq!(song.tracks[0].base_channel, 0);
}

#[test]
fn build_tracks_clips_match_patterns() {
    let song = make_test_song();
    assert_eq!(song.tracks[0].clips.len(), 2);
}

#[test]
fn build_tracks_cell_data_matches() {
    let song = make_test_song();
    let track = &song.tracks[0];

    let clip0 = track.clips[0].pattern().unwrap();
    assert_eq!(clip0.channels, 4);
    assert_eq!(clip0.rows, 4);
    assert_eq!(clip0.cell(0, 0).note, Note::On(48));
    assert_eq!(clip0.cell(0, 0).instrument, 1);
    assert_eq!(clip0.cell(0, 2).note, Note::On(60));
    assert_eq!(clip0.cell(3, 1).note, Note::Off);

    let clip1 = track.clips[1].pattern().unwrap();
    assert_eq!(clip1.cell(0, 3).note, Note::On(72));
}

#[test]
fn build_tracks_sequence_has_correct_times() {
    let song = make_test_song();
    let seq = &song.tracks[0].sequence;
    assert_eq!(seq.len(), 2);
    assert_eq!(seq[0].start, MusicalTime::zero());
    assert_eq!(seq[0].clip_idx, 0);
    assert_eq!(seq[1].start, MusicalTime::from_beats(1));
    assert_eq!(seq[1].clip_idx, 1);
}

#[test]
fn total_time_matches_expected() {
    let song = make_test_song();
    assert_eq!(song.total_time(), MusicalTime::from_beats(3));
}

#[test]
fn total_time_empty() {
    let song = Song::new("empty");
    assert_eq!(song.total_time(), MusicalTime::zero());
}

#[test]
fn build_tracks_preserves_rows_per_beat() {
    let mut song = Song::with_channels("test", 2);
    let mut pat = Pattern::new(8, 2);
    pat.rows_per_beat = Some(8);
    build_tracks(&mut song, &[pat], &[OrderEntry::Pattern(0)]);

    let clip = song.tracks[0].clips[0].pattern().unwrap();
    assert_eq!(clip.rows_per_beat, Some(8));
}

#[test]
fn build_tracks_preserves_empty_cells() {
    let mut song = Song::with_channels("test", 2);
    build_tracks(&mut song, &[Pattern::new(4, 2)], &[OrderEntry::Pattern(0)]);

    let clip = song.tracks[0].clips[0].pattern().unwrap();
    for row in 0..4 {
        assert!(clip.cell(row, 0).is_empty());
        assert!(clip.cell(row, 1).is_empty());
    }
}

#[test]
fn build_tracks_skips_order_skip_entries() {
    let mut song = Song::with_channels("test", 1);
    build_tracks(&mut song, &[Pattern::new(4, 1)], &[
        OrderEntry::Pattern(0), OrderEntry::Skip, OrderEntry::Pattern(0),
    ]);
    assert_eq!(song.tracks[0].sequence.len(), 2);
}

#[test]
fn build_tracks_stops_at_order_end() {
    let mut song = Song::with_channels("test", 1);
    build_tracks(&mut song, &[Pattern::new(4, 1)], &[
        OrderEntry::Pattern(0), OrderEntry::End, OrderEntry::Pattern(0),
    ]);
    assert_eq!(song.tracks[0].sequence.len(), 1);
}

#[test]
fn build_tracks_machine_node_points_to_tracker() {
    let song = make_test_song();
    let machine = song.tracks[0].machine_node;
    assert!(machine.is_some());
    let node = song.graph.node(machine.unwrap()).unwrap();
    assert!(matches!(&node.node_type, NodeType::BuzzMachine { machine_name } if machine_name == "Tracker"));
}

#[test]
fn with_channels_pans_amiga_style() {
    let song = Song::with_channels("x", 5);
    let pans: Vec<i8> = song.channels.iter().map(|c| c.initial_pan).collect();
    assert_eq!(pans, vec![-64, 64, 64, -64, -64]);
    assert_eq!(song.graph.nodes.len(), 3);
    assert_eq!(song.graph.connections.len(), 2);
    assert!(song.is_tracker(&song.tracks.first().cloned().unwrap_or_else(|| masterblaster::song::Track::new(Some(2), 0, 5))));
}

#[test]
fn seq_entry_at_beat_finds_first_entry() {
    let song = make_test_song();
    let t = &song.tracks[0];
    assert_eq!(t.seq_entry_at_beat(1).map(|e| e.clip_idx), Some(1));
    assert!(t.seq_entry_at_beat(2).is_none());
    assert_eq!(t.get_pattern_at(1).map(|p| p.rows), Some(8));
    assert!(t.get_pattern_at(2).is_none());
}
