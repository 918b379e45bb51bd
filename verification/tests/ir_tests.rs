use masterblaster::analysis::{analyze_pattern, time_to_track_position};
use masterblaster::effects::{Effect, VolumeCommand};
use masterblaster::instrument::Envelope;
use masterblaster::modulator::sub_beats_per_tick;
use masterblaster::musical_time::{pack_time, unpack_time, MusicalTime, SUB_BEAT_UNIT};
use masterblaster::names::{decimal_text, sample_label_text, sampler_label_text, text_eq, trim_text};
use masterblaster::pattern::{Cell, Note, Pattern};
use masterblaster::sample::SampleData;
use masterblaster::song::{build_tracks, OrderEntry, Song};
use masterblaster::timestamp::Timestamp;

// --- musical time ---

#[test]
fn zero_is_default() {
    assert_eq!(MusicalTime::zero(), MusicalTime::default());
}

#[test]
fn from_beats_sets_sub_beat_zero() {
    let t = MusicalTime::from_beats(5);
    assert_eq!(t.beat, 5);
    assert_eq!(t.sub_beat, 0);
}

#[test]
fn ordering() {
    let t0 = MusicalTime::zero();
    let t1 = MusicalTime::from_beats(1);
    let t_half = MusicalTime { beat: 0, sub_beat: SUB_BEAT_UNIT / 2 };
    assert!(t0 < t_half);
    assert!(t_half < t1);
}

#[test]
fn add_rows_within_beat() {
    let t = MusicalTime::zero().add_rows(2, 4);
    assert_eq!(t.beat, 0);
    assert_eq!(t.sub_beat, 2 * (SUB_BEAT_UNIT / 4));
}

#[test]
fn add_rows_crosses_beat_boundary() {
    let t = MusicalTime::zero().add_rows(6, 4);
    assert_eq!(t.beat, 1);
    assert_eq!(t.sub_beat, 2 * (SUB_BEAT_UNIT / 4));
}

#[test]
fn add_rows_exact_beat() {
    let t = MusicalTime::zero().add_rows(4, 4);
    assert_eq!(t.beat, 1);
    assert_eq!(t.sub_beat, 0);
}

#[test]
fn add_rows_from_nonzero() {
    let start = MusicalTime { beat: 2, sub_beat: SUB_BEAT_UNIT / 4 };
    let t = start.add_rows(3, 4);
    assert_eq!(t.beat, 3);
    assert_eq!(t.sub_beat, 0);
}

#[test]
fn add_ticks_basic() {
    let t = MusicalTime::zero().add_ticks(3, 24);
    assert_eq!(t.sub_beat, 3 * (SUB_BEAT_UNIT / 24));
}

#[test]
fn add_ticks_zero_tpb_is_noop() {
    let t = MusicalTime::from_beats(5);
    assert_eq!(t.add_ticks(10, 0), t);
}

#[test]
fn sub_beat_unit_divisibility() {
    for n in 1..=16 {
        assert_eq!(SUB_BEAT_UNIT % n, 0, "SUB_BEAT_UNIT not divisible by {}", n);
    }
}

#[test]
fn add_rows_at_three_rows_per_beat() {
    // 720720 / 3 = 240240 sub-beats per row: 600000 + 480480 = 1 beat + 359760
    let t = MusicalTime { beat: 7, sub_beat: 600000 }.add_rows(2, 3);
    assert_eq!(t, MusicalTime { beat: 8, sub_beat: 359760 });
}

#[test]
fn pack_then_unpack_gives_the_time_back() {
    let t = MusicalTime { beat: 123456, sub_beat: 720719 };
    assert_eq!(unpack_time(pack_time(t)), t);
    let z = MusicalTime::zero();
    assert_eq!(unpack_time(pack_time(z)), z);
}

// --- patterns ---

#[test]
fn note_octave_semitone() {
    let c4 = Note::from_octave_semitone(4, 0);
    assert_eq!(c4, Note::On(48));
    assert_eq!(c4.octave(), Some(4));
    assert_eq!(c4.semitone(), Some(0));

    let a4 = Note::from_octave_semitone(4, 9);
    assert_eq!(a4, Note::On(57));
}

#[test]
fn pattern_cell_access() {
    let mut pattern = Pattern::new(64, 4);
    pattern.cell_mut(10, 2).note = Note::On(60);

    assert_eq!(pattern.cell(10, 2).note, Note::On(60));
    assert_eq!(pattern.cell(10, 1).note, Note::Empty);
}

#[test]
fn note_off_has_no_octave() {
    assert_eq!(Note::Off.octave(), None);
    assert_eq!(Note::Empty.semitone(), None);
    assert_eq!(Note::On(61).octave(), Some(5));
    assert_eq!(Note::On(61).semitone(), Some(1));
}

// --- sample data ---

fn mono8_sample(data: &[i8]) -> SampleData {
    SampleData::Mono8(data.to_vec())
}

#[test]
fn interpolated_at_integer_matches_nearest() {
    let data = mono8_sample(&[0, 100, -50, 30]);
    assert_eq!(data.get_mono_interpolated(1 << 16), data.get_mono(1));
}

#[test]
fn interpolated_midpoint_averages_neighbors() {
    let data = mono8_sample(&[0, 100]);
    let mid = data.get_mono_interpolated(32768);
    let a = data.get_mono(0) as i32;
    let b = data.get_mono(1) as i32;
    let expected = ((a + b) / 2) as i16;
    assert!((mid as i32 - expected as i32).abs() <= 1);
}

#[test]
fn interpolated_quarter_blends_75_25() {
    let data = mono8_sample(&[0, 100]);
    let val = data.get_mono_interpolated(16384);
    let a = data.get_mono(0) as i32;
    let b = data.get_mono(1) as i32;
    let expected = (a + (b - a) / 4) as i16;
    assert!((val as i32 - expected as i32).abs() <= 1);
}

#[test]
fn interpolated_past_end_fades_to_zero() {
    let data = mono8_sample(&[100]);
    let val = data.get_mono_interpolated(32768);
    let a = data.get_mono(0) as i32;
    let expected = (a / 2) as i16;
    assert!((val as i32 - expected as i32).abs() <= 1);
}

#[test]
fn audio_source_mono8() {
    let data = SampleData::Mono8(vec![0, 100, -50]);
    assert_eq!(data.num_channels(), 1);
    assert_eq!(data.len(), 3);
    assert_eq!(data.read_i16(0, 1), 100 * 256);
}

#[test]
fn audio_source_stereo16() {
    let data = SampleData::Stereo16(vec![1000, -1000], vec![2000, -2000]);
    assert_eq!(data.num_channels(), 2);
    assert_eq!(data.len(), 2);
    assert_eq!(data.read_i16(0, 0), 1000);
    assert_eq!(data.read_i16(1, 0), 2000);
}

#[test]
fn interpolation_exact_values() {
    // 16-bit data: 1000 then 3000; a quarter of the way gives 1500
    let data = SampleData::Mono16(vec![1000, 3000]);
    assert_eq!(data.get_mono_interpolated(16384), 1500);
    assert_eq!(data.get_mono(5), 0);
    // mono data reads the same on the right
    assert_eq!(data.get_right(0), 1000);
}

// --- instruments ---

#[test]
fn envelope_interpolation() {
    let mut env = Envelope::new();
    env.add_point(0, 64);
    env.add_point(100, 0);

    assert_eq!(env.value_at(0), 64);
    assert_eq!(env.value_at(50), 32);
    assert_eq!(env.value_at(100), 0);
    assert_eq!(env.value_at(200), 0);
}

// --- modulator timing ---

#[test]
fn sub_beats_per_tick_default() {
    assert_eq!(sub_beats_per_tick(6, 4), 30030);
}

#[test]
fn sub_beats_per_tick_zero_is_whole_beat() {
    assert_eq!(sub_beats_per_tick(0, 4), SUB_BEAT_UNIT);
    assert_eq!(sub_beats_per_tick(3, 0), SUB_BEAT_UNIT);
    assert_eq!(sub_beats_per_tick(3, 8), SUB_BEAT_UNIT / 24);
}

// --- timestamps ---

#[test]
fn timestamp_ordering() {
    let t1 = Timestamp::from_ticks(10);
    let t2 = Timestamp::from_ticks(20);
    let t3 = Timestamp { tick: 10, subtick: 32768 };

    assert!(t1 < t2);
    assert!(t1 < t3);
    assert!(t3 < t2);
}

#[test]
fn to_samples() {
    let t = Timestamp::from_ticks(10);
    assert_eq!(t.to_samples(100), 1000);

    let t_half = Timestamp { tick: 10, subtick: 32768 };
    assert_eq!(t_half.to_samples(100), 1050);
}

#[test]
fn timestamp_add_ticks_keeps_subtick() {
    let t = Timestamp { tick: 3, subtick: 7 }.add_ticks(4);
    assert_eq!(t, Timestamp { tick: 7, subtick: 7 });
}

// --- analysis ---

fn one_track_song(rows: u16) -> Song {
    let mut song = Song::with_channels("test", 1);
    let patterns = vec![Pattern::new(rows, 1)];
    let order = vec![OrderEntry::Pattern(0)];
    build_tracks(&mut song, &patterns, &order);
    song
}

#[test]
fn empty_pattern_has_no_features() {
    let pat = Pattern::new(4, 1);
    let f = analyze_pattern(&pat);
    assert!(f.effects.is_empty());
    assert!(f.volume_commands.is_empty());
    assert_eq!(f.total_notes, 0);
    assert_eq!(f.note_range, None);
    assert!(!f.has_note_off);
    assert!(!f.has_note_fade);
}

#[test]
fn pattern_detects_notes_and_instruments() {
    let mut pat = Pattern::new(4, 1);
    pat.cell_mut(0, 0).note = Note::On(48);
    pat.cell_mut(0, 0).instrument = 1;
    pat.cell_mut(1, 0).note = Note::On(60);
    pat.cell_mut(1, 0).instrument = 2;
    pat.cell_mut(2, 0).note = Note::Off;

    let f = analyze_pattern(&pat);
    assert_eq!(f.total_notes, 2);
    assert_eq!(f.note_range, Some((48, 60)));
    assert!(f.has_note_off);
    assert!(!f.has_note_fade);
    assert_eq!(f.instruments_used.len(), 2);
}

#[test]
fn pattern_detects_effects_and_volume_commands() {
    let mut pat = Pattern::new(4, 1);
    pat.cell_mut(0, 0).effect = Effect::VolumeSlide(4);
    pat.cell_mut(1, 0).effect = Effect::SetSpeed(6);
    pat.cell_mut(2, 0).volume = VolumeCommand::Volume(48);

    let f = analyze_pattern(&pat);
    assert!(f.effects.contains(&"VolumeSlide"));
    assert!(f.effects.contains(&"SetSpeed"));
    assert_eq!(f.effects.len(), 2);
    assert!(f.volume_commands.contains(&"Volume"));
}

#[test]
fn analysis_lists_are_sorted_without_repeats() {
    let mut pat = Pattern::new(4, 2);
    pat.cell_mut(0, 0).effect = Effect::VolumeSlide(4);
    pat.cell_mut(1, 1).effect = Effect::Arpeggio { x: 1, y: 2 };
    pat.cell_mut(2, 0).effect = Effect::VolumeSlide(2);
    pat.cell_mut(3, 1).instrument = 9;
    pat.cell_mut(0, 1).instrument = 3;
    pat.cell_mut(1, 0).instrument = 9;
    pat.cell_mut(2, 1).note = Note::Fade;
    let f = analyze_pattern(&pat);
    assert_eq!(f.effects, vec!["Arpeggio", "VolumeSlide"]);
    assert_eq!(f.instruments_used, vec![3, 9]);
    assert!(f.has_note_fade);
    assert_eq!(f.total_notes, 0);
}

fn time_at_row(row: u32) -> MusicalTime {
    MusicalTime::zero().add_rows(row, 4)
}

#[test]
fn track_position_first_row() {
    let song = one_track_song(4);
    let pos = time_to_track_position(&song, MusicalTime::zero(), Some(0)).unwrap();
    assert_eq!(pos.seq_index, 0);
    assert_eq!(pos.clip_idx, 0);
    assert_eq!(pos.row, 0);
    assert_eq!(pos.group, Some(0));
}

#[test]
fn track_position_mid_clip() {
    let song = one_track_song(8);
    let pos = time_to_track_position(&song, time_at_row(2), Some(0)).unwrap();
    assert_eq!(pos.row, 2);
}

#[test]
fn track_position_second_seq_entry() {
    let mut song = Song::with_channels("test", 1);
    let patterns = vec![Pattern::new(4, 1), Pattern::new(8, 1)];
    let order = vec![OrderEntry::Pattern(0), OrderEntry::Pattern(1)];
    build_tracks(&mut song, &patterns, &order);

    let pos = time_to_track_position(&song, MusicalTime::from_beats(1), Some(0)).unwrap();
    assert_eq!(pos.seq_index, 1);
    assert_eq!(pos.clip_idx, 1);
    assert_eq!(pos.row, 0);
}

#[test]
fn track_position_past_end_returns_none() {
    let song = one_track_song(4);
    assert!(time_to_track_position(&song, MusicalTime::from_beats(1), Some(0)).is_none());
}

#[test]
fn track_position_no_matching_group_returns_none() {
    let song = one_track_song(4);
    assert!(time_to_track_position(&song, MusicalTime::zero(), Some(99)).is_none());
}

#[test]
fn track_position_sub_beat_within_row() {
    let song = one_track_song(8);
    let t = MusicalTime { beat: 0, sub_beat: SUB_BEAT_UNIT / 8 - 1 };
    let pos = time_to_track_position(&song, t, Some(0)).unwrap();
    assert_eq!(pos.row, 0);
}

// --- pattern cells and names ---

#[test]
fn set_cell_reads_back_and_keeps_others() {
    let mut p = Pattern::new(4, 3);
    let mut c = Cell::empty();
    c.note = Note::On(60);
    c.instrument = 2;
    p.set_cell(2, 1, c);
    assert_eq!(*p.cell(2, 1), c);
    for row in 0..4u16 {
        for ch in 0..3u8 {
            if (row, ch) != (2, 1) {
                assert!(p.cell(row, ch).is_empty());
            }
        }
    }
}

#[test]
fn decimal_text_formats_numbers() {
    assert_eq!(decimal_text(0), "0");
    assert_eq!(decimal_text(7), "7");
    assert_eq!(decimal_text(10), "10");
    assert_eq!(decimal_text(65535), "65535");
    assert_eq!(decimal_text(u64::MAX), u64::MAX.to_string());
    assert_eq!(sampler_label_text(12), "Smp 12");
    assert_eq!(sample_label_text(31), "Sample 31");
}

#[test]
fn text_eq_compares_characters() {
    assert!(text_eq("Jeskola Tracker", "Jeskola Tracker"));
    assert!(!text_eq("Jeskola Tracker", "Jeskola Tracker 2"));
    assert!(!text_eq("abc", "abd"));
    assert!(text_eq("", ""));
    assert!(text_eq("héllo", "héllo"));
}

#[test]
fn trim_text_cuts_white_space_at_both_ends() {
    assert_eq!(trim_text("  a b \t\n"), "a b");
    assert_eq!(trim_text("\u{3000}x\u{85}"), "x");
    assert_eq!(trim_text(" \u{2003} "), "");
    assert_eq!(trim_text("x\u{200B}"), "x\u{200B}");
}

#[test]
fn effect_names_tell_variants_apart() {
    let effects = [
        Effect::Empty,
        Effect::Arpeggio { x: 1, y: 2 },
        Effect::PortaUp(1),
        Effect::PortaDown(1),
        Effect::TonePorta(1),
        Effect::Vibrato { speed: 1, depth: 1 },
        Effect::TonePortaVolSlide(1),
        Effect::VibratoVolSlide(1),
        Effect::Tremolo { speed: 1, depth: 1 },
        Effect::VolumeSlide(4),
        Effect::FinePortaUp(1),
        Effect::ExtraFinePortaUp(1),
        Effect::Retrigger { interval: 1, volume_change: 0 },
        Effect::RetriggerNote(1),
    ];
    for (i, a) in effects.iter().enumerate() {
        for (j, b) in effects.iter().enumerate() {
            assert_eq!(a.name() == b.name(), i == j);
        }
    }
    assert_eq!(Effect::VolumeSlide(4).name(), "VolumeSlide");
    assert_eq!(Effect::VolumeSlide(-3).name(), "VolumeSlide");
    assert_eq!(Effect::Empty.name(), "None");
}
