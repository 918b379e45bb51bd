use masterblaster::bmx_format::{
    amplitude_to_gain, buzz_note_to_note, buzz_root_to_midi, buzz_volume_to_cmd, decode_signed,
    extract_event_id, is_tracker_dll, known_machine_byte_sizes, load_bmx, wave_to_instrument,
    wave_volume, BitReader,
};
use masterblaster::effects::{Effect, VolumeCommand};
use masterblaster::format_error::FormatError;
use masterblaster::frame::Frame;
use masterblaster::mod_format::{load_mod, period_to_note};
use masterblaster::musical_time::MusicalTime;
use masterblaster::pattern::Note;
use masterblaster::sample::SampleData;
use masterblaster::wav_format::{frames_to_wav, load_wav};

// --- BMX ---

fn make_minimal_bmx() -> Vec<u8> {
    let mut buf = Vec::new();
    buf.extend_from_slice(b"Buzz");
    buf.extend_from_slice(&4u32.to_le_bytes());

    let dir_end = 8 + 4 * 12;

    let mut mach_data = Vec::new();
    mach_data.extend_from_slice(&1u16.to_le_bytes());
    mach_data.extend_from_slice(b"Master\0");
    mach_data.push(0);
    mach_data.extend_from_slice(&0f32.to_le_bytes());
    mach_data.extend_from_slice(&0f32.to_le_bytes());
    mach_data.extend_from_slice(&0u32.to_le_bytes());
    mach_data.extend_from_slice(&0u16.to_le_bytes());
    mach_data.extend_from_slice(&0x4000u16.to_le_bytes());
    mach_data.extend_from_slice(&126u16.to_le_bytes());
    mach_data.push(4);
    mach_data.extend_from_slice(&0u16.to_le_bytes());

    let mut conn_data = Vec::new();
    conn_data.extend_from_slice(&0u16.to_le_bytes());

    let mut patt_data = Vec::new();
    patt_data.extend_from_slice(&0u16.to_le_bytes());
    patt_data.extend_from_slice(&0u16.to_le_bytes());

    let mut sequ_data = Vec::new();
    sequ_data.extend_from_slice(&0u32.to_le_bytes());
    sequ_data.extend_from_slice(&0u32.to_le_bytes());
    sequ_data.extend_from_slice(&0u32.to_le_bytes());
    sequ_data.extend_from_slice(&0u16.to_le_bytes());

    let mach_off = dir_end;
    let conn_off = mach_off + mach_data.len();
    let patt_off = conn_off + conn_data.len();
    let sequ_off = patt_off + patt_data.len();

    for (name, off, data) in [
        (b"MACH", mach_off, &mach_data),
        (b"CONN", conn_off, &conn_data),
        (b"PATT", patt_off, &patt_data),
        (b"SEQU", sequ_off, &sequ_data),
    ] {
        buf.extend_from_slice(name);
        buf.extend_from_slice(&(off as u32).to_le_bytes());
        buf.extend_from_slice(&(data.len() as u32).to_le_bytes());
    }

    buf.extend_from_slice(&mach_data);
    buf.extend_from_slice(&conn_data);
    buf.extend_from_slice(&patt_data);
    buf.extend_from_slice(&sequ_data);
    buf
}

/// A song of the master and one two-track Jeskola Tracker, with one wave,
/// one four-tick pattern played twice.
fn make_tracker_bmx() -> Vec<u8> {
    let mut mach = Vec::new();
    mach.extend_from_slice(&2u16.to_le_bytes());
    // master
    mach.extend_from_slice(b"Master\0");
    mach.push(0);
    mach.extend_from_slice(&0f32.to_le_bytes());
    mach.extend_from_slice(&0f32.to_le_bytes());
    mach.extend_from_slice(&0u32.to_le_bytes());
    mach.extend_from_slice(&0u16.to_le_bytes());
    mach.extend_from_slice(&0x4000u16.to_le_bytes());
    mach.extend_from_slice(&120u16.to_le_bytes());
    mach.push(4);
    mach.extend_from_slice(&0u16.to_le_bytes());
    // tracker
    mach.extend_from_slice(b"T1\0");
    mach.push(1);
    mach.extend_from_slice(b"Jeskola Tracker\0");
    mach.extend_from_slice(&0f32.to_le_bytes());
    mach.extend_from_slice(&0f32.to_le_bytes());
    mach.extend_from_slice(&0u32.to_le_bytes());
    mach.extend_from_slice(&0u16.to_le_bytes());
    mach.push(0); // global state (1 byte)
    mach.extend_from_slice(&2u16.to_le_bytes()); // tracks
    mach.extend_from_slice(&[0u8; 10]); // track state, 2 x 5 bytes

    let mut conn = Vec::new();
    conn.extend_from_slice(&1u16.to_le_bytes());
    conn.extend_from_slice(&1u16.to_le_bytes()); // from tracker
    conn.extend_from_slice(&0u16.to_le_bytes()); // to master
    conn.extend_from_slice(&0x4000u16.to_le_bytes());
    conn.extend_from_slice(&0x4000u16.to_le_bytes());

    let mut wavt = Vec::new();
    wavt.extend_from_slice(&1u16.to_le_bytes());
    wavt.extend_from_slice(&1u16.to_le_bytes()); // index
    wavt.extend_from_slice(b"kick.wav\0");
    wavt.extend_from_slice(b"kick\0");
    wavt.extend_from_slice(&1.0f32.to_le_bytes());
    wavt.push(0); // flags
    wavt.push(1); // levels
    wavt.extend_from_slice(&4u32.to_le_bytes());
    wavt.extend_from_slice(&0u32.to_le_bytes());
    wavt.extend_from_slice(&0u32.to_le_bytes());
    wavt.extend_from_slice(&22050u32.to_le_bytes());
    wavt.push(0x41);

    let mut patt = Vec::new();
    // master: no patterns
    patt.extend_from_slice(&0u16.to_le_bytes());
    patt.extend_from_slice(&0u16.to_le_bytes());
    // tracker: one pattern, two tracks
    patt.extend_from_slice(&1u16.to_le_bytes());
    patt.extend_from_slice(&2u16.to_le_bytes());
    patt.extend_from_slice(b"00\0");
    patt.extend_from_slice(&4u16.to_le_bytes());
    patt.extend_from_slice(&[0u8; 4]); // global column, 4 ticks x 1 byte
    for track in 0..2 {
        for tick in 0..4 {
            if track == 0 && tick == 0 {
                patt.extend_from_slice(&[0x41, 1, 0x80, 0x0A, 0x04]);
            } else if track == 1 && tick == 2 {
                patt.extend_from_slice(&[255, 0, 0xFF, 0, 0]);
            } else {
                patt.extend_from_slice(&[0, 0, 0xFF, 0, 0]);
            }
        }
    }

    let mut sequ = Vec::new();
    sequ.extend_from_slice(&8u32.to_le_bytes());
    sequ.extend_from_slice(&0u32.to_le_bytes());
    sequ.extend_from_slice(&8u32.to_le_bytes());
    sequ.extend_from_slice(&1u16.to_le_bytes());
    sequ.extend_from_slice(&1u16.to_le_bytes()); // machine 1
    sequ.extend_from_slice(&3u32.to_le_bytes()); // events
    sequ.push(1);
    sequ.push(1);
    sequ.extend_from_slice(&[0, 0x10]); // row 0: pattern 0
    sequ.extend_from_slice(&[2, 0x01]); // row 2: mute event, dropped
    sequ.extend_from_slice(&[4, 0x90]); // row 4: pattern 0 (loop flag set)

    let mut cwav = Vec::new();
    cwav.extend_from_slice(&1u16.to_le_bytes());
    cwav.extend_from_slice(&1u16.to_le_bytes());
    cwav.push(0);
    cwav.extend_from_slice(&8u32.to_le_bytes());
    for v in [100i16, -100, 2000, -32768] {
        cwav.extend_from_slice(&v.to_le_bytes());
    }

    let sections: Vec<(&[u8; 4], Vec<u8>)> = vec![
        (b"MACH", mach),
        (b"CONN", conn),
        (b"WAVT", wavt),
        (b"PATT", patt),
        (b"SEQU", sequ),
        (b"CWAV", cwav),
    ];
    let mut buf = Vec::new();
    buf.extend_from_slice(b"Buzz");
    buf.extend_from_slice(&(sections.len() as u32).to_le_bytes());
    let mut off = 8 + 12 * sections.len();
    for (name, data) in &sections {
        buf.extend_from_slice(*name);
        buf.extend_from_slice(&(off as u32).to_le_bytes());
        buf.extend_from_slice(&(data.len() as u32).to_le_bytes());
        off += data.len();
    }
    for (_, data) in &sections {
        buf.extend_from_slice(data);
    }
    buf
}

#[test]
fn minimal_bmx_loads() {
    let data = make_minimal_bmx();
    let song = load_bmx(&data).unwrap().song;
    assert_eq!(song.graph.nodes.len(), 1);
    assert!(song.graph.connections.is_empty());
    assert!(song.tracks.is_empty());
}

#[test]
fn invalid_magic_rejected() {
    assert!(load_bmx(b"NotBuzz\x00").is_err());
}

#[test]
fn bmx_format_too_short_rejected() {
    assert!(load_bmx(b"Buz").is_err());
}

#[test]
fn bmx_errors_say_what_is_wrong() {
    assert!(matches!(load_bmx(b"Buz"), Err(FormatError::UnexpectedEof)));
    assert!(matches!(load_bmx(b"NotBuzz\x00"), Err(FormatError::InvalidHeader)));
    // a directory without a machine section
    let mut no_mach = Vec::new();
    no_mach.extend_from_slice(b"Buzz");
    no_mach.extend_from_slice(&0u32.to_le_bytes());
    assert!(matches!(load_bmx(&no_mach), Err(FormatError::InvalidHeader)));
    // a directory that promises more entries than the file holds
    let mut cut = Vec::new();
    cut.extend_from_slice(b"Buzz");
    cut.extend_from_slice(&3u32.to_le_bytes());
    assert!(matches!(load_bmx(&cut), Err(FormatError::UnexpectedEof)));
}

#[test]
fn minimal_bmx_song_settings() {
    let b = load_bmx(&make_minimal_bmx()).unwrap();
    assert_eq!(b.bpm, 126);
    assert_eq!(b.tpb, 4);
    assert_eq!(b.song.rows_per_beat, 4);
    assert_eq!(b.song.initial_speed, 1);
    // 126 * 4 / 24 = 21
    assert_eq!(b.song.initial_tempo, 21);
    assert_eq!(b.song.title.as_str(), "BMX Song");
    assert!(b.song.samples.is_empty());
}

#[test]
fn tracker_bmx_builds_graph_tracks_and_samples() {
    let b = load_bmx(&make_tracker_bmx()).unwrap();
    let song = &b.song;
    // master and the tracker node, one wire at unity gain
    assert_eq!(song.graph.nodes.len(), 2);
    assert_eq!(song.graph.connections.len(), 1);
    assert_eq!(song.graph.connections[0].from, 1);
    assert_eq!(song.graph.connections[0].to, 0);
    assert_eq!(song.graph.connections[0].gain, 0);
    // 120 * 4 / 24 = 20
    assert_eq!(song.initial_tempo, 20);
    assert_eq!(song.channels.len(), 2);
    assert_eq!(song.channels[0].initial_pan, -64);
    assert_eq!(song.channels[1].initial_pan, 64);

    assert_eq!(song.tracks.len(), 1);
    let t = &song.tracks[0];
    assert_eq!(t.machine_node, Some(1));
    assert_eq!(t.num_channels, 2);
    assert_eq!(t.group, Some(0));
    assert!(song.is_tracker(t));
    assert_eq!(t.clips.len(), 1);
    let p = t.clips[0].pattern().unwrap();
    assert_eq!(p.rows, 4);
    assert_eq!(p.channels, 2);
    let c = p.cell(0, 0);
    assert_eq!(c.note, Note::On(48));
    assert_eq!(c.instrument, 1);
    assert_eq!(c.volume, VolumeCommand::Volume(32));
    assert_eq!(c.effect, Effect::VolumeSlide(-4));
    assert_eq!(p.cell(2, 1).note, Note::Off);
    assert!(p.cell(1, 0).is_empty());

    assert_eq!(t.sequence.len(), 2);
    assert_eq!(t.sequence[0].start, MusicalTime::zero());
    assert_eq!(t.sequence[1].start, MusicalTime::from_beats(1));
    assert_eq!(t.sequence[1].clip_idx, 0);
    assert_eq!(t.sequence[1].length, 4);

    assert_eq!(song.instruments.len(), 1);
    assert_eq!(song.samples.len(), 1);
    let s = &song.samples[0];
    assert_eq!(s.c4_speed, 22050);
    assert_eq!(s.default_volume, 64);
    assert_eq!(s.name.as_str(), "kick");
    match &s.data {
        SampleData::Mono16(v) => assert_eq!(v, &vec![100, -100, 2000, -32768]),
        other => panic!("expected 16-bit mono data, got {:?}", other),
    }
    assert_eq!(b.root_notes, vec![Some(0x41)]);
}

#[test]
fn tracker_bmx_machine_records() {
    let b = load_bmx(&make_tracker_bmx()).unwrap();
    assert_eq!(b.machines.len(), 2);
    let master = &b.machines[0];
    assert_eq!(master.machine_type, 0);
    assert_eq!(master.node_id, 0);
    assert!(master.dll_name.is_none());
    assert!(!master.is_tracker);
    assert_eq!(master.num_inputs, 1);
    let tracker = &b.machines[1];
    assert_eq!(tracker.name, "T1");
    assert_eq!(tracker.dll_name.as_deref(), Some("Jeskola Tracker"));
    assert!(tracker.is_tracker);
    assert_eq!(tracker.node_id, 1);
    assert_eq!(tracker.num_tracks, 2);
    assert_eq!(tracker.base_channel, 0);
    assert_eq!(tracker.num_inputs, 0);
    assert_eq!(b.song.graph.nodes[1].id, 1);
    assert_eq!(b.song.graph.nodes[1].node_type.label(), "Tracker");
    assert!(b.song.graph.nodes[1].parameters.is_empty());
}

#[test]
fn tracker_bmx_wave_table() {
    let b = load_bmx(&make_tracker_bmx()).unwrap();
    assert_eq!(b.waves.len(), 1);
    let w = &b.waves[0];
    assert_eq!(w.index, 1);
    assert_eq!(w.name, "kick");
    assert_eq!(w.volume_bits, 1.0f32.to_bits());
    assert_eq!(w.flags, 0);
    assert_eq!(w.levels.len(), 1);
    let l = w.levels[0];
    assert_eq!((l.num_samples, l.loop_start, l.loop_end, l.sample_rate, l.root_note), (4, 0, 0, 22050, 0x41));
}

#[test]
fn effect_bmx_has_no_waves() {
    let b = load_bmx(&make_effect_bmx()).unwrap();
    assert!(b.waves.is_empty());
    assert!(b.song.samples.is_empty());
    assert!(b.root_notes.is_empty());
}

/// A song of the master and one "Jeskola Delay" effect named "Echo", wired
/// to the master at half amplitude, plus a wire from a machine that does not
/// exist.
fn make_effect_bmx() -> Vec<u8> {
    let mut mach = Vec::new();
    mach.extend_from_slice(&2u16.to_le_bytes());
    mach.extend_from_slice(b"Master\0");
    mach.push(0);
    mach.extend_from_slice(&0f32.to_le_bytes());
    mach.extend_from_slice(&0f32.to_le_bytes());
    mach.extend_from_slice(&0u32.to_le_bytes());
    mach.extend_from_slice(&0u16.to_le_bytes());
    mach.extend_from_slice(&0x4000u16.to_le_bytes());
    mach.extend_from_slice(&126u16.to_le_bytes());
    mach.push(4);
    mach.extend_from_slice(&0u16.to_le_bytes());
    mach.extend_from_slice(b"Echo\0");
    mach.push(2);
    mach.extend_from_slice(b"Jeskola Delay\0");
    mach.extend_from_slice(&0f32.to_le_bytes());
    mach.extend_from_slice(&0f32.to_le_bytes());
    mach.extend_from_slice(&3u32.to_le_bytes()); // init data
    mach.extend_from_slice(&[9, 9, 9]);
    mach.extend_from_slice(&1u16.to_le_bytes()); // one attribute
    mach.extend_from_slice(b"Feedback\0");
    mach.extend_from_slice(&7u32.to_le_bytes());
    mach.extend_from_slice(&[1, 2, 3, 4, 5, 6]); // global state, 6 bytes
    mach.extend_from_slice(&0u16.to_le_bytes()); // tracks

    let mut conn = Vec::new();
    conn.extend_from_slice(&2u16.to_le_bytes());
    for (from, to, amp) in [(1u16, 0u16, 0x2000u16), (7, 0, 0x4000)] {
        conn.extend_from_slice(&from.to_le_bytes());
        conn.extend_from_slice(&to.to_le_bytes());
        conn.extend_from_slice(&amp.to_le_bytes());
        conn.extend_from_slice(&0x4000u16.to_le_bytes());
    }

    let mut patt = Vec::new();
    for _ in 0..2 {
        patt.extend_from_slice(&0u16.to_le_bytes());
        patt.extend_from_slice(&0u16.to_le_bytes());
    }

    let mut sequ = Vec::new();
    sequ.extend_from_slice(&0u32.to_le_bytes());
    sequ.extend_from_slice(&0u32.to_le_bytes());
    sequ.extend_from_slice(&0u32.to_le_bytes());
    sequ.extend_from_slice(&0u16.to_le_bytes());

    let sections: Vec<(&[u8; 4], Vec<u8>)> = vec![
        (b"MACH", mach),
        (b"CONN", conn),
        (b"PATT", patt),
        (b"SEQU", sequ),
    ];
    let mut buf = Vec::new();
    buf.extend_from_slice(b"Buzz");
    buf.extend_from_slice(&(sections.len() as u32).to_le_bytes());
    let mut off = 8 + 12 * sections.len();
    for (name, data) in &sections {
        buf.extend_from_slice(*name);
        buf.extend_from_slice(&(off as u32).to_le_bytes());
        buf.extend_from_slice(&(data.len() as u32).to_le_bytes());
        off += data.len();
    }
    for (_, data) in &sections {
        buf.extend_from_slice(data);
    }
    buf
}

#[test]
fn effect_bmx_node_parameters_and_wires() {
    let b = load_bmx(&make_effect_bmx()).unwrap();
    let song = &b.song;
    assert_eq!(song.graph.nodes.len(), 2);
    let node = &song.graph.nodes[1];
    assert_eq!(node.id, 1);
    assert_eq!(node.node_type.label(), "Echo");
    // six byte parameters from the machine's known sizes
    assert_eq!(node.parameters.len(), 6);
    for (j, p) in node.parameters.iter().enumerate() {
        assert_eq!(p.id, j as u16);
        assert_eq!(p.name.as_str(), format!("G{}", j));
        assert_eq!((p.min, p.max, p.default, p.value), (0, 255, 0, 0));
    }
    // the wire from the missing machine is dropped
    assert_eq!(song.graph.connections.len(), 1);
    let c = song.graph.connections[0];
    assert_eq!((c.from, c.to), (1, 0));
    assert_eq!(c.gain, amplitude_to_gain(0x2000));
    assert_eq!(c.gain, -50);
    assert_eq!(b.machines[0].num_inputs, 1);
    assert_eq!(b.machines[1].num_inputs, 0);
    assert!(!b.machines[1].is_tracker);
    assert!(song.channels.is_empty());
}

#[test]
fn effect_bmx_cut_inside_the_wires_is_an_error() {
    let data = make_effect_bmx();
    // the second wire's last word is missing: the connection section no longer fits
    // the pattern (8 bytes) and sequence (14 bytes) sections follow the wires
    let conn_end = data.len() - 8 - 14;
    assert!(matches!(load_bmx(&data[..conn_end - 1]), Err(FormatError::UnexpectedEof)));
}

#[test]
fn tracker_bmx_cut_short_is_an_error() {
    let data = make_tracker_bmx();
    for cut in [20, 60, 120, data.len() - 10] {
        assert!(load_bmx(&data[..cut]).is_err(), "cut at {}", cut);
    }
}

#[test]
fn extract_event_id_masks_loop_flag() {
    assert_eq!(extract_event_id(0x90, 1), 0x10);
    assert_eq!(extract_event_id(0x8010, 2), 0x10);
    assert_eq!(extract_event_id(0x8000_0010, 4), 0x10);
}

#[test]
fn amplitude_to_gain_unity() {
    assert_eq!(amplitude_to_gain(0x4000), 0);
}

#[test]
fn amplitude_to_gain_half() {
    assert!(amplitude_to_gain(0x2000) < 0);
}

#[test]
fn amplitude_to_gain_matches_float_formula() {
    assert_eq!(amplitude_to_gain(0), i16::MIN);
    assert_eq!(amplitude_to_gain(0x2000), -50);
    assert_eq!(amplitude_to_gain(0x8000), 100);
    for amp in [1u16, 3, 77, 0x1234, 0x3FFF, 0x4001, 0x9999, 0xFFFF] {
        let ratio = amp as f32 / 0x4000 as f32;
        let expected = (ratio * 100.0 - 100.0) as i16;
        assert_eq!(amplitude_to_gain(amp), expected, "amp {}", amp);
    }
}

#[test]
fn wave_volume_matches_float_formula() {
    for v in [0.0f32, -0.0, 1.0, 0.5, 0.999, 0.015625, 0.0156, 0.7, 2.5, -1.0, 1e-30, f32::INFINITY, f32::NAN] {
        let expected = (v * 64.0).clamp(0.0, 64.0) as u8;
        assert_eq!(wave_volume(v.to_bits()), expected, "volume {}", v);
    }
}

#[test]
fn known_machine_lookup() {
    assert_eq!(known_machine_byte_sizes("Jeskola Tracker"), Some((1, 5)));
    assert_eq!(known_machine_byte_sizes("Unknown Machine"), None);
}

#[test]
fn buzz_note_c4() {
    assert_eq!(buzz_note_to_note(0x41), Note::On(48));
}

#[test]
fn buzz_note_off() {
    assert_eq!(buzz_note_to_note(255), Note::Off);
}

#[test]
fn buzz_note_none() {
    assert_eq!(buzz_note_to_note(0), Note::Empty);
}

#[test]
fn buzz_note_a5() {
    assert_eq!(buzz_note_to_note(0x5A), Note::On(69));
}

#[test]
fn buzz_volume_none() {
    assert_eq!(buzz_volume_to_cmd(0xFF), VolumeCommand::Empty);
}

#[test]
fn buzz_volume_max() {
    assert_eq!(buzz_volume_to_cmd(0xFE), VolumeCommand::Volume(64));
}

#[test]
fn buzz_volume_zero() {
    assert_eq!(buzz_volume_to_cmd(0), VolumeCommand::Volume(0));
}

#[test]
fn wave_lookup_maps_correctly() {
    let lookup = vec![(5u16, 1u8), (12, 2)];
    assert_eq!(wave_to_instrument(0, &lookup), 0);
    assert_eq!(wave_to_instrument(5, &lookup), 1);
    assert_eq!(wave_to_instrument(12, &lookup), 2);
    assert_eq!(wave_to_instrument(99, &lookup), 0);
}

#[test]
fn is_tracker_dll_detects_trackers() {
    assert!(is_tracker_dll("Jeskola Tracker"));
    assert!(is_tracker_dll("Matilde Tracker"));
    assert!(is_tracker_dll("Matilde Tracker 2"));
    assert!(!is_tracker_dll("Jeskola Reverb 2"));
}

#[test]
fn decode_signed_zigzag() {
    assert_eq!(decode_signed(0), 0);
    assert_eq!(decode_signed(1), -1);
    assert_eq!(decode_signed(2), 1);
    assert_eq!(decode_signed(3), -2);
    assert_eq!(decode_signed(4), 2);
    let _ = decode_signed(u32::MAX);
}

#[test]
fn decode_signed_saturates_out_of_range() {
    assert_eq!(decode_signed(u32::MAX), i16::MIN);
    assert_eq!(decode_signed(65535), i16::MIN);
    assert_eq!(decode_signed(65533), -32767);
    assert_eq!(decode_signed(65534), i16::MAX);
    assert_eq!(decode_signed(65536), i16::MAX);
    assert_eq!(decode_signed(u32::MAX - 1), i16::MAX);
}

#[test]
fn bit_reader_reads_across_bytes() {
    let data = [0b1010_0101, 0b1100_0011];
    let mut br = BitReader::new(&data, 0);
    assert_eq!(br.read_bits(4).unwrap(), 0b0101);
    assert_eq!(br.read_bits(4).unwrap(), 0b1010);
    assert_eq!(br.read_bits(8).unwrap(), 0b1100_0011);
}

#[test]
fn bit_reader_count_zeros() {
    let data = [0b0000_0100];
    let mut br = BitReader::new(&data, 0);
    assert_eq!(br.count_zero_bits().unwrap(), 2);
}

#[test]
fn bit_reader_past_end_is_an_error() {
    let data = [0xFFu8];
    let mut br = BitReader::new(&data, 0);
    assert_eq!(br.read_bits(6).unwrap(), 0b11_1111);
    assert!(br.read_bits(3).is_err());
    assert_eq!(br.byte_pos(), 1);
    let zeros = [0u8, 0];
    let mut bz = BitReader::new(&zeros, 0);
    assert!(bz.count_zero_bits().is_err());
}

#[test]
fn buzz_root_to_midi_c4() {
    assert_eq!(buzz_root_to_midi(0x41), 48);
}

#[test]
fn buzz_root_to_midi_a4() {
    assert_eq!(buzz_root_to_midi(0x4A), 57);
}

#[test]
fn buzz_root_out_of_range_falls_back_to_c4() {
    assert_eq!(buzz_root_to_midi(0x40), 48);
    assert_eq!(buzz_root_to_midi(0x4D), 48);
}

// --- MOD ---

#[test]
fn test_period_to_note() {
    assert_eq!(period_to_note(428), Note::On(48));
    assert_eq!(period_to_note(0), Note::Empty);
}

fn make_mod(title: &str, order: &[u8], cells: &[(usize, usize, [u8; 4])]) -> Vec<u8> {
    let mut buf = vec![0u8; 1084];
    buf[..title.len()].copy_from_slice(title.as_bytes());
    // sample 1: 4 words long, volume 48, finetune 0, loop start 0, loop length 1 word
    let s = 20;
    buf[s..s + 4].copy_from_slice(b"bass");
    buf[s + 22..s + 24].copy_from_slice(&4u16.to_be_bytes());
    buf[s + 25] = 48;
    buf[s + 28..s + 30].copy_from_slice(&1u16.to_be_bytes());
    buf[950] = order.len() as u8;
    buf[951] = 127;
    buf[952..952 + order.len()].copy_from_slice(order);
    buf[1080..1084].copy_from_slice(b"M.K.");
    let num_patterns = order.iter().copied().max().unwrap_or(0) as usize + 1;
    let mut pats = vec![0u8; num_patterns * 1024];
    for &(pat, pos, cell) in cells {
        pats[pat * 1024 + pos * 4..pat * 1024 + pos * 4 + 4].copy_from_slice(&cell);
    }
    buf.extend_from_slice(&pats);
    buf.extend_from_slice(&[1, 2, 3, 4, 5, 6, 7, 8]);
    buf
}

#[test]
fn mod_loads_header_patterns_and_samples() {
    // period 428 (0x1AC), sample 1, effect C (set volume) 0x20
    let cell = [0x01, 0xAC, 0x1C, 0x20];
    let data = make_mod("tune", &[0, 0], &[(0, 1, cell)]);
    let song = load_mod(&data).unwrap();
    assert_eq!(song.title.as_str(), "tune");
    assert_eq!(song.initial_tempo, 125);
    assert_eq!(song.initial_speed, 6);
    assert_eq!(song.samples.len(), 31);
    assert_eq!(song.instruments.len(), 31);
    assert_eq!(song.channels.len(), 4);
    assert_eq!(song.samples[0].default_volume, 48);
    assert_eq!(song.samples[0].len(), 8);
    assert_eq!(song.samples[0].c4_speed, 8363);
    assert_eq!(song.tracks.len(), 1);
    let track = &song.tracks[0];
    assert_eq!(track.sequence.len(), 2);
    assert_eq!(track.sequence[1].start, MusicalTime::from_beats(16));
    let p = track.clips[0].pattern().unwrap();
    assert_eq!(p.rows, 64);
    assert_eq!(p.channels, 4);
    assert_eq!(p.cell(0, 1).note, Note::On(48));
    assert_eq!(p.cell(0, 1).instrument, 1);
    assert_eq!(p.cell(0, 1).effect, Effect::SetVolume(0x20));
    assert!(p.cell(0, 0).is_empty());
}

#[test]
fn mod_too_short_is_eof() {
    assert!(matches!(load_mod(&[0u8; 100]), Err(FormatError::UnexpectedEof)));
}

// --- WAV ---

fn make_wav(channels: u16, sample_rate: u32, bits: u16, pcm_data: &[u8]) -> Vec<u8> {
    let block_align = channels * (bits / 8);
    let byte_rate = sample_rate * block_align as u32;
    let data_size = pcm_data.len() as u32;
    let file_size = 36 + data_size;

    let mut buf = Vec::new();
    buf.extend(b"RIFF");
    buf.extend(&file_size.to_le_bytes());
    buf.extend(b"WAVE");
    buf.extend(b"fmt ");
    buf.extend(&16u32.to_le_bytes());
    buf.extend(&1u16.to_le_bytes());
    buf.extend(&channels.to_le_bytes());
    buf.extend(&sample_rate.to_le_bytes());
    buf.extend(&byte_rate.to_le_bytes());
    buf.extend(&block_align.to_le_bytes());
    buf.extend(&bits.to_le_bytes());
    buf.extend(b"data");
    buf.extend(&data_size.to_le_bytes());
    buf.extend(pcm_data);
    buf
}

#[test]
fn load_8bit_mono() {
    let wav = make_wav(1, 22050, 8, &[128, 255, 0, 192]);
    let sample = load_wav(&wav, "test").unwrap();
    assert_eq!(sample.c4_speed, 22050);
    match &sample.data {
        SampleData::Mono8(data) => {
            assert_eq!(data, &[0, 127, -128, 64]);
        }
        other => panic!("expected Mono8, got {:?}", other),
    }
}

#[test]
fn load_16bit_mono() {
    let pcm: Vec<u8> = [0i16, 1000, -1000, 32767].iter().flat_map(|&v| v.to_le_bytes()).collect();
    let wav = make_wav(1, 44100, 16, &pcm);
    let sample = load_wav(&wav, "test16").unwrap();
    match &sample.data {
        SampleData::Mono16(data) => {
            assert_eq!(data, &[0, 1000, -1000, 32767]);
        }
        other => panic!("expected Mono16, got {:?}", other),
    }
}

#[test]
fn load_16bit_stereo() {
    let pcm: Vec<u8> = [100i16, 200, -100, -200].iter().flat_map(|&v| v.to_le_bytes()).collect();
    let wav = make_wav(2, 44100, 16, &pcm);
    let sample = load_wav(&wav, "stereo").unwrap();
    match &sample.data {
        SampleData::Stereo16(l, r) => {
            assert_eq!(l, &[100, -100]);
            assert_eq!(r, &[200, -200]);
        }
        other => panic!("expected Stereo16, got {:?}", other),
    }
}

#[test]
fn invalid_header_rejected() {
    assert!(load_wav(b"not a wav", "bad").is_err());
}

#[test]
fn wav_format_too_short_rejected() {
    assert!(load_wav(&[0; 10], "short").is_err());
}

#[test]
fn frames_to_wav_round_trips_through_load_wav() {
    let frames = vec![Frame { left: 1, right: -1 }, Frame { left: 32767, right: -32768 }];
    let bytes = frames_to_wav(&frames, 48000);
    assert_eq!(bytes.len(), 44 + 8);
    assert_eq!(&bytes[0..4], b"RIFF");
    assert_eq!(&bytes[36..40], b"data");
    let sample = load_wav(&bytes, "out").unwrap();
    assert_eq!(sample.c4_speed, 48000);
    match &sample.data {
        SampleData::Stereo16(l, r) => {
            assert_eq!(l, &[1, 32767]);
            assert_eq!(r, &[-1, -32768]);
        }
        other => panic!("expected Stereo16, got {:?}", other),
    }
}

fn bmx_of(sections: Vec<(&[u8; 4], Vec<u8>)>) -> Vec<u8> {
    let mut buf = Vec::new();
    buf.extend_from_slice(b"Buzz");
    buf.extend_from_slice(&(sections.len() as u32).to_le_bytes());
    let mut off = 8 + 12 * sections.len();
    for (name, data) in &sections {
        buf.extend_from_slice(*name);
        buf.extend_from_slice(&(off as u32).to_le_bytes());
        buf.extend_from_slice(&(data.len() as u32).to_le_bytes());
        off += data.len();
    }
    for (_, data) in &sections {
        buf.extend_from_slice(data);
    }
    buf
}

fn para_param(out: &mut Vec<u8>, kind: u8, name: &str, min: i32, max: i32, default: i32) {
    out.push(kind);
    out.extend_from_slice(name.as_bytes());
    out.push(0);
    for v in [min, max, -1, 0, default] {
        out.extend_from_slice(&v.to_le_bytes());
    }
}

#[test]
fn bmx_parameter_section_sizes_the_machines() {
    let mut para = Vec::new();
    para.extend_from_slice(&2u32.to_le_bytes());
    para.extend_from_slice(b"Master\0Master\0");
    para.extend_from_slice(&3u32.to_le_bytes());
    para.extend_from_slice(&0u32.to_le_bytes());
    para_param(&mut para, 3, "Volume", 0, 0x4000, 0x4000);
    para_param(&mut para, 3, "BPM", 16, 512, 126);
    para_param(&mut para, 2, "TPB", 1, 32, 4);
    para.extend_from_slice(b"Echo\0Echo Box\0");
    para.extend_from_slice(&2u32.to_le_bytes());
    para.extend_from_slice(&0u32.to_le_bytes());
    para_param(&mut para, 2, "Mix", 0, 10, 5);
    para_param(&mut para, 3, "Time", 0, 1000, 7);

    let mut mach = Vec::new();
    mach.extend_from_slice(&2u16.to_le_bytes());
    mach.extend_from_slice(b"Master\0");
    mach.push(0);
    mach.extend_from_slice(&[0u8; 8]);
    mach.extend_from_slice(&0u32.to_le_bytes());
    mach.extend_from_slice(&0u16.to_le_bytes());
    mach.extend_from_slice(&0x4000u16.to_le_bytes());
    mach.extend_from_slice(&150u16.to_le_bytes());
    mach.push(8);
    mach.extend_from_slice(&0u16.to_le_bytes());
    mach.extend_from_slice(b"Echo\0");
    mach.push(2);
    mach.extend_from_slice(b"Some Delay\0");
    mach.extend_from_slice(&[0u8; 8]);
    mach.extend_from_slice(&0u32.to_le_bytes());
    mach.extend_from_slice(&0u16.to_le_bytes());
    mach.extend_from_slice(&[3, 1, 0]); // one byte and one word of global state
    mach.extend_from_slice(&0u16.to_le_bytes());

    let mut conn = Vec::new();
    conn.extend_from_slice(&0u16.to_le_bytes());
    let mut patt = Vec::new();
    for _ in 0..2 {
        patt.extend_from_slice(&0u16.to_le_bytes());
        patt.extend_from_slice(&0u16.to_le_bytes());
    }
    let mut sequ = Vec::new();
    sequ.extend_from_slice(&[0u8; 12]);
    sequ.extend_from_slice(&0u16.to_le_bytes());

    let data = bmx_of(vec![(b"PARA", para), (b"MACH", mach), (b"CONN", conn), (b"PATT", patt), (b"SEQU", sequ)]);
    let b = load_bmx(&data).unwrap();
    assert_eq!((b.bpm, b.tpb), (150, 8));
    assert_eq!(b.song.rows_per_beat, 8);
    assert_eq!(b.machines.len(), 2);
    assert_eq!(b.machines[1].name, "Echo");
    assert_eq!(b.machines[1].dll_name.as_deref(), Some("Some Delay"));
    let node = &b.song.graph.nodes[1];
    assert_eq!(node.parameters.len(), 2);
    assert_eq!(node.parameters[0].name.as_str(), "Mix");
    assert_eq!((node.parameters[0].id, node.parameters[0].min, node.parameters[0].max, node.parameters[0].default), (0, 0, 10, 5));
    assert_eq!(node.parameters[1].name.as_str(), "Time");
    assert_eq!((node.parameters[1].id, node.parameters[1].max, node.parameters[1].value), (1, 1000, 7));
    // cut by one byte, the sequence section no longer fits
    let mut short = data.clone();
    short.truncate(short.len() - 1);
    assert!(load_bmx(&short).is_err());
}

#[test]
fn bmx_missing_required_section_is_invalid_header() {
    let mut mach = Vec::new();
    mach.extend_from_slice(&1u16.to_le_bytes());
    mach.extend_from_slice(b"Master\0");
    mach.push(0);
    mach.extend_from_slice(&[0u8; 8]);
    mach.extend_from_slice(&0u32.to_le_bytes());
    mach.extend_from_slice(&0u16.to_le_bytes());
    mach.extend_from_slice(&0x4000u16.to_le_bytes());
    mach.extend_from_slice(&126u16.to_le_bytes());
    mach.push(4);
    mach.extend_from_slice(&0u16.to_le_bytes());
    let conn = 0u16.to_le_bytes().to_vec();
    let patt = vec![0u8; 4];
    let sequ = vec![0u8; 14];
    let full = bmx_of(vec![(b"MACH", mach.clone()), (b"CONN", conn.clone()), (b"PATT", patt.clone()), (b"SEQU", sequ.clone())]);
    assert!(load_bmx(&full).is_ok());
    let no_sequ = bmx_of(vec![(b"MACH", mach.clone()), (b"CONN", conn.clone()), (b"PATT", patt.clone())]);
    assert!(matches!(load_bmx(&no_sequ), Err(FormatError::InvalidHeader)));
    let no_patt = bmx_of(vec![(b"MACH", mach.clone()), (b"CONN", conn.clone()), (b"SEQU", sequ.clone())]);
    assert!(matches!(load_bmx(&no_patt), Err(FormatError::InvalidHeader)));
    let no_conn = bmx_of(vec![(b"MACH", mach.clone()), (b"PATT", patt.clone()), (b"SEQU", sequ.clone())]);
    assert!(matches!(load_bmx(&no_conn), Err(FormatError::InvalidHeader)));
    let no_mach = bmx_of(vec![(b"CONN", conn.clone()), (b"PATT", patt.clone()), (b"SEQU", sequ.clone())]);
    assert!(matches!(load_bmx(&no_mach), Err(FormatError::InvalidHeader)));
    // A short connection section is read before the missing patterns are noticed.
    let short_conn = bmx_of(vec![(b"MACH", mach.clone()), (b"CONN", vec![1u8, 0])]);
    assert!(matches!(load_bmx(&short_conn), Err(FormatError::UnexpectedEof)));
}
