use masterblaster::event::{Event, EventPayload, EventTarget};
use masterblaster::event_queue::EventQueue;
use masterblaster::frame::{Frame, WideFrame};
use masterblaster::frequency::note_to_increment;
use masterblaster::musical_time::MusicalTime;
use masterblaster::sample::{LoopType, Sample, SampleData};
use masterblaster::voice::{mix_levels, Voice, VoiceState};
use masterblaster::voice_pool::{VoicePool, MAX_VOICES};
use slotmap::DefaultKey;

// --- event queue ---

#[test]
fn event_ordering() {
    let mut queue = EventQueue::new();

    queue.push(Event::new(MusicalTime::from_beats(10), EventTarget::Global, EventPayload::SetTempo(12500)));
    queue.push(Event::new(MusicalTime::from_beats(5), EventTarget::Global, EventPayload::SetSpeed(6)));
    queue.push(Event::new(MusicalTime::from_beats(15), EventTarget::Global, EventPayload::SetTempo(14000)));

    assert_eq!(queue.pop().unwrap().time.beat, 5);
    assert_eq!(queue.pop().unwrap().time.beat, 10);
    assert_eq!(queue.pop().unwrap().time.beat, 15);
}

#[test]
fn drain_until_returns_range() {
    let mut queue = EventQueue::new();
    queue.push(Event::new(MusicalTime::from_beats(5), EventTarget::Global, EventPayload::SetSpeed(6)));
    queue.push(Event::new(MusicalTime::from_beats(10), EventTarget::Global, EventPayload::SetTempo(12500)));
    queue.push(Event::new(MusicalTime::from_beats(15), EventTarget::Global, EventPayload::SetTempo(14000)));

    let range = queue.drain_until(MusicalTime::from_beats(12));
    assert_eq!(range, 0..2);
    assert_eq!(queue.get(0).unwrap().time.beat, 5);
    assert_eq!(queue.get(1).unwrap().time.beat, 10);
}

#[test]
fn drain_until_advances_cursor() {
    let mut queue = EventQueue::new();
    queue.push(Event::new(MusicalTime::from_beats(5), EventTarget::Global, EventPayload::SetSpeed(6)));
    queue.push(Event::new(MusicalTime::from_beats(10), EventTarget::Global, EventPayload::SetTempo(12500)));

    let r1 = queue.drain_until(MusicalTime::from_beats(7));
    assert_eq!(r1, 0..1);

    let r2 = queue.drain_until(MusicalTime::from_beats(15));
    assert_eq!(r2, 1..2);
}

#[test]
fn reset_cursor_allows_replay() {
    let mut queue = EventQueue::new();
    queue.push(Event::new(MusicalTime::from_beats(1), EventTarget::Global, EventPayload::SetSpeed(6)));

    let r1 = queue.drain_until(MusicalTime::from_beats(5));
    assert_eq!(r1.len(), 1);

    queue.reset_cursor();
    let r2 = queue.drain_until(MusicalTime::from_beats(5));
    assert_eq!(r2.len(), 1);
}

#[test]
fn retain_keeps_matching_events_in_order() {
    let mut queue = EventQueue::new();
    for b in [4u64, 1, 3, 2] {
        queue.push(Event::new(MusicalTime::from_beats(b), EventTarget::Global, EventPayload::SetSpeed(b as u8)));
    }
    queue.retain(|e| e.time.beat % 2 == 0);
    assert_eq!(queue.len(), 2);
    assert_eq!(queue.get(0).unwrap().time.beat, 2);
    assert_eq!(queue.get(1).unwrap().time.beat, 4);
}

// --- frames ---

#[test]
fn accumulate_with_gain_unity() {
    let mut wide = WideFrame::silence();
    wide.accumulate_with_gain(Frame { left: 1000, right: -500 }, 0);
    assert_eq!(wide.left, 1000);
    assert_eq!(wide.right, -500);
}

#[test]
fn accumulate_with_gain_half() {
    let mut wide = WideFrame::silence();
    wide.accumulate_with_gain(Frame { left: 1000, right: -1000 }, -50);
    assert_eq!(wide.left, 500);
    assert_eq!(wide.right, -500);
}

#[test]
fn accumulate_with_gain_muted() {
    let mut wide = WideFrame::silence();
    wide.accumulate_with_gain(Frame { left: 1000, right: 1000 }, -100);
    assert_eq!(wide.left, 0);
    assert_eq!(wide.right, 0);
}

#[test]
fn frame_mix_saturates() {
    let mut f = Frame { left: 30000, right: -30000 };
    f.mix(Frame { left: 10000, right: -10000 });
    assert_eq!(f, Frame { left: 32767, right: -32768 });
}

#[test]
fn wide_frame_to_frame_shifts_and_clamps() {
    let mut wide = WideFrame::silence();
    wide.accumulate(Frame { left: 20000, right: -4 });
    wide.accumulate(Frame { left: 20000, right: 0 });
    assert_eq!(wide.to_frame(1), Frame { left: 20000, right: -2 });
    assert_eq!(wide.to_frame(0), Frame { left: 32767, right: -4 });
}

// --- frequency ---

const C4_SPEED: u32 = 8363;
const SAMPLE_RATE: u32 = 44100;

#[test]
fn reference_note_gives_base_frequency() {
    let inc = note_to_increment(48, C4_SPEED, SAMPLE_RATE);
    let expected = (C4_SPEED as u64 * 65536 / SAMPLE_RATE as u64) as u32;
    assert_eq!(inc, expected);
}

#[test]
fn octave_up_doubles_increment() {
    let base = note_to_increment(48, C4_SPEED, SAMPLE_RATE);
    let octave_up = note_to_increment(60, C4_SPEED, SAMPLE_RATE);
    assert_eq!(octave_up, base * 2);
}

#[test]
fn octave_down_halves_increment() {
    let base = note_to_increment(48, C4_SPEED, SAMPLE_RATE);
    let octave_down = note_to_increment(36, C4_SPEED, SAMPLE_RATE);
    assert!((octave_down as i64 - base as i64 / 2).unsigned_abs() <= 1);
}

#[test]
fn two_octaves_up_quadruples() {
    let base = note_to_increment(48, C4_SPEED, SAMPLE_RATE);
    let two_up = note_to_increment(72, C4_SPEED, SAMPLE_RATE);
    assert_eq!(two_up, base * 4);
}

#[test]
fn semitone_up_increases_by_twelfth_root_of_two() {
    let base = note_to_increment(48, C4_SPEED, SAMPLE_RATE);
    let one_up = note_to_increment(49, C4_SPEED, SAMPLE_RATE);
    let expected = (base as f64 * 1.059463) as u32;
    assert!((one_up as i64 - expected as i64).unsigned_abs() <= 1);
}

#[test]
fn increment_is_nonzero_for_valid_inputs() {
    let inc = note_to_increment(12, C4_SPEED, SAMPLE_RATE);
    assert!(inc > 0);
}

#[test]
fn zero_sample_rate_returns_zero() {
    assert_eq!(note_to_increment(48, C4_SPEED, 0), 0);
}

#[test]
fn zero_c4_speed_returns_zero() {
    assert_eq!(note_to_increment(48, 0, SAMPLE_RATE), 0);
}

#[test]
fn different_c4_speed_scales_proportionally() {
    let inc_8363 = note_to_increment(48, 8363, SAMPLE_RATE);
    let inc_16726 = note_to_increment(48, 16726, SAMPLE_RATE);
    assert!((inc_16726 as i64 - inc_8363 as i64 * 2).unsigned_abs() <= 1);
}

#[test]
fn different_sample_rate_scales_inversely() {
    let inc_44100 = note_to_increment(48, C4_SPEED, 44100);
    let inc_22050 = note_to_increment(48, C4_SPEED, 22050);
    assert_eq!(inc_22050, inc_44100 * 2);
}

#[test]
fn note_to_increment_exact_value() {
    // 8363 * 65536 / 44100 = 12428 (rounded down)
    assert_eq!(note_to_increment(48, 8363, 44100), 12428);
    // one semitone up: 8363 * 69433 >> 16 = 8860 Hz
    assert_eq!(note_to_increment(49, 8363, 44100), (8860u64 * 65536 / 44100) as u32);
}

// --- voices ---

fn test_sample(data: Vec<i8>, volume: u8) -> Sample {
    let mut s = Sample::new("test");
    s.data = SampleData::Mono8(data);
    s.default_volume = volume;
    s.c4_speed = 8363;
    s
}

fn make_voice(key: DefaultKey) -> Voice {
    let mut v = Voice::new(key, 0);
    v.increment = note_to_increment(48, 8363, 44100);
    v
}

#[test]
fn pool_new_is_empty() {
    let pool = VoicePool::new();
    assert_eq!(pool.active_count(), 0);
}

#[test]
fn pool_allocate_returns_valid_id() {
    let mut pool = VoicePool::new();
    let key = pool.sample_bank.map.insert(test_sample(vec![127; 100], 64));
    let id = pool.allocate(make_voice(key));
    assert!(pool.get(id).is_some());
}

#[test]
fn pool_allocate_multiple() {
    let mut pool = VoicePool::new();
    let key = pool.sample_bank.map.insert(test_sample(vec![127; 100], 64));
    let id1 = pool.allocate(make_voice(key));
    let id2 = pool.allocate(make_voice(key));
    assert_ne!(id1, id2);
    assert_eq!(pool.active_count(), 2);
}

#[test]
fn pool_get_mut_modifies_voice() {
    let mut pool = VoicePool::new();
    let key = pool.sample_bank.map.insert(test_sample(vec![127; 100], 64));
    let id = pool.allocate(make_voice(key));
    pool.get_mut(id).unwrap().volume = 32;
    assert_eq!(pool.get(id).unwrap().volume, 32);
}

#[test]
fn pool_kill_frees_slot() {
    let mut pool = VoicePool::new();
    let key = pool.sample_bank.map.insert(test_sample(vec![127; 100], 64));
    let id = pool.allocate(make_voice(key));
    pool.kill(id);
    assert!(pool.get(id).is_none());
    assert_eq!(pool.active_count(), 0);
}

#[test]
fn pool_release_sets_state() {
    let mut pool = VoicePool::new();
    let key = pool.sample_bank.map.insert(test_sample(vec![127; 100], 64));
    let id = pool.allocate(make_voice(key));
    pool.release(id);
    assert_eq!(pool.get(id).unwrap().state, VoiceState::Released);
}

#[test]
fn pool_fade_sets_state() {
    let mut pool = VoicePool::new();
    let key = pool.sample_bank.map.insert(test_sample(vec![127; 100], 64));
    let id = pool.allocate(make_voice(key));
    pool.fade(id);
    assert_eq!(pool.get(id).unwrap().state, VoiceState::Fading);
}

#[test]
fn pool_reap_removes_stopped() {
    let mut pool = VoicePool::new();
    let key = pool.sample_bank.map.insert(test_sample(vec![127; 100], 64));
    let id = pool.allocate(make_voice(key));
    pool.get_mut(id).unwrap().playing = false;
    pool.reap_finished();
    assert_eq!(pool.active_count(), 0);
}

#[test]
fn pool_steal_fading_first() {
    let mut pool = VoicePool::new();
    let key = pool.sample_bank.map.insert(test_sample(vec![127; 100], 64));
    for _ in 0..MAX_VOICES {
        pool.allocate(make_voice(key));
    }
    pool.get_mut(50).unwrap().state = VoiceState::Fading;
    let id = pool.allocate(make_voice(key));
    assert_eq!(id, 50);
    assert_eq!(pool.get(id).unwrap().state, VoiceState::Active);
}

#[test]
fn pool_steal_released_second() {
    let mut pool = VoicePool::new();
    let key = pool.sample_bank.map.insert(test_sample(vec![127; 100], 64));
    for _ in 0..MAX_VOICES {
        pool.allocate(make_voice(key));
    }
    pool.get_mut(30).unwrap().state = VoiceState::Released;
    let id = pool.allocate(make_voice(key));
    assert_eq!(id, 30);
}

#[test]
fn pool_steal_background_third() {
    let mut pool = VoicePool::new();
    let key = pool.sample_bank.map.insert(test_sample(vec![127; 100], 64));
    for _ in 0..MAX_VOICES {
        pool.allocate(make_voice(key));
    }
    pool.get_mut(20).unwrap().state = VoiceState::Background;
    let id = pool.allocate(make_voice(key));
    assert_eq!(id, 20);
}

#[test]
fn pool_steal_prefers_fading_over_released() {
    let mut pool = VoicePool::new();
    let key = pool.sample_bank.map.insert(test_sample(vec![127; 100], 64));
    for _ in 0..MAX_VOICES {
        pool.allocate(make_voice(key));
    }
    pool.get_mut(10).unwrap().state = VoiceState::Released;
    pool.get_mut(90).unwrap().state = VoiceState::Fading;
    pool.get_mut(95).unwrap().state = VoiceState::Fading;
    assert_eq!(pool.allocate(make_voice(key)), 90);
    // all active again but for slot 10 (released) and 95 (fading)
    assert_eq!(pool.allocate(make_voice(key)), 95);
    assert_eq!(pool.allocate(make_voice(key)), 10);
    // all active: the first slot is taken
    assert_eq!(pool.allocate(make_voice(key)), 0);
}

#[test]
fn voice_step_advances_and_stops_at_end() {
    let s = test_sample(vec![1, 2, 3], 64);
    let mut v = Voice::new(DefaultKey::default(), 0);
    v.increment = 1 << 16;
    v.step(&s);
    assert_eq!(v.position, 1 << 16);
    assert!(v.playing);
    v.step(&s);
    v.step(&s);
    assert_eq!(v.position, 3 << 16);
    assert!(!v.playing);
    // a silent voice stays where it is
    v.step(&s);
    assert_eq!(v.position, 3 << 16);
}

#[test]
fn voice_step_wraps_at_loop_end() {
    let mut s = test_sample(vec![0; 10], 64);
    s.loop_type = LoopType::Forward;
    s.loop_start = 2;
    s.loop_end = 6;
    let mut v = Voice::new(DefaultKey::default(), 3);
    v.position = 5 << 16;
    v.increment = 1 << 16;
    v.step(&s);
    // reaching 6 jumps back by the loop length 4
    assert_eq!(v.position, 2 << 16);
    assert!(v.playing);
    assert_eq!(v.channel, 3);
}

#[test]
fn mix_levels_pans_and_scales() {
    // centred, full volume: each side gets half
    assert_eq!(mix_levels(6400, 64, 0, 0), (3200, 3200));
    // hard left
    assert_eq!(mix_levels(6400, 64, 0, -64), (6400, 0));
    // volume offset clamps the volume to 64
    assert_eq!(mix_levels(-6400, 60, 20, 64), (0, -6400));
    // volume below zero is silence
    assert_eq!(mix_levels(1000, 10, -20, 0), (0, 0));
}

#[test]
fn equal_time_push_goes_before_the_queued_event() {
    let mut queue = EventQueue::new();
    queue.push(Event::new(MusicalTime::from_beats(5), EventTarget::Global, EventPayload::SetSpeed(6)));
    queue.push(Event::new(MusicalTime::from_beats(9), EventTarget::Global, EventPayload::SetSpeed(4)));
    queue.push(Event::new(MusicalTime::from_beats(5), EventTarget::Global, EventPayload::SetSpeed(3)));
    assert_eq!(queue.pop().unwrap().payload, EventPayload::SetSpeed(3));
    assert_eq!(queue.pop().unwrap().payload, EventPayload::SetSpeed(6));
    assert_eq!(queue.pop().unwrap().payload, EventPayload::SetSpeed(4));
}
