use masterblaster::channel::{
    apply_channel_event, plan_modulators, plan_trigger, ModSetup, ModulatorPlan, clamp_period, note_to_period, period_to_increment, ChannelState, PERIOD_MAX, PERIOD_MIN,
};
use masterblaster::effects::Effect;
use masterblaster::event::EventPayload;
use masterblaster::instrument::Instrument;
use masterblaster::sample::{Sample, SampleData};

const SR: u32 = 44100;

struct Tracker {
    channels: Vec<ChannelState>,
    samples: Vec<Sample>,
    instruments: Vec<Instrument>,
}

impl Tracker {
    fn apply(&mut self, payload: EventPayload) {
        apply_channel_event(&mut self.channels, 0, &payload, &self.samples, &self.instruments, SR);
    }

    fn tick(&mut self) {
        self.channels[0].process_tick(None, None, false, SR);
    }

    fn ch(&self) -> &ChannelState {
        &self.channels[0]
    }
}

fn make_machine(len: usize, volume: u8) -> Tracker {
    let mut sample = Sample::new("test");
    sample.data = SampleData::Mono8(vec![127; len]);
    sample.default_volume = volume;
    sample.c4_speed = 8363;
    let mut inst = Instrument::new("test");
    inst.set_single_sample(0);
    let mut ch = ChannelState::new();
    ch.panning = -64;
    Tracker { channels: vec![ch], samples: vec![sample], instruments: vec![inst] }
}

fn note_on(m: &mut Tracker, note: u8, instrument: u8) {
    m.apply(EventPayload::NoteOn { note, velocity: 64, instrument });
}

fn effect(m: &mut Tracker, eff: Effect) {
    m.apply(EventPayload::Effect(eff));
}

#[test]
fn note_on_sets_period_and_increment() {
    let mut m = make_machine(1000, 64);
    note_on(&mut m, 48, 1);
    assert_eq!(m.ch().period, 428);
    assert_eq!(m.ch().increment, period_to_increment(428, 8363, SR));
    assert!(m.ch().increment > 0);
}

#[test]
fn note_on_sets_volume_from_sample() {
    let mut m = make_machine(1000, 48);
    note_on(&mut m, 48, 1);
    assert_eq!(m.ch().volume, 48);
}

#[test]
fn note_off_stops_channel() {
    let mut m = make_machine(1000, 64);
    note_on(&mut m, 48, 1);
    assert!(m.ch().playing);
    m.apply(EventPayload::NoteOff { note: 0 });
    assert!(!m.ch().playing);
}

#[test]
fn higher_note_gives_higher_increment() {
    let mut m = make_machine(1000, 64);
    note_on(&mut m, 48, 1);
    let inc_48 = m.ch().increment;
    note_on(&mut m, 60, 1);
    let inc_60 = m.ch().increment;
    assert!(inc_60 > inc_48);
    assert_eq!(inc_60, inc_48 * 2);
}

#[test]
fn set_volume_effect_changes_volume() {
    let mut m = make_machine(1000, 64);
    note_on(&mut m, 48, 1);
    assert_eq!(m.ch().volume, 64);
    effect(&mut m, Effect::SetVolume(32));
    assert_eq!(m.ch().volume, 32);
}

#[test]
fn set_volume_clamps_to_64() {
    let mut m = make_machine(1000, 64);
    note_on(&mut m, 48, 1);
    effect(&mut m, Effect::SetVolume(100));
    assert_eq!(m.ch().volume, 64);
}

#[test]
fn fine_volume_slide_up() {
    let mut m = make_machine(1000, 32);
    note_on(&mut m, 48, 1);
    effect(&mut m, Effect::FineVolumeSlideUp(4));
    assert_eq!(m.ch().volume, 36);
}

#[test]
fn fine_volume_slide_down() {
    let mut m = make_machine(1000, 32);
    note_on(&mut m, 48, 1);
    effect(&mut m, Effect::FineVolumeSlideDown(4));
    assert_eq!(m.ch().volume, 28);
}

#[test]
fn fine_volume_slide_down_clamps_to_zero() {
    let mut m = make_machine(1000, 2);
    note_on(&mut m, 48, 1);
    effect(&mut m, Effect::FineVolumeSlideDown(15));
    assert_eq!(m.ch().volume, 0);
}

#[test]
fn fine_porta_up_applies_once() {
    let mut m = make_machine(100000, 64);
    note_on(&mut m, 48, 1);
    let before = m.ch().period;
    effect(&mut m, Effect::FinePortaUp(4));
    assert_eq!(m.ch().period, before - 4);
    m.tick();
    assert_eq!(m.ch().period, before - 4);
}

#[test]
fn fine_porta_down_applies_once() {
    let mut m = make_machine(100000, 64);
    note_on(&mut m, 48, 1);
    let before = m.ch().period;
    effect(&mut m, Effect::FinePortaDown(4));
    assert_eq!(m.ch().period, before + 4);
}

#[test]
fn volume_slide_advances_each_tick() {
    let mut m = make_machine(100000, 32);
    note_on(&mut m, 48, 1);
    effect(&mut m, Effect::VolumeSlide(4));
    m.tick();
    assert_eq!(m.ch().volume, 36);
    m.tick();
    assert_eq!(m.ch().volume, 40);
    effect(&mut m, Effect::VolumeSlide(-50));
    m.tick();
    assert_eq!(m.ch().volume, 0);
}

#[test]
fn porta_up_decreases_period() {
    let mut m = make_machine(100000, 64);
    note_on(&mut m, 48, 1);
    let before = m.ch().period;
    effect(&mut m, Effect::PortaUp(4));
    m.tick();
    assert!(m.ch().period < before);
}

#[test]
fn porta_down_increases_period() {
    let mut m = make_machine(100000, 64);
    note_on(&mut m, 60, 1);
    let before = m.ch().period;
    effect(&mut m, Effect::PortaDown(4));
    m.tick();
    assert!(m.ch().period > before);
}

#[test]
fn porta_up_clamps_at_period_min() {
    let mut m = make_machine(100000, 64);
    note_on(&mut m, 71, 1);
    effect(&mut m, Effect::PortaUp(20));
    m.tick();
    assert_eq!(m.ch().period, 113);
}

#[test]
fn porta_down_clamps_at_period_max() {
    let mut m = make_machine(100000, 64);
    note_on(&mut m, 36, 1);
    effect(&mut m, Effect::PortaDown(20));
    m.tick();
    assert_eq!(m.ch().period, 856);
}

#[test]
fn tone_porta_slides_toward_target() {
    let mut m = make_machine(100000, 64);
    note_on(&mut m, 48, 1);
    assert_eq!(m.ch().period, 428);
    m.apply(EventPayload::PortaTarget { note: 60, instrument: 1 });
    effect(&mut m, Effect::TonePorta(8));
    assert_eq!(m.ch().target_period, 214);
    for _ in 0..5 {
        m.tick();
    }
    let period = m.ch().period;
    assert!(period < 428 && period > 214);
    assert_eq!(period, 428 - 5 * 8);
}

#[test]
fn tone_porta_does_not_overshoot() {
    let mut m = make_machine(100000, 64);
    note_on(&mut m, 48, 1);
    m.apply(EventPayload::PortaTarget { note: 60, instrument: 1 });
    effect(&mut m, Effect::TonePorta(255));
    m.tick();
    assert_eq!(m.ch().period, 214);
}

#[test]
fn tone_porta_does_not_trigger_note() {
    let mut m = make_machine(100000, 64);
    note_on(&mut m, 48, 1);
    m.channels[0].position = 5000;
    let pos_before = m.ch().position;
    m.apply(EventPayload::PortaTarget { note: 60, instrument: 1 });
    assert!(m.ch().position >= pos_before);
    assert_eq!(m.ch().period, 428);
}

#[test]
fn tone_porta_vol_slide_does_both() {
    let mut m = make_machine(100000, 32);
    note_on(&mut m, 48, 1);
    m.apply(EventPayload::PortaTarget { note: 60, instrument: 1 });
    effect(&mut m, Effect::TonePorta(8));
    effect(&mut m, Effect::TonePortaVolSlide(4));
    m.tick();
    assert!(m.ch().period < 428);
    assert!(m.ch().volume > 32);
}

#[test]
fn porta_up_updates_increment() {
    let mut m = make_machine(100000, 64);
    note_on(&mut m, 48, 1);
    let inc_before = m.ch().increment;
    effect(&mut m, Effect::PortaUp(4));
    m.tick();
    assert!(m.ch().increment > inc_before);
}

#[test]
fn vibrato_remembers_previous_params() {
    let mut m = make_machine(100000, 64);
    note_on(&mut m, 48, 1);
    effect(&mut m, Effect::Vibrato { speed: 8, depth: 4 });
    m.tick();
    assert_eq!(m.ch().vibrato_speed, 8);
    assert_eq!(m.ch().vibrato_depth, 4);
    effect(&mut m, Effect::Vibrato { speed: 0, depth: 6 });
    m.tick();
    assert_eq!(m.ch().vibrato_speed, 8);
    assert_eq!(m.ch().vibrato_depth, 6);
}

#[test]
fn vibrato_offset_moves_increment_not_period() {
    let mut m = make_machine(100000, 64);
    note_on(&mut m, 48, 1);
    let inc_base = m.ch().increment;
    effect(&mut m, Effect::Vibrato { speed: 8, depth: 8 });
    m.channels[0].process_tick(Some(-20), None, false, SR);
    assert_eq!(m.ch().period, 428);
    assert_eq!(m.ch().period_offset, -20);
    assert_eq!(m.ch().increment, period_to_increment(408, 8363, SR));
    assert_ne!(m.ch().increment, inc_base);
}

#[test]
fn tremolo_offset_keeps_base_volume() {
    let mut m = make_machine(100000, 32);
    note_on(&mut m, 48, 1);
    effect(&mut m, Effect::Tremolo { speed: 8, depth: 8 });
    m.channels[0].process_tick(None, Some(5), false, SR);
    assert_eq!(m.ch().volume_offset, 5);
    assert_eq!(m.ch().volume, 32);
    assert_eq!(m.ch().tremolo_speed, 8);
}

#[test]
fn set_vibrato_waveform_is_row_effect() {
    let mut m = make_machine(100000, 64);
    note_on(&mut m, 48, 1);
    effect(&mut m, Effect::SetVibratoWaveform(4));
    assert_eq!(m.ch().vibrato_waveform, 4);
}

#[test]
fn note_cut_silences_on_its_tick() {
    let mut m = make_machine(100000, 64);
    note_on(&mut m, 48, 1);
    effect(&mut m, Effect::NoteCut(2));
    m.tick();
    assert_eq!(m.ch().volume, 64);
    m.tick();
    assert_eq!(m.ch().volume, 0);
    effect(&mut m, Effect::NoteCut(0));
    assert_eq!(m.ch().volume, 0);
}

#[test]
fn retrigger_restarts_the_sample_when_its_modulator_loops() {
    let mut m = make_machine(100000, 64);
    note_on(&mut m, 48, 1);
    effect(&mut m, Effect::RetriggerNote(3));
    m.channels[0].position = 7000;
    m.channels[0].process_tick(None, None, false, SR);
    assert_eq!(m.ch().position, 7000);
    m.channels[0].process_tick(None, None, true, SR);
    assert_eq!(m.ch().position, 0);
}

#[test]
fn stopped_channel_does_not_tick() {
    let mut m = make_machine(100000, 64);
    note_on(&mut m, 48, 1);
    effect(&mut m, Effect::VolumeSlide(4));
    m.apply(EventPayload::NoteOff { note: 0 });
    m.tick();
    assert_eq!(m.ch().volume, 64);
}

#[test]
fn event_for_missing_channel_changes_nothing() {
    let mut m = make_machine(1000, 64);
    let before = m.channels.clone();
    apply_channel_event(&mut m.channels, 3, &EventPayload::NoteOn { note: 48, velocity: 64, instrument: 1 }, &m.samples, &m.instruments, SR);
    assert_eq!(m.channels.len(), before.len());
    assert_eq!(m.channels[0].period, before[0].period);
    assert!(!m.channels[0].playing);
}

#[test]
fn periods_follow_the_amiga_table() {
    assert_eq!(note_to_period(48), 428);
    assert_eq!(note_to_period(60), 214);
    assert_eq!(note_to_period(36), PERIOD_MAX);
    assert_eq!(note_to_period(71), PERIOD_MIN);
    assert_eq!(note_to_period(10), 856);
    assert_eq!(note_to_period(100), 113);
    assert_eq!(clamp_period(0), 113);
    assert_eq!(clamp_period(1000), 856);
    assert_eq!(clamp_period(300), 300);
    assert_eq!(period_to_increment(0, 8363, SR), 0);
    assert_eq!(period_to_increment(428, 8363, 0), 0);
    assert_eq!(period_to_increment(428, 8363, SR), (8363u64 * 65536 / 44100) as u32);
    assert_eq!(period_to_increment(1, u32::MAX, 1), u32::MAX);
}

#[test]
fn arpeggio_offset_matches_note_shift() {
    let mut m = make_machine(100000, 64);
    note_on(&mut m, 48, 1);
    let plan = plan_modulators(m.ch(), &Effect::Arpeggio { x: 12, y: 7 }, false);
    let expected_x = note_to_period(48 + 12) as i32 - 428;
    let expected_y = note_to_period(48 + 7) as i32 - 428;
    assert_eq!(plan.period, ModSetup::Steps { first: 0, second: expected_x, third: expected_y });
    assert_eq!(plan.volume, ModSetup::Clear);
    assert_eq!(plan.trigger, ModSetup::Clear);
}

#[test]
fn vibrato_plan_uses_remembered_params() {
    let mut m = make_machine(100000, 64);
    note_on(&mut m, 48, 1);
    effect(&mut m, Effect::Vibrato { speed: 8, depth: 4 });
    m.tick();
    let plan = plan_modulators(m.ch(), &Effect::Vibrato { speed: 0, depth: 6 }, true);
    assert_eq!(plan.period, ModSetup::Sine { speed: 8, depth: 6 });
    let none = plan_modulators(&ChannelState::new(), &Effect::Vibrato { speed: 0, depth: 0 }, false);
    assert_eq!(none.period, ModSetup::Clear);
    let slide = plan_modulators(m.ch(), &Effect::VibratoVolSlide(2), true);
    assert_eq!(slide.period, ModSetup::Keep);
    let fresh = plan_modulators(m.ch(), &Effect::VibratoVolSlide(2), false);
    assert_eq!(fresh.period, ModSetup::Sine { speed: 8, depth: 4 });
    let other = plan_modulators(m.ch(), &Effect::VolumeSlide(2), true);
    assert_eq!(other, ModulatorPlan { period: ModSetup::Clear, volume: ModSetup::Clear, trigger: ModSetup::Clear });
    let retrig = plan_modulators(m.ch(), &Effect::RetriggerNote(3), true);
    assert_eq!(retrig.trigger, ModSetup::Every { interval: 3 });
}

#[test]
fn vibrato_mod_resets_on_new_note_by_default() {
    let mut m = make_machine(100000, 64);
    note_on(&mut m, 48, 1);
    assert_eq!(plan_trigger(m.ch()).period, ModSetup::Clear);
    assert_eq!(plan_trigger(m.ch()).trigger, ModSetup::Clear);
}

#[test]
fn vibrato_mod_persists_with_no_retrig_flag() {
    let mut m = make_machine(100000, 64);
    note_on(&mut m, 48, 1);
    effect(&mut m, Effect::SetVibratoWaveform(4));
    assert_eq!(plan_trigger(m.ch()).period, ModSetup::Keep);
    assert_eq!(plan_trigger(m.ch()).volume, ModSetup::Clear);
}
