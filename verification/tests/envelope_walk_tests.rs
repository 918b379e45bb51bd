use masterblaster::envelope_walk::{advance_walk, resolve_walk, start_walk, EnvelopeWalk};

#[test]
fn walk_multi_segment_walks_through() {
    let dts = [0u32, 10, 10];
    let w = advance_walk(start_walk(), &dts, None, None, 10);
    assert_eq!((w.segment, w.time_in_segment, w.value_index), (1, 0, Some(1)));
    let w = advance_walk(w, &dts, None, None, 5);
    assert_eq!((w.segment, w.time_in_segment, w.value_index), (1, 5, None));
    let w = advance_walk(w, &dts, None, None, 5);
    assert_eq!(w.value_index, Some(2));
    assert!(w.finished);
}

#[test]
fn walk_large_overshoot_skips_segments() {
    let dts = [0u32, 10, 10];
    let w = advance_walk(start_walk(), &dts, None, None, 25);
    assert_eq!(w.segment, 2);
    assert_eq!(w.value_index, Some(2));
    assert!(w.finished);
}

#[test]
fn walk_looping_envelope_cycles() {
    let dts = [0u32, 10, 10];
    let lr = Some((0u16, 2u16));
    let w = advance_walk(start_walk(), &dts, lr, None, 10);
    assert_eq!(w.value_index, Some(1));
    let w = advance_walk(w, &dts, lr, None, 10);
    assert_eq!(w.value_index, Some(0));
    assert_eq!(w.segment, 0);
    assert!(w.looped);
    let w = advance_walk(w, &dts, lr, None, 10);
    assert_eq!(w.value_index, Some(1));
    assert!(!w.looped);
    assert!(!w.finished);
}

#[test]
fn walk_sustain_holds_until_gate_off() {
    let dts = [0u32, 10, 0, 10];
    let sus = Some(2u16);
    let w = advance_walk(start_walk(), &dts, None, sus, 10);
    assert_eq!(w.value_index, Some(1));
    let w = advance_walk(w, &dts, None, sus, 100);
    assert_eq!(w.value_index, Some(2));
    assert!(w.gate_held);
    assert!(!w.finished);
    let held = advance_walk(w, &dts, None, sus, 100);
    assert_eq!(held, EnvelopeWalk { looped: false, ..w });
    let released = EnvelopeWalk { gate_held: false, ..w };
    let w = advance_walk(released, &dts, None, sus, 5);
    assert_eq!((w.segment, w.time_in_segment, w.value_index), (2, 5, None));
}

#[test]
fn walk_trigger_mode_detects_loop() {
    let dts = [0u32, 30];
    let lr = Some((0u16, 1u16));
    let w = advance_walk(start_walk(), &dts, lr, None, 10);
    assert!(!w.looped);
    let w = advance_walk(w, &dts, lr, None, 10);
    assert!(!w.looped);
    let w = advance_walk(w, &dts, lr, None, 10);
    assert!(w.looped);
    let w = advance_walk(w, &dts, lr, None, 10);
    assert!(!w.looped);
}

#[test]
fn walk_loop_consumes_remaining_time() {
    let dts = [0u32, 10, 10];
    let lr = Some((0u16, 2u16));
    let w = advance_walk(start_walk(), &dts, lr, None, 47);
    assert_eq!((w.segment, w.time_in_segment, w.value_index), (0, 7, None));
    assert!(w.looped);
}

#[test]
fn walk_one_point_envelope_holds_value() {
    let dts = [0u32];
    let w = advance_walk(start_walk(), &dts, None, None, 100);
    assert_eq!(w, start_walk());
    let r = resolve_walk(start_walk(), &dts, None, None);
    assert!(r.finished);
    assert_eq!(r.value_index, Some(0));
}
