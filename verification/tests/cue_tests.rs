use stagelx::cue::{Cue, CuePlayhead, CueStack, FadeRequest, PlayheadState};
use stagelx::projection::{cue_levels_to_dmx, FixtureLevels};
use stagelx::types::FixtureId;

fn two_cue_stack() -> CueStack<()> {
    let mut stack = CueStack::new();
    stack.cues.push(Cue::new("1", "A", ()));
    stack.cues.push(Cue::new("2", "B", ()));
    stack
}

#[test]
fn playhead_go_advances() {
    let stack = two_cue_stack();
    let mut ph: CuePlayhead<()> = CuePlayhead::new();
    assert_eq!(ph.go(&stack), Some(0));
    assert_eq!(ph.go(&stack), Some(1));
    // Stops at last cue
    assert_eq!(ph.go(&stack), Some(1));
}

#[test]
fn playhead_back_retreats() {
    let stack = two_cue_stack();
    let mut ph: CuePlayhead<()> = CuePlayhead::new();
    ph.go(&stack);
    ph.go(&stack);
    assert_eq!(ph.current_cue_index, Some(1));
    assert_eq!(ph.back(), Some(0));
    assert_eq!(ph.back(), None);
    // Stays None
    assert_eq!(ph.back(), None);
}

#[test]
fn playhead_snap_fade() {
    let mut stack = CueStack::new();
    stack.cues.push(Cue::new("1", "A", ()));
    stack.cues[0].fade_in_ms = 1000;
    stack.cues.push(Cue::new("2", "B", ()));
    stack.cues[1].fade_in_ms = 1000;

    let mut ph: CuePlayhead<u32> = CuePlayhead::new();
    // Simulate a GO that starts a fade
    ph.state = PlayheadState::Fading(1000);
    assert!(matches!(ph.state, PlayheadState::Fading { .. }));
    ph.snap_fade();
    assert!(matches!(ph.state, PlayheadState::Idle));
}

#[test]
fn go_on_empty_stack_stays_nowhere() {
    let stack: CueStack<()> = CueStack::new();
    let mut ph: CuePlayhead<()> = CuePlayhead::new();
    assert_eq!(ph.go(&stack), None);
    assert_eq!(ph.go_cue(&stack), None);
    assert_eq!(ph.current_cue_index, None);
}

#[test]
fn record_numbers_and_labels() {
    let mut stack: CueStack<u8> = CueStack::new();
    assert_eq!(stack.record(7), 0);
    assert_eq!(stack.record(8), 1);
    assert_eq!(stack.record_stage(9), 2);
    assert_eq!(stack.cues[0].id, "1");
    assert_eq!(stack.cues[1].label, "Cue 2");
    assert_eq!(stack.cues[2].label, "Stage 3");
    assert_eq!(stack.cues[2].fade_in_ms, 2000);
    assert_eq!(stack.cues[2].fade_out_ms, 2000);
    assert_eq!(stack.cues[1].snapshot, 8);
}

#[test]
fn delete_renumbers() {
    let mut stack: CueStack<u8> = CueStack::new();
    for v in 0..4u8 {
        stack.record(v);
    }
    stack.cues[2].label = "kept".to_string();
    stack.delete_cue(1);
    assert_eq!(stack.cues.len(), 3);
    let ids: Vec<&str> = stack.cues.iter().map(|c| c.id.as_str()).collect();
    assert_eq!(ids, vec!["1", "2", "3"]);
    assert_eq!(stack.cues[1].label, "kept");
    assert_eq!(stack.cues[1].snapshot, 2);
    // Out of range: nothing happens.
    stack.delete_cue(10);
    assert_eq!(stack.cues.len(), 3);
}

#[test]
fn go_cue_requests_fade_in() {
    let mut stack: CueStack<()> = two_cue_stack();
    stack.cues[1].fade_in_ms = 500;
    let mut ph: CuePlayhead<u8> = CuePlayhead::new();
    ph.state = PlayheadState::Fading(3);
    // First cue has no fade-in.
    assert_eq!(ph.go_cue(&stack), None);
    assert!(matches!(ph.state, PlayheadState::Idle));
    assert_eq!(ph.current_cue_index, Some(0));
    assert_eq!(
        ph.go_cue(&stack),
        Some(FadeRequest { duration_ms: 500, from: Some(0), to: Some(1) })
    );
    assert_eq!(ph.current_cue_index, Some(1));
}

#[test]
fn back_cue_requests_fade_out() {
    let mut stack: CueStack<()> = two_cue_stack();
    stack.cues[1].fade_out_ms = 250;
    let mut ph: CuePlayhead<u8> = CuePlayhead::new();
    ph.current_cue_index = Some(1);
    assert_eq!(
        ph.back_cue(&stack),
        Some(FadeRequest { duration_ms: 250, from: Some(1), to: Some(0) })
    );
    assert_eq!(ph.current_cue_index, Some(0));
    // Leaving the first cue: no cue before it, no fade.
    assert_eq!(ph.back_cue(&stack), None);
    assert_eq!(ph.current_cue_index, None);
}

#[test]
fn after_delete_keeps_playhead_on_a_cue() {
    let mut ph: CuePlayhead<()> = CuePlayhead::new();
    ph.current_cue_index = Some(3);
    ph.after_delete(0, 3);
    assert_eq!(ph.current_cue_index, Some(2));
    ph.after_delete(2, 2);
    assert_eq!(ph.current_cue_index, Some(1));
    ph.current_cue_index = Some(1);
    ph.after_delete(1, 5);
    assert_eq!(ph.current_cue_index, Some(0));
    ph.current_cue_index = Some(0);
    ph.after_delete(0, 0);
    assert_eq!(ph.current_cue_index, None);
    ph.current_cue_index = Some(2);
    ph.after_delete(0, 5);
    assert_eq!(ph.current_cue_index, Some(2));
}

#[test]
fn back_undoes_go_on_concrete_stack() {
    let stack = two_cue_stack();
    let mut ph: CuePlayhead<()> = CuePlayhead::new();
    ph.go(&stack);
    let here = ph.current_cue_index;
    ph.go(&stack);
    ph.back();
    assert_eq!(ph.current_cue_index, here);
}

fn patched(n: usize) -> stagelx::patch::Patch {
    let mut patch = stagelx::patch::Patch::new();
    for i in 0..n {
        patch.add(stagelx::patch::FixtureInstance {
            id: stagelx::types::FixtureId(0),
            name: format!("F{i}"),
            fixture_type_id: "T".to_string(),
            dmx_mode: "M".to_string(),
            address: stagelx::types::DmxAddress { universe: 1, channel: 1 + 10 * i as u16 },
            position: [0; 3],
            rotation: [0; 3],
            channel_map: stagelx::gdtf::DmxChannelMap::default(),
        });
    }
    patch
}

fn sorted<V: Copy>(mut v: Vec<(stagelx::types::FixtureId, V)>) -> Vec<(u32, V)> {
    v.sort_by_key(|p| p.0 .0);
    v.into_iter().map(|(id, x)| (id.0, x)).collect()
}

#[test]
fn programmer_snapshot_covers_the_patch() {
    let patch = patched(3);
    let snap = stagelx::cue::programmer_snapshot(&patch, 42u8);
    assert_eq!(sorted(snap), vec![(0, 42), (1, 42), (2, 42)]);
    assert!(stagelx::cue::programmer_snapshot(&patched(0), 1u8).is_empty());
}

#[test]
fn updating_a_snapshot_overwrites_and_adds() {
    let patch = patched(2);
    let mut snap = vec![(FixtureId(1), 5u8), (FixtureId(9), 6u8)];
    stagelx::cue::set_snapshot_values(&mut snap, &patch, 7u8);
    assert_eq!(snap.len(), 3);
    assert_eq!(snap[0], (FixtureId(1), 7));
    assert_eq!(snap[1], (FixtureId(9), 6));
    assert_eq!(snap[2], (FixtureId(0), 7));
}

#[test]
fn cue_levels_go_to_the_cue_source() {
    let patch = patched(2);
    let lv = |d: u8| FixtureLevels { dimmer: d, pan: 0, tilt: 0, red: 0, green: 0, blue: 0, gobo: 0, gobo_spin: 0 };
    let snap = vec![(FixtureId(1), lv(30)), (FixtureId(5), lv(99)), (FixtureId(0), lv(20))];
    let mut engine = stagelx::engine::DmxEngine::new();
    cue_levels_to_dmx(&mut engine, &snap, &patch);
    engine.tick();
    let out = engine.output_buffer(1).unwrap();
    assert_eq!(out.get(1), 20);
    assert_eq!(out.get(11), 30);
    assert_eq!(out.get(2), 0);
}

#[test]
fn show_files() {
    let d: stagelx::show::ShowFile<()> = Default::default();
    assert_eq!((d.version, d.name.as_str(), d.venue_path.is_none()), (1, "Untitled Show", true));
    assert!(d.patch.is_empty() && d.cue_stack.cues.is_empty());
    let s = stagelx::show::ShowFile::from_session(patched(2), two_cue_stack(), "");
    assert_eq!((s.name.as_str(), s.patch.len(), s.cue_stack.cues.len(), s.venue_path), ("show", 2, 2, None));
    let s = stagelx::show::ShowFile::from_session(patched(0), two_cue_stack(), "venue.obj");
    assert_eq!(s.venue_path.as_deref(), Some("venue.obj"));
    let m = stagelx::show::ShowFile::from_legacy(two_cue_stack());
    assert_eq!((m.name.as_str(), m.cue_stack.cues.len(), m.patch.len()), ("Migrated Show", 2, 0));
}
