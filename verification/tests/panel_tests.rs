use std::collections::HashSet;

use stagelx::engine::DmxEngine;
use stagelx::gdtf::{DmxChannelMap, DmxMode, GdtfFixtureType};
use stagelx::io::{
    artnet_frame, midi_receive, osc_receive, sacn_frame, usb_frame, CueTrigger, MidiCcMap,
    MidiTarget, OscInput,
};
use stagelx::library::{FixtureLibrary, PatchEditState};
use stagelx::patch::{FixtureInstance, Patch};
use stagelx::selection::{
    address_label, click_row, index_label, keep_choice_valid, selected_names, sorted_ids, sync_midi_target,
    PatchSelection,
};
use stagelx::tds::{announces_short_header, face_buffers, Mesh3ds};
use stagelx::types::{DmxAddress, FixtureId};

fn fixture(u: u16, c: u16, map: DmxChannelMap) -> FixtureInstance {
    FixtureInstance {
        id: FixtureId(0),
        name: "F".to_string(),
        fixture_type_id: "T".to_string(),
        dmx_mode: "M".to_string(),
        address: DmxAddress { universe: u, channel: c },
        position: [0; 3],
        rotation: [0; 3],
        channel_map: map,
    }
}

fn rgb_map() -> DmxChannelMap {
    DmxChannelMap {
        dimmer: Some(0),
        pan: Some(1),
        pan_fine: Some(2),
        tilt: None,
        tilt_fine: None,
        red: Some(3),
        green: Some(4),
        blue: Some(5),
        gobo: None,
        gobo_rotation: None,
        color_wheel: None,
    }
}

fn selection(ids: &[u32]) -> PatchSelection {
    PatchSelection { selected_ids: ids.iter().copied().collect() }
}

fn set(ids: &[u32]) -> HashSet<u32> {
    ids.iter().copied().collect()
}

#[test]
fn rows_are_sorted_by_id() {
    let mut patch = Patch::new();
    for _ in 0..5 {
        patch.add(fixture(1, 1, DmxChannelMap::default()));
    }
    patch.remove(FixtureId(1));
    patch.remove(FixtureId(3));
    assert_eq!(sorted_ids(&patch), vec![FixtureId(0), FixtureId(2), FixtureId(4)]);
    assert!(sorted_ids(&Patch::new()).is_empty());
}

#[test]
fn plain_click_selects_one_row() {
    let rows = vec![FixtureId(0), FixtureId(2), FixtureId(4)];
    let mut sel = selection(&[0, 4]);
    let mut anchor = None;
    click_row(&mut sel, &mut anchor, &rows, 1, false, false);
    assert_eq!(sel.selected_ids, set(&[2]));
    assert_eq!(anchor, Some(FixtureId(2)));
}

#[test]
fn ctrl_click_toggles() {
    let rows = vec![FixtureId(0), FixtureId(2), FixtureId(4)];
    let mut sel = selection(&[0]);
    let mut anchor = Some(FixtureId(0));
    click_row(&mut sel, &mut anchor, &rows, 2, true, false);
    assert_eq!(sel.selected_ids, set(&[0, 4]));
    assert_eq!(anchor, Some(FixtureId(4)));
    // Deselecting keeps the anchor.
    click_row(&mut sel, &mut anchor, &rows, 0, true, false);
    assert_eq!(sel.selected_ids, set(&[4]));
    assert_eq!(anchor, Some(FixtureId(4)));
}

#[test]
fn shift_click_selects_a_range() {
    let rows = vec![FixtureId(0), FixtureId(2), FixtureId(4), FixtureId(7)];
    let mut sel = selection(&[]);
    let mut anchor = Some(FixtureId(7));
    click_row(&mut sel, &mut anchor, &rows, 1, false, true);
    assert_eq!(sel.selected_ids, set(&[2, 4, 7]));
    assert_eq!(anchor, Some(FixtureId(7)));
    // Without a listed anchor only the clicked row is added.
    let mut sel = selection(&[0]);
    let mut anchor = Some(FixtureId(9));
    click_row(&mut sel, &mut anchor, &rows, 3, false, true);
    assert_eq!(sel.selected_ids, set(&[0, 7]));
    let mut anchor = None;
    click_row(&mut sel, &mut anchor, &rows, 1, false, true);
    assert_eq!(sel.selected_ids, set(&[0, 2, 7]));
    assert_eq!(anchor, None);
}

#[test]
fn row_labels() {
    assert_eq!(address_label(DmxAddress { universe: 2, channel: 78 }), "2.078");
    assert_eq!(address_label(DmxAddress { universe: 10, channel: 512 }), "10.512");
    assert_eq!(index_label(FixtureId(0)), "001");
    assert_eq!(index_label(FixtureId(41)), "042");
    assert_eq!(index_label(FixtureId(1233)), "1234");
}

fn fixture_type(id: &str, modes: &[&str]) -> GdtfFixtureType {
    GdtfFixtureType {
        fixture_type_id: id.to_string(),
        name: "Spot".to_string(),
        short_name: "S".to_string(),
        manufacturer: "Co".to_string(),
        description: String::new(),
        dmx_modes: modes
            .iter()
            .map(|m| DmxMode { name: m.to_string(), root_geometry: "Body".to_string(), channels: vec![] })
            .collect(),
    }
}

fn form(type_id: &str, mode: &str) -> PatchEditState {
    PatchEditState {
        selected_type_id: type_id.to_string(),
        selected_mode: mode.to_string(),
        new_name: "n".to_string(),
        universe_str: "1".to_string(),
        channel_str: "2".to_string(),
        add_error: None,
    }
}

#[test]
fn form_choice_stays_on_loaded_types() {
    let mut lib = FixtureLibrary::new();
    let mut e = form("gone", "x");
    keep_choice_valid(&mut e, &lib);
    assert_eq!(e.selected_type_id, "gone");
    assert_eq!(e.selected_mode, "x");

    lib.insert("A".to_string(), fixture_type("A", &["Basic", "Ext"]), vec![]);
    lib.insert("B".to_string(), fixture_type("B", &["One"]), vec![]);
    keep_choice_valid(&mut e, &lib);
    assert_eq!(e.selected_type_id, "A");
    assert_eq!(e.selected_mode, "Basic");
    assert_eq!(e.new_name, "n");

    let mut e = form("B", "One");
    keep_choice_valid(&mut e, &lib);
    assert_eq!(e.selected_type_id, "B");
    assert_eq!(e.selected_mode, "One");

    let mut e = form("A", "Ext");
    keep_choice_valid(&mut e, &lib);
    assert_eq!(e.selected_mode, "Ext");
}

fn osc(addr: &str, level: Option<(u8, u16)>, color: Option<(u8, u8, u8)>) -> OscInput {
    OscInput { addr: addr.to_string(), level, color }
}

#[test]
fn osc_messages_write_the_osc_source() {
    let mut patch = Patch::new();
    patch.add(fixture(3, 10, rgb_map()));
    let mut engine = DmxEngine::new();
    let msgs = vec![
        osc("/fixture/0/dimmer", Some((200, 51400)), None),
        osc("/fixture/0/pan", Some((18, 0x1234)), None),
        osc("fixture/0/color", None, Some((1, 2, 3))),
        osc("/fixture/0/zoom", Some((5, 5)), None),
        osc("/fixture/9/dimmer", Some((5, 5)), None),
        osc("/cue/go", None, None),
        osc("/cue/other", None, None),
        osc("/cue/back", None, None),
    ];
    let (count, cues) = osc_receive(&mut engine, &patch, &msgs);
    assert_eq!(count, 3);
    assert_eq!(cues, vec![CueTrigger::Go, CueTrigger::Back]);
    // Nothing is output until the next merge.
    assert!(engine.output_buffer(3).is_none());
    engine.tick();
    let out = engine.output_buffer(3).unwrap();
    assert_eq!(out.get(10), 200);
    assert_eq!(out.get(11), 0x12);
    assert_eq!(out.get(12), 0x34);
    assert_eq!((out.get(13), out.get(14), out.get(15)), (1, 2, 3));
}

#[test]
fn midi_control_changes_are_routed() {
    let m = MidiCcMap::default();
    let msgs = vec![[0xB0, 7, 100], [0x90, 7, 1], [0xB3, 10, 64], [0xB0, 99, 5], [0xB0, 16, 127]];
    assert_eq!(
        midi_receive(&msgs, &m),
        vec![
            (MidiTarget::Dimmer, 100),
            (MidiTarget::Pan, 64),
            (MidiTarget::Unmapped, 5),
            (MidiTarget::Strobe, 127),
        ]
    );
}

#[test]
fn output_frames_carry_the_merged_universe() {
    let mut patch = Patch::new();
    patch.add(fixture(1, 1, rgb_map()));
    let mut engine = DmxEngine::new();
    osc_receive(&mut engine, &patch, &vec![osc("/fixture/0/dimmer", Some((77, 0)), None)]);
    engine.tick();

    let a = artnet_frame(&engine, 1).unwrap();
    assert_eq!(a.universe, 1);
    assert_eq!(a.data[0], 77);
    assert!(artnet_frame(&engine, 2).is_none());

    let mut seq = 255u8;
    let s = sacn_frame(&engine, true, 1, 100, &mut seq).unwrap();
    assert_eq!((s.universe, s.priority, s.sequence), (1, 100, 255));
    assert_eq!(s.data[0], 77);
    assert_eq!(seq, 0);
    assert!(sacn_frame(&engine, false, 1, 100, &mut seq).is_none());
    assert_eq!(seq, 0);

    assert_eq!(usb_frame(&engine, true, 1).unwrap().data[0], 77);
    assert!(usb_frame(&engine, false, 1).is_none());
    assert!(usb_frame(&engine, true, 5).is_none());
}

#[test]
fn mesh_buffers_unroll_faces() {
    let mesh = Mesh3ds {
        name: "m".to_string(),
        vertices: vec![(1, 2, 3), (4, 5, 6), (7, 8, 9)],
        faces: vec![(2, 0, 1), (0, 0, 9)],
        uvs: vec![(10, 11), (12, 13), (14, 15)],
    };
    let (pos, uv, idx) = face_buffers(&mesh);
    assert_eq!(pos, vec![(7, 8, 9), (1, 2, 3), (4, 5, 6), (1, 2, 3), (1, 2, 3), (0, 0, 0)]);
    assert_eq!(uv, vec![(14, 15), (10, 11), (12, 13), (10, 11), (10, 11), (0, 0)]);
    assert_eq!(idx, vec![0, 1, 2, 3, 4, 5]);
}

#[test]
fn short_main_header_is_flagged() {
    assert!(announces_short_header(&[0x4D, 0x4D, 5, 0, 0, 0]));
    assert!(!announces_short_header(&[0x4D, 0x4D, 6, 0, 0, 0]));
    assert!(!announces_short_header(&[0x4D, 0x4C, 1, 0, 0, 0]));
    assert!(!announces_short_header(&[0x4D, 0x4D]));
}

#[test]
fn midi_target_follows_selection() {
    let sel = selection(&[3, 5]);
    let mut target = set(&[1]);
    sync_midi_target(true, &sel, &mut target);
    assert_eq!(target, set(&[3, 5]));
    sync_midi_target(false, &sel, &mut target);
    assert!(target.is_empty());
}

#[test]
fn selected_names_in_id_order() {
    let mut patch = Patch::new();
    for _ in 0..4 {
        patch.add(fixture(1, 1, DmxChannelMap::default()));
    }
    patch.get_mut(FixtureId(0)).unwrap().name = "Zero".to_string();
    patch.get_mut(FixtureId(2)).unwrap().name = "Two".to_string();
    patch.get_mut(FixtureId(3)).unwrap().name = "Three".to_string();
    assert_eq!(selected_names(&patch, &selection(&[3, 0, 9])), "Zero · Three");
    assert_eq!(selected_names(&patch, &selection(&[2])), "Two");
    assert_eq!(selected_names(&patch, &selection(&[])), "—");
    assert_eq!(selected_names(&patch, &selection(&[7])), "—");
}
