use stagelx::capture::{capture_fixture, capture_stage, CapturedLevels};
use stagelx::engine::{DmxEngine, DmxSource, MergeStrategy};
use stagelx::gdtf::DmxChannelMap;
use stagelx::patch::{FixtureInstance, Patch};
use stagelx::projection::{programmer_to_dmx, project_fixture, write_fixture_levels, FixtureLevels};
use stagelx::types::{DmxAddress, FixtureId};
use stagelx::universe::{DmxBuffer, UniverseSet};

#[test]
fn round_trip_8bit() {
    let mut buf = DmxBuffer::default();
    buf.set(1, 128);
    assert_eq!(buf.get(1), 128);
}

fn generic_capture(buf: &DmxBuffer) -> CapturedLevels {
    capture_fixture(buf, 0, &DmxChannelMap::default())
}

#[test]
fn round_trip_16bit_pan_tilt() {
    // Forward: pan = 0.5 → raw = 32767 → msb = 127, fine = 255
    let pan = 0.5_f32;
    let raw = (pan * 65535.0) as u16;
    let msb = (raw >> 8) as u8;
    let fine = (raw & 0xFF) as u8;

    let mut buf = DmxBuffer::default();
    buf.set(1, msb);
    buf.set(2, fine);

    // Inverse
    let recovered = (generic_capture(&buf).pan as f32 / 65535.0).clamp(0.0, 1.0);
    assert!((recovered - 0.5).abs() < 0.001);
}

#[test]
fn inverse_dimmer_full() {
    let mut buf = DmxBuffer::default();
    buf.set(1, 255);
    let dimmer = buf.get(1) as f32 / 255.0;
    assert!((dimmer - 1.0).abs() < 0.001);
}

#[test]
fn inverse_dimmer_zero() {
    let mut buf = DmxBuffer::default();
    buf.set(1, 0);
    let dimmer = buf.get(1) as f32 / 255.0;
    assert!((dimmer - 0.0).abs() < 0.001);
}

#[test]
fn inverse_color_channels() {
    let mut buf = DmxBuffer::default();
    buf.set(5, 128);
    buf.set(6, 64);
    buf.set(7, 255);
    let r = buf.get(5) as f32 / 255.0;
    let g = buf.get(6) as f32 / 255.0;
    let b = buf.get(7) as f32 / 255.0;
    assert!((r - 128.0 / 255.0).abs() < 0.001);
    assert!((g - 64.0 / 255.0).abs() < 0.001);
    assert!((b - 1.0).abs() < 0.001);
}

#[test]
fn buffer_edges() {
    let mut buf = DmxBuffer::default();
    buf.set(0, 9);
    buf.set(513, 9);
    assert_eq!(buf.get(0), 0);
    assert_eq!(buf.get(513), 0);
    buf.set(512, 7);
    assert_eq!(buf.get(512), 7);
    assert_eq!(buf.as_bytes()[511], 7);
    buf.copy_from_slice(&[1, 2, 3]);
    assert_eq!(buf.get(1), 1);
    assert_eq!(buf.get(3), 3);
    assert_eq!(buf.get(4), 0);
    buf.clear();
    assert_eq!(buf.get(1), 0);
}

#[test]
fn htp_and_ltp_merge() {
    let mut a = DmxBuffer::default();
    a.set(1, 10);
    a.set(2, 200);
    let mut b = DmxBuffer::default();
    b.set(1, 50);
    b.set(2, 100);
    let mut h = a;
    h.merge_htp(&b);
    assert_eq!(h.get(1), 50);
    assert_eq!(h.get(2), 200);
    let mut l = a;
    l.merge_ltp(&b);
    assert_eq!(l.get(1), 50);
    assert_eq!(l.get(2), 100);
}

#[test]
fn universe_set_basics() {
    let mut set = UniverseSet::new();
    assert!(set.get(1).is_none());
    set.get_or_insert(1).set(3, 42);
    assert_eq!(set.get(1).unwrap().get(3), 42);
    assert_eq!(set.get_or_insert(1).get(3), 42);
    set.get_or_insert(2);
    assert_eq!(set.len(), 2);
    let mut ids: Vec<u16> = set.universes().iter().map(|(u, _)| *u).collect();
    ids.sort();
    assert_eq!(ids, vec![1, 2]);
}

fn source(name: &str, priority: u8, strategy: MergeStrategy, universe: u16, ch: u16, v: u8) -> DmxSource {
    let mut universes = UniverseSet::new();
    universes.get_or_insert(universe).set(ch, v);
    DmxSource { name: name.to_string(), priority, strategy, universes }
}

#[test]
fn engine_merges_by_priority() {
    let mut engine = DmxEngine::new();
    engine.add_source(source("high", 200, MergeStrategy::Ltp, 1, 1, 5));
    engine.add_source(source("low", 100, MergeStrategy::Htp, 1, 1, 99));
    engine.tick();
    // LTP at the higher priority wins over the HTP below it.
    assert_eq!(engine.output_buffer(1).unwrap().get(1), 5);
    assert!(engine.output_buffer(2).is_none());
}

#[test]
fn engine_htp_sources_combine() {
    let mut engine = DmxEngine::new();
    engine.add_source(source("a", 100, MergeStrategy::Htp, 1, 1, 10));
    engine.add_source(source("b", 100, MergeStrategy::Htp, 1, 2, 20));
    engine.tick();
    let out = engine.output_buffer(1).unwrap();
    assert_eq!(out.get(1), 10);
    assert_eq!(out.get(2), 20);
    // Existing source by name is returned, not duplicated.
    engine.get_or_add_source("a", 1, MergeStrategy::Ltp).universes.get_or_insert(1).set(1, 77);
    engine.tick();
    assert_eq!(engine.output_buffer(1).unwrap().get(1), 77);
}

fn fixture(u: u16, c: u16, map: DmxChannelMap) -> FixtureInstance {
    FixtureInstance {
        id: FixtureId(0),
        name: "F".to_string(),
        fixture_type_id: "T".to_string(),
        dmx_mode: "M".to_string(),
        address: DmxAddress { universe: u, channel: c },
        position: [0; 3],
        rotation: [0; 3],
        channel_map: map,
    }
}

fn levels() -> FixtureLevels {
    FixtureLevels { dimmer: 200, pan: 0x1234, tilt: 0xABCD, red: 1, green: 2, blue: 3, gobo: 64, gobo_spin: 9 }
}

#[test]
fn generic_layout_projection_and_capture() {
    let mut buf = DmxBuffer::default();
    project_fixture(&mut buf, 10, &DmxChannelMap::default(), &levels());
    let got: Vec<u8> = (10..18).map(|c| buf.get(c)).collect();
    assert_eq!(got, vec![200, 0x12, 0x34, 0xAB, 0xCD, 1, 2, 3]);
    let c = capture_fixture(&buf, 10, &DmxChannelMap::default());
    assert_eq!(c.dimmer, Some(200));
    assert_eq!(c.pan, 0x1234);
    assert_eq!(c.tilt, 0xABCD);
    assert_eq!((c.red, c.green, c.blue), (Some(1), Some(2), Some(3)));
    assert_eq!((c.gobo, c.gobo_spin), (None, None));
}

#[test]
fn mapped_projection_and_capture() {
    let map = DmxChannelMap {
        dimmer: Some(0),
        pan: Some(1),
        pan_fine: None,
        tilt: None,
        tilt_fine: None,
        red: Some(5),
        green: None,
        blue: None,
        gobo: Some(6),
        gobo_rotation: None,
        color_wheel: None,
    };
    let mut buf = DmxBuffer::default();
    project_fixture(&mut buf, 1, &map, &levels());
    assert_eq!(buf.get(1), 200);
    assert_eq!(buf.get(2), 0x12);
    assert_eq!(buf.get(3), 0);
    assert_eq!(buf.get(6), 1);
    assert_eq!(buf.get(7), 64);
    let c = capture_fixture(&buf, 1, &map);
    // Pan fine not located: fine byte reads as 0; tilt not located: coarse 128.
    assert_eq!(c.pan, 0x1200);
    assert_eq!(c.tilt, 0x8000);
    assert_eq!(c.green, None);
    assert_eq!(c.gobo, Some(64));
}

#[test]
fn programmer_projection_into_engine() {
    let mut patch = Patch::new();
    let id = patch.add(fixture(3, 1, DmxChannelMap::default()));
    let mut engine = DmxEngine::new();
    programmer_to_dmx(&mut engine, &patch, &levels());
    engine.tick();
    assert_eq!(engine.output_buffer(3).unwrap().get(1), 200);
    let captured = capture_stage(&engine, &patch);
    assert_eq!(captured.len(), 1);
    assert_eq!(captured[0].0, id);
    assert_eq!(captured[0].1.unwrap().tilt, 0xABCD);

    let mut set = UniverseSet::new();
    write_fixture_levels(&mut set, &patch, FixtureId(99), &levels());
    assert_eq!(set.len(), 0);
    write_fixture_levels(&mut set, &patch, id, &levels());
    assert_eq!(set.get(3).unwrap().get(2), 0x12);
}

#[test]
fn capture_without_output_is_none() {
    let mut patch = Patch::new();
    patch.add(fixture(7, 1, DmxChannelMap::default()));
    let engine = DmxEngine::new();
    let captured = capture_stage(&engine, &patch);
    assert!(captured[0].1.is_none());
}

#[test]
fn patch_ids_are_fresh() {
    let mut patch = Patch::new();
    let a = patch.add(fixture(1, 1, DmxChannelMap::default()));
    let b = patch.add(fixture(1, 9, DmxChannelMap::default()));
    assert_eq!(a, FixtureId(0));
    assert_eq!(b, FixtureId(1));
    assert_eq!(patch.get(b).unwrap().id, b);
    assert_eq!(patch.len(), 2);
    let removed = patch.remove(a).unwrap();
    assert_eq!(removed.address.channel, 1);
    assert!(patch.get(a).is_none());
    let c = patch.add(fixture(1, 1, DmxChannelMap::default()));
    assert_eq!(c, FixtureId(2));
    patch.get_mut(c).unwrap().name = "renamed".to_string();
    assert_eq!(patch.get(c).unwrap().name, "renamed");
    assert!(patch.get_mut(FixtureId(50)).is_none());
    assert_eq!(patch.fixtures().len(), 2);
    assert!(!patch.is_empty());
}

#[test]
fn engine_universe_added_to_existing_source_reaches_output() {
    let mut engine = DmxEngine::default();
    engine.add_source(DmxSource {
        name: "a".into(),
        priority: 100,
        strategy: MergeStrategy::Htp,
        universes: UniverseSet::default(),
    });
    engine.tick();
    assert!(engine.output_buffer(7).is_none());
    engine.get_or_add_source("a", 100, MergeStrategy::Htp).universes.get_or_insert(7).set(1, 9);
    engine.tick();
    assert!(engine.output_buffer(7).is_some());
    assert_eq!(engine.output_buffer(7).unwrap().get(1), 9);
}
