use stagelx::gdtf::{DmxChannel, DmxChannelMap, DmxMode, GdtfFixtureType};
use stagelx::library::{
    add_fixture, check_add_fixture, gdtf_key, truncate, AddFixtureError, AppMode, FixtureLibrary,
    PatchEditState, DEFAULT_POSITION,
};
use stagelx::patch::Patch;
use stagelx::types::{DmxAddress, FixtureId};

fn edit(type_id: &str, mode: &str, name: &str, u: &str, c: &str) -> PatchEditState {
    PatchEditState {
        selected_type_id: type_id.to_string(),
        selected_mode: mode.to_string(),
        new_name: name.to_string(),
        universe_str: u.to_string(),
        channel_str: c.to_string(),
        add_error: None,
    }
}

fn fixture_type(id: &str) -> GdtfFixtureType {
    GdtfFixtureType {
        fixture_type_id: id.to_string(),
        name: "Spot".to_string(),
        short_name: "S".to_string(),
        manufacturer: "Co".to_string(),
        description: String::new(),
        dmx_modes: vec![DmxMode {
            name: "Std".to_string(),
            root_geometry: "Body".to_string(),
            channels: vec![DmxChannel {
                offset: 3,
                resolution: 1,
                attribute: "Dimmer".to_string(),
                geometry: "Body".to_string(),
                default_value: 0,
            }],
        }],
    }
}

#[test]
fn form_errors_in_order() {
    assert_eq!(check_add_fixture(&edit("T", "", "", "x", "1"), 0), Err(AddFixtureError::UniverseNotNumber));
    assert_eq!(check_add_fixture(&edit("T", "", "", "1", "70000"), 0), Err(AddFixtureError::ChannelNotNumber));
    assert_eq!(check_add_fixture(&edit("T", "", "", "0", "1"), 0), Err(AddFixtureError::UniverseZero));
    assert_eq!(check_add_fixture(&edit("T", "", "", "1", "513"), 0), Err(AddFixtureError::ChannelOutOfRange));
    assert_eq!(check_add_fixture(&edit("", "", "", "1", "1"), 0), Err(AddFixtureError::NoTypeSelected));
    assert_eq!(AddFixtureError::UniverseZero.message(), "Universe must be ≥ 1");
    assert_eq!(AddFixtureError::ChannelOutOfRange.message(), "Channel must be 1–512");
}

#[test]
fn form_names() {
    let (u, c, name) = check_add_fixture(&edit("T", "", "  ", " 2 ", "10"), 4).unwrap();
    assert_eq!((u, c), (2, 10));
    assert_eq!(name, "Fixture 5");
    let (_, _, named) = check_add_fixture(&edit("T", "", " Spot L ", "1", "1"), 0).unwrap();
    assert_eq!(named, "Spot L");
}

#[test]
fn add_fixture_uses_library_channel_map() {
    let mut lib = FixtureLibrary::new();
    lib.insert("T".to_string(), fixture_type("T"), vec![1, 2, 3]);
    let mut patch = Patch::new();
    let mut e = edit("T", "Std", "", "1", "100");
    let id = add_fixture(&mut patch, &mut e, &lib).unwrap();
    assert_eq!(id, FixtureId(0));
    let f = patch.get(id).unwrap();
    assert_eq!(f.name, "Fixture 1");
    assert_eq!(f.address, DmxAddress { universe: 1, channel: 100 });
    assert_eq!(f.channel_map.dimmer, Some(2));
    assert_eq!(f.position, DEFAULT_POSITION);
    assert_eq!(f32::from_bits(f.position[1]), 6.0);
    assert!(e.universe_str.is_empty() && e.channel_str.is_empty() && e.new_name.is_empty());
    assert_eq!(e.selected_type_id, "T");

    // Unknown type: no channel map, still added.
    let mut e2 = edit("Other", "", "Wash", "2", "1");
    let id2 = add_fixture(&mut patch, &mut e2, &lib).unwrap();
    assert_eq!(patch.get(id2).unwrap().channel_map, DmxChannelMap::default());

    // Refused form: nothing changes.
    let mut bad = edit("T", "", "", "", "1");
    assert_eq!(add_fixture(&mut patch, &mut bad, &lib), Err(AddFixtureError::UniverseNotNumber));
    assert_eq!(patch.len(), 2);
    assert_eq!(bad.channel_str, "1");
}

#[test]
fn library_insert_replaces() {
    let mut lib = FixtureLibrary::new();
    assert!(lib.is_empty());
    lib.insert("A".to_string(), fixture_type("A"), vec![1]);
    lib.insert("B".to_string(), fixture_type("B"), vec![2]);
    lib.insert("A".to_string(), fixture_type("A2"), vec![3]);
    assert_eq!(lib.len(), 2);
    assert_eq!(lib.get("A").unwrap().fixture_type_id, "A2");
    assert_eq!(lib.raw_bytes("A"), Some(&[3u8][..]));
    assert_eq!(lib.raw_bytes("B"), Some(&[2u8][..]));
    assert!(lib.get("C").is_none());
    assert_eq!(lib.all().len(), 2);
}

#[test]
fn small_helpers() {
    assert_eq!(gdtf_key("a/b/c.gdtf"), "c.gdtf");
    assert_eq!(gdtf_key("plain.gdtf"), "plain.gdtf");
    assert_eq!(truncate("héllo", 2), "hé");
    assert_eq!(truncate("hi", 5), "hi");
    assert_eq!(AppMode::Run.as_str(), "Run");
    assert_eq!(AppMode::default(), AppMode::Program);
}

fn mvr_fixture(name: &str, type_ref: &str, mode: &str, u: u16, c: u16) -> stagelx::mvr::MvrFixture {
    stagelx::mvr::MvrFixture {
        id: FixtureId(7),
        name: name.to_string(),
        fixture_type_id: type_ref.to_string(),
        dmx_mode: mode.to_string(),
        address: DmxAddress { universe: u, channel: c },
        matrix: String::new(),
    }
}

#[test]
fn mvr_fixtures_bind_to_loaded_types() {
    let mut lib = FixtureLibrary::new();
    lib.insert("T-1".to_string(), fixture_type("T-1"), vec![]);
    lib.insert("T-2".to_string(), fixture_type("T-2"), vec![]);
    let loaded = vec![
        ("gdtf/Spot.gdtf".to_string(), Some("T-2".to_string())),
        ("gdtf/Broken.gdtf".to_string(), None),
        ("Spot.gdtf".to_string(), Some("T-1".to_string())),
    ];
    let fixtures = vec![
        mvr_fixture("A", "Spot.gdtf", "Std", 1, 1),
        mvr_fixture("B", "Unknown", "Std", 1, 9),
        mvr_fixture("C", "T-2", "Other", 2, 5),
        mvr_fixture("D", "Broken.gdtf", "Std", 2, 9),
    ];
    let placements = vec![([1, 2, 3], [4, 5, 6]), ([0; 3], [0; 3]), ([7; 3], [8; 3]), ([0; 3], [0; 3])];
    let mut patch = Patch::new();
    patch.add(stagelx::patch::FixtureInstance {
        id: FixtureId(0),
        name: "Old".to_string(),
        fixture_type_id: "T-1".to_string(),
        dmx_mode: "Std".to_string(),
        address: DmxAddress { universe: 9, channel: 1 },
        position: [0; 3],
        rotation: [0; 3],
        channel_map: DmxChannelMap::default(),
    });
    let added = stagelx::library::bind_mvr_fixtures(&mut patch, &lib, &loaded, &fixtures, &placements);
    assert_eq!(added, vec![FixtureId(1), FixtureId(2)]);
    assert_eq!(patch.len(), 3);
    // "Spot.gdtf" is the key of both the first and the last file; the last one wins.
    let a = patch.get(FixtureId(1)).unwrap();
    assert_eq!(a.name, "A");
    assert_eq!(a.fixture_type_id, "T-1");
    assert_eq!(a.position, [1, 2, 3]);
    assert_eq!(a.rotation, [4, 5, 6]);
    assert_eq!(a.channel_map.dimmer, Some(2));
    let c = patch.get(FixtureId(2)).unwrap();
    assert_eq!(c.name, "C");
    assert_eq!(c.fixture_type_id, "T-2");
    assert_eq!(c.address, DmxAddress { universe: 2, channel: 5 });
    // Mode "Other" is not in the type: nothing is located.
    assert_eq!(c.channel_map, DmxChannelMap::default());
    assert_eq!(patch.get(FixtureId(0)).unwrap().name, "Old");
}

#[test]
fn decimals_read_back() {
    for n in [0u32, 7, 10, 512, 65535, 4294967295] {
        let mut s = String::new();
        stagelx::text::push_decimal(&mut s, n as u64);
        assert_eq!(s, n.to_string());
        assert_eq!(stagelx::text::parse_decimal(&s, u32::MAX), Some(n));
    }
}

fn typed(name: &str, type_id: &str) -> stagelx::patch::FixtureInstance {
    stagelx::patch::FixtureInstance {
        id: FixtureId(0),
        name: name.to_string(),
        fixture_type_id: type_id.to_string(),
        dmx_mode: "Std".to_string(),
        address: DmxAddress { universe: 1, channel: 1 },
        position: [0; 3],
        rotation: [0; 3],
        channel_map: DmxChannelMap::default(),
    }
}

#[test]
fn type_usage_counts_fixtures_of_one_type() {
    let mut patch = Patch::new();
    assert_eq!(stagelx::library::type_usage(&patch, "T-1"), 0);
    patch.add(typed("A", "T-1"));
    patch.add(typed("B", "T-2"));
    let c = patch.add(typed("C", "T-1"));
    assert_eq!(stagelx::library::type_usage(&patch, "T-1"), 2);
    assert_eq!(stagelx::library::type_usage(&patch, "T-2"), 1);
    assert_eq!(stagelx::library::type_usage(&patch, "T-3"), 0);
    patch.remove(c);
    assert_eq!(stagelx::library::type_usage(&patch, "T-1"), 1);
}
