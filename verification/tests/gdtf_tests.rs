use stagelx::gdtf::{
    beam_type_from_name, convert_dmx_channel, convert_dmx_mode, parse_default_value, parse_offset,
    BeamType, ChannelFunction, DmxChannel, DmxChannelMap, DmxMode, GdtfFixtureType,
    LogicalChannel, XmlDmxChannel, XmlDmxMode,
};

#[test]
fn parse_offset_cases() {
    assert_eq!(parse_offset("1"), (1, 1));
    assert_eq!(parse_offset("2,3"), (2, 2));
    assert_eq!(parse_offset("  5 , 6  "), (5, 2));
    assert_eq!(parse_offset(""), (1, 1));
    assert_eq!(parse_offset("abc"), (1, 1));
}

#[test]
fn parse_default_value_cases() {
    assert_eq!(parse_default_value("128/1", 1), 128);
    assert_eq!(parse_default_value("32768/2", 2), 128); // 32768 >> 8
    assert_eq!(parse_default_value("0/1", 1), 0);
    assert_eq!(parse_default_value("512", 1), 255); // clamped
    assert_eq!(parse_default_value("", 1), 0);
}

#[test]
fn parse_offset_edge_cases() {
    // A value that does not fit a u16 falls back to 1.
    assert_eq!(parse_offset("70000"), (1, 1));
    // Three pieces: a 24-bit channel.
    assert_eq!(parse_offset("4,5,6"), (4, 3));
    // A leading plus sign is accepted, as str::parse accepts it.
    assert_eq!(parse_offset("+7"), (7, 1));
}

#[test]
fn parse_default_value_wide_takes_high_byte() {
    assert_eq!(parse_default_value("65535/2", 2), 255);
    assert_eq!(parse_default_value("256/2", 2), 1);
    // High byte of a value above 16 bits wraps to its bits 8-15.
    assert_eq!(parse_default_value("65536/2", 2), 0);
    assert_eq!(parse_default_value(" 200 /1", 1), 200);
    assert_eq!(parse_default_value("x/1", 1), 0);
}

#[test]
fn beam_types() {
    assert_eq!(beam_type_from_name("Spot"), BeamType::Spot);
    assert_eq!(beam_type_from_name("Wash"), BeamType::Wash);
    assert_eq!(beam_type_from_name("spot"), BeamType::Other);
    assert_eq!(beam_type_from_name(""), BeamType::Other);
}

fn ch(offset: u16, resolution: u8, attribute: &str) -> DmxChannel {
    DmxChannel {
        offset,
        resolution,
        attribute: attribute.to_string(),
        geometry: "Body".to_string(),
        default_value: 0,
    }
}

fn fixture_type() -> GdtfFixtureType {
    GdtfFixtureType {
        fixture_type_id: "44444444-4444-4444-4444-444444444444".to_string(),
        name: "AttrFixture".to_string(),
        short_name: "AF".to_string(),
        manufacturer: "Co".to_string(),
        description: "All attrs".to_string(),
        dmx_modes: vec![
            DmxMode {
                name: "Full".to_string(),
                root_geometry: "Body".to_string(),
                channels: vec![
                    ch(1, 1, "Dimmer"),
                    ch(2, 2, "Pan"),
                    ch(4, 2, "Tilt"),
                    ch(6, 1, "Zoom"),
                    ch(7, 1, "ColorAdd_R"),
                    ch(8, 1, "ColorAdd_G"),
                    ch(9, 1, "ColorAdd_B"),
                ],
            },
            DmxMode {
                name: "Basic".to_string(),
                root_geometry: "Body".to_string(),
                channels: vec![ch(1, 1, "Pan"), ch(3, 1, "Dimmer")],
            },
        ],
    }
}

#[test]
fn channel_map_full_mode() {
    let ft = fixture_type();
    let mode = ft.find_mode("Full").unwrap();
    assert!(mode.channel_for("Zoom").is_some());
    assert_eq!(mode.channel_for("Pan").unwrap().offset, 2);
    assert!(mode.channel_for("Gobo1").is_none());
    let map = ft.channel_map("Full");
    assert_eq!(map.dimmer, Some(0));
    assert_eq!(map.pan, Some(1));
    assert_eq!(map.pan_fine, Some(2));
    assert_eq!(map.tilt, Some(3));
    assert_eq!(map.tilt_fine, Some(4));
    assert_eq!(map.red, Some(6));
    assert_eq!(map.green, Some(7));
    assert_eq!(map.blue, Some(8));
    assert_eq!(map.gobo, None);
}

#[test]
fn channel_map_first_mode_and_missing_mode() {
    let ft = fixture_type();
    // An empty name selects the first mode.
    assert_eq!(ft.find_mode("").unwrap().name, "Full");
    let basic = ft.channel_map("Basic");
    assert_eq!(basic.pan, Some(0));
    assert_eq!(basic.pan_fine, None);
    assert_eq!(basic.dimmer, Some(2));
    assert_eq!(basic.tilt, None);
    // No such mode: nothing located.
    assert!(ft.find_mode("Nope").is_none());
    assert_eq!(ft.channel_map("Nope"), DmxChannelMap::default());
}

#[test]
fn channel_map_offset_zero_saturates() {
    let ft = GdtfFixtureType {
        fixture_type_id: String::new(),
        name: String::new(),
        short_name: String::new(),
        manufacturer: String::new(),
        description: String::new(),
        dmx_modes: vec![DmxMode {
            name: "M".to_string(),
            root_geometry: String::new(),
            channels: vec![ch(0, 1, "Dimmer")],
        }],
    };
    assert_eq!(ft.channel_map("M").dimmer, Some(0));
}

#[test]
fn convert_channel_and_mode() {
    let xml = XmlDmxChannel {
        offset: "2,3".to_string(),
        default: "32768/2".to_string(),
        geometry: "Head".to_string(),
        logical_channels: vec![LogicalChannel {
            attribute: "Pan".to_string(),
            functions: vec![ChannelFunction {
                physical_from: "-270".to_string(),
                physical_to: "270".to_string(),
            }],
        }],
    };
    let c = convert_dmx_channel(&xml);
    assert_eq!(c.offset, 2);
    assert_eq!(c.resolution, 2);
    assert_eq!(c.default_value, 128);
    assert_eq!(c.attribute, "Pan");
    assert_eq!(c.geometry, "Head");

    let bare = XmlDmxChannel {
        offset: "1".to_string(),
        default: String::new(),
        geometry: String::new(),
        logical_channels: vec![],
    };
    assert_eq!(convert_dmx_channel(&bare).attribute, "");

    let mode = XmlDmxMode {
        name: "Basic".to_string(),
        geometry: "Body".to_string(),
        channels: Some(vec![xml, bare]),
    };
    let m = convert_dmx_mode(&mode);
    assert_eq!(m.name, "Basic");
    assert_eq!(m.root_geometry, "Body");
    assert_eq!(m.channels.len(), 2);
    let empty = XmlDmxMode { name: "E".to_string(), geometry: String::new(), channels: None };
    assert!(convert_dmx_mode(&empty).channels.is_empty());
}
