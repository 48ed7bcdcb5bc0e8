use stagelx::gdtf::DmxChannelMap;
use stagelx::mvr::{convert_fixture, parse_address, parse_scene_xml, MvrFixtureData, SceneReader, XmlEvent};
use stagelx::mvr_export::{
    build_scene_xml, find_bytes, gdtf_filename, match_gdtf_for_instance, sanitize_filename, xml_escape,
};
use stagelx::patch::FixtureInstance;
use stagelx::types::{DmxAddress, FixtureId};

#[test]
fn xml_escaping() {
    assert_eq!(xml_escape("a & b"), "a &amp; b");
    assert_eq!(xml_escape("\"quote\""), "&quot;quote&quot;");
}

#[test]
fn xml_escaping_all_entities() {
    assert_eq!(xml_escape("<a>&\"b\""), "&lt;a&gt;&amp;&quot;b&quot;");
    assert_eq!(xml_escape(""), "");
    assert_eq!(xml_escape("plain'text"), "plain'text");
}

#[test]
fn sanitize_keeps_only_safe_characters() {
    assert_eq!(sanitize_filename("Robe_Spot 1.0/x"), "Robe_Spot_1_0_x");
    assert_eq!(sanitize_filename("a-b_C9"), "a-b_C9");
    assert_eq!(sanitize_filename("é\t"), "__");
}

#[test]
fn find_bytes_cases() {
    assert_eq!(find_bytes(b"hello world", b"world"), Some(6));
    assert_eq!(find_bytes(b"hello", b""), Some(0));
    assert_eq!(find_bytes(b"hi", b"hello"), None);
    assert_eq!(find_bytes(b"abab", b"ab"), Some(0));
    assert_eq!(find_bytes(b"aab", b"ab"), Some(1));
    assert_eq!(find_bytes(b"abc", b"abd"), None);
}

#[test]
fn parse_address_cases() {
    assert_eq!(parse_address("1.1"), Some((1, 1)));
    assert_eq!(parse_address(" 2 . 512 "), Some((2, 512)));
    assert_eq!(parse_address("0.1"), None);
    assert_eq!(parse_address("1.0"), None);
    assert_eq!(parse_address("1.513"), None);
    assert_eq!(parse_address("1"), None);
    assert_eq!(parse_address("a.1"), None);
    assert_eq!(parse_address("1.2.3"), None);
}

fn data(name: &str, spec: &str, mode: &str, type_id: &str, addr: &str) -> MvrFixtureData {
    MvrFixtureData {
        name: name.to_string(),
        gdtf_spec: spec.to_string(),
        gdtf_mode: mode.to_string(),
        fixture_type_id: type_id.to_string(),
        matrix_str: "{1,0,0,0,0,1,0,0,0,0,1,0,100,200,300,1}".to_string(),
        address_str: addr.to_string(),
    }
}

#[test]
fn convert_fixture_defaults() {
    let f = convert_fixture(data("", "gdtf/Robe@Spot.gdtf", "", "", "bad"), 4);
    assert_eq!(f.id, FixtureId(4));
    assert_eq!(f.name, "Fixture 5");
    assert_eq!(f.fixture_type_id, "Robe@Spot");
    assert_eq!(f.dmx_mode, "Default");
    assert_eq!(f.address, DmxAddress { universe: 1, channel: 1 });
    assert_eq!(f.matrix, "{1,0,0,0,0,1,0,0,0,0,1,0,100,200,300,1}");
}

#[test]
fn convert_fixture_given_fields() {
    let f = convert_fixture(data("Spot 1", "x.gdtf", "16ch", "GUID-1", "3.101"), 0);
    assert_eq!(f.name, "Spot 1");
    assert_eq!(f.fixture_type_id, "GUID-1");
    assert_eq!(f.dmx_mode, "16ch");
    assert_eq!(f.address, DmxAddress { universe: 3, channel: 101 });
    // Every trailing ".gdtf" goes.
    let g = convert_fixture(data("", "a.gdtf.gdtf", "", "", "1.1"), 9);
    assert_eq!(g.fixture_type_id, "a");
    assert_eq!(g.name, "Fixture 10");
}

fn start(name: &str, attrs: &[(&str, &str)]) -> XmlEvent {
    XmlEvent::Start {
        name: name.to_string(),
        attributes: attrs.iter().map(|(k, v)| (k.to_string(), v.to_string())).collect(),
    }
}

#[test]
fn scene_reader_steps() {
    let mut r = SceneReader::new();
    r.step(&start("Fixtures", &[]));
    assert!(r.current.is_none());
    r.step(&start("Fixture", &[("uuid", "u"), ("name", "Wash 1")]));
    r.step(&start("GDTFSpec", &[]));
    r.step(&XmlEvent::Text("Wash.gdtf".to_string()));
    r.step(&XmlEvent::End { name: "GDTFSpec".to_string() });
    // Text outside a field target is ignored.
    r.step(&XmlEvent::Text("stray".to_string()));
    r.step(&start("Address", &[]));
    r.step(&XmlEvent::Text("2.10".to_string()));
    r.step(&XmlEvent::End { name: "Address".to_string() });
    r.step(&XmlEvent::End { name: "Fixture".to_string() });
    assert!(r.current.is_none());
    assert_eq!(r.instances.len(), 1);
    let f = &r.instances[0];
    assert_eq!(f.name, "Wash 1");
    assert_eq!(f.fixture_type_id, "Wash");
    assert_eq!(f.address, DmxAddress { universe: 2, channel: 10 });
    assert_eq!(f.id, FixtureId(0));
}

#[test]
fn parse_scene_xml_reads_fixtures() {
    let xml = r#"<?xml version="1.0" encoding="UTF-8"?>
<GeneralSceneDescription>
  <Scene>
    <Layers><Layer><ChildList>
      <Fixture name="Spot A" uuid="1">
        <GDTFSpec>Spot.gdtf</GDTFSpec>
        <GDTFMode>Mode 1</GDTFMode>
        <FixtureTypeId>ABC</FixtureTypeId>
        <Matrix>{1,0,0,0,0,1,0,0,0,0,1,0,0,0,0,1}</Matrix>
        <Address>1.17</Address>
      </Fixture>
      <Fixture uuid="2">
        <GDTFSpec>folder/Wash.gdtf</GDTFSpec>
        <Address>2.1</Address>
      </Fixture>
    </ChildList></Layer></Layers>
  </Scene>
</GeneralSceneDescription>"#;
    let v = parse_scene_xml(xml).unwrap();
    assert_eq!(v.len(), 2);
    assert_eq!(v[0].name, "Spot A");
    assert_eq!(v[0].dmx_mode, "Mode 1");
    assert_eq!(v[0].fixture_type_id, "ABC");
    assert_eq!(v[0].address, DmxAddress { universe: 1, channel: 17 });
    assert_eq!(v[1].name, "Fixture 2");
    assert_eq!(v[1].fixture_type_id, "Wash");
    assert_eq!(v[1].dmx_mode, "Default");
    assert_eq!(v[1].id, FixtureId(1));
}

#[test]
fn parse_scene_xml_reports_mismatched_tags() {
    assert!(parse_scene_xml("<a><b></a>").is_err());
}

fn instance(name: &str, type_id: &str, mode: &str, u: u16, c: u16) -> FixtureInstance {
    FixtureInstance {
        id: FixtureId(0),
        name: name.to_string(),
        fixture_type_id: type_id.to_string(),
        dmx_mode: mode.to_string(),
        address: DmxAddress { universe: u, channel: c },
        position: [0; 3],
        rotation: [0; 3],
        channel_map: DmxChannelMap::default(),
    }
}

#[test]
fn gdtf_file_names_and_matching() {
    let inst = instance("A", "Robe Spot", "16 ch", 1, 1);
    assert_eq!(gdtf_filename(&inst), "Robe_Spot_16_ch.gdtf");
    assert!(match_gdtf_for_instance(&inst, b"xx FixtureTypeID=\"Robe Spot\""));
    assert!(!match_gdtf_for_instance(&inst, b"Robe Wash"));
    let mut far = vec![b'.'; 5000];
    far.extend_from_slice(b"Robe Spot");
    assert!(!match_gdtf_for_instance(&inst, &far));
}

#[test]
fn scene_xml_text() {
    let fixtures = vec![instance("A&B", "T1", "M", 2, 10)];
    let matrices = vec!["{m}".to_string()];
    let entries = vec![("T1_M.gdtf".to_string(), b"header T1".to_vec())];
    let xml = build_scene_xml(&fixtures, &matrices, "My <Show>", &entries);
    let expected = "<?xml version=\"1.0\" encoding=\"UTF-8\"?>\n<GeneralSceneDescription>\n  <Scene>\n    <Name>My &lt;Show&gt;</Name>\n    <Fixtures>\n      <Fixture name=\"A&amp;B\">\n        <GDTFSpec>T1_M.gdtf</GDTFSpec>\n        <GDTFMode>M</GDTFMode>\n        <FixtureTypeId>T1</FixtureTypeId>\n        <Matrix>{m}</Matrix>\n        <Address>2.10</Address>\n      </Fixture>\n    </Fixtures>\n  </Scene>\n</GeneralSceneDescription>\n";
    assert_eq!(xml, expected);
    let none = build_scene_xml(&[], &[], "", &[]);
    assert_eq!(none, "<?xml version=\"1.0\" encoding=\"UTF-8\"?>\n<GeneralSceneDescription>\n  <Scene>\n    <Fixtures>\n    </Fixtures>\n  </Scene>\n</GeneralSceneDescription>\n");
}

#[test]
fn scene_xml_falls_back_to_type_id() {
    let fixtures = vec![instance("A", "T2", "M", 1, 1)];
    let matrices = vec!["{}".to_string()];
    let entries = vec![("other.gdtf".to_string(), b"nothing".to_vec())];
    let xml = build_scene_xml(&fixtures, &matrices, "", &entries);
    assert!(xml.contains("<GDTFSpec>T2</GDTFSpec>"));
}

#[test]
fn xml_escape_round_trips_through_entity_decoding() {
    let s = "a&lt; <b> & \"c\" &amp;";
    let e = xml_escape(s);
    assert!(!e.contains('<') && !e.contains('>') && !e.contains('"'));
    let back = e.replace("&quot;", "\"").replace("&gt;", ">").replace("&lt;", "<").replace("&amp;", "&");
    assert_eq!(back, s);
}
