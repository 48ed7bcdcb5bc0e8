use std::io::Write;
use stagelx::archive::{eq_ignore_ascii_case, parse_mvr, read_gdtf_archive, to_ascii_lowercase, ArchiveError};
use stagelx::mvr_export::{build_scene_xml, collect_gdtf_entries, export_mvr, ExportError};

fn make_zip(entries: &[(&str, &[u8])]) -> Vec<u8> {
    let mut w = zip::ZipWriter::new(std::io::Cursor::new(Vec::new()));
    let opts = zip::write::SimpleFileOptions::default().compression_method(zip::CompressionMethod::Stored);
    for (name, bytes) in entries {
        w.start_file(*name, opts).unwrap();
        w.write_all(bytes).unwrap();
    }
    w.finish().unwrap().into_inner()
}

#[test]
fn gdtf_archive_parts() {
    let data = make_zip(&[
        ("description.xml", b"<GDTF/>"),
        ("models/3ds/Body.3ds", &[1, 2, 3]),
        ("models/gltf/Body.glb", &[4]),
        ("readme.txt", b"hello"),
    ]);
    let a = read_gdtf_archive(&data).unwrap();
    assert_eq!(a.description, "<GDTF/>");
    assert_eq!(a.models, vec![("models/3ds/Body.3ds".to_string(), vec![1, 2, 3])]);
}

#[test]
fn missing_description_xml() {
    let data = make_zip(&[("readme.txt", b"hello")]);
    assert!(matches!(read_gdtf_archive(&data), Err(ArchiveError::Zip(_))));
    assert!(matches!(read_gdtf_archive(b"not a zip"), Err(ArchiveError::Zip(_))));
}

#[test]
fn description_must_be_utf8() {
    let data = make_zip(&[("description.xml", &[0xFF, 0xFE, 0x00])]);
    assert!(matches!(read_gdtf_archive(&data), Err(ArchiveError::NotUtf8)));
}

#[test]
fn mvr_archive_contents() {
    let scene = br#"<?xml version="1.0"?><GeneralSceneDescription><Scene><Fixture name="F1"><Address>1.5</Address></Fixture></Scene></GeneralSceneDescription>"#;
    let data = make_zip(&[
        ("generalscenedescription.XML", scene),
        ("gdtf/Spot.GDTF", &[7, 7]),
        ("venue/Stage.OBJ", b"v 0 0 0"),
        ("notes.txt", b"x"),
        ("truss.glb", &[1]),
    ]);
    let s = parse_mvr(&data).unwrap();
    assert_eq!(s.name, "");
    assert_eq!(s.gdtf_files, vec![("gdtf/Spot.GDTF".to_string(), vec![7, 7])]);
    assert_eq!(s.geometry_files, vec!["venue/Stage.OBJ".to_string(), "truss.glb".to_string()]);
    assert_eq!(s.fixture_instances.len(), 1);
    assert_eq!(s.fixture_instances[0].name, "F1");
    assert_eq!(s.fixture_instances[0].address.channel, 5);
}

#[test]
fn mvr_without_scene_description() {
    let data = make_zip(&[("a.gdtf", &[1])]);
    assert!(matches!(parse_mvr(&data), Err(ArchiveError::MissingSceneDescription)));
    assert!(matches!(parse_mvr(b"junk"), Err(ArchiveError::Zip(_))));
}

#[test]
fn ascii_case_helpers() {
    assert!(eq_ignore_ascii_case("GeneralSceneDescription.xml", "GENERALscenedescription.XML"));
    assert!(!eq_ignore_ascii_case("abc", "abd"));
    assert!(!eq_ignore_ascii_case("abc", "ab"));
    assert_eq!(to_ascii_lowercase("MiXeD.ÄB"), "mixed.Äb");
}

fn instance(name: &str, type_id: &str, mode: &str, u: u16, c: u16) -> stagelx::patch::FixtureInstance {
    stagelx::patch::FixtureInstance {
        id: stagelx::types::FixtureId(0),
        name: name.to_string(),
        fixture_type_id: type_id.to_string(),
        dmx_mode: mode.to_string(),
        address: stagelx::types::DmxAddress { universe: u, channel: c },
        position: [0; 3],
        rotation: [0; 3],
        channel_map: stagelx::gdtf::DmxChannelMap::default(),
    }
}

fn bare_type(id: &str) -> stagelx::gdtf::GdtfFixtureType {
    stagelx::gdtf::GdtfFixtureType {
        fixture_type_id: id.to_string(),
        name: "Spot".to_string(),
        short_name: "S".to_string(),
        manufacturer: "Co".to_string(),
        description: String::new(),
        dmx_modes: vec![],
    }
}

fn read_entry(data: &[u8], name: &str) -> Vec<u8> {
    let mut a = zip::ZipArchive::new(std::io::Cursor::new(data)).unwrap();
    let mut f = a.by_name(name).unwrap();
    let mut v = Vec::new();
    std::io::Read::read_to_end(&mut f, &mut v).unwrap();
    v
}

#[test]
fn mvr_export_reads_back() {
    let mut lib = stagelx::library::FixtureLibrary::new();
    let gdtf = b"<GDTF FixtureTypeID=\"T-1\"/>".to_vec();
    lib.insert("T-1".to_string(), bare_type("T-1"), gdtf.clone());
    let fixtures = vec![
        instance("A", "T-1", "Std", 1, 1),
        instance("B", "T-1", "Std", 1, 20),
        instance("C", "Other", "M", 2, 1),
    ];
    let matrices = vec!["{1,0,0}".to_string(), "{0,1,0}".to_string(), "{0,0,1}".to_string()];
    let entries = collect_gdtf_entries(&fixtures, &lib);
    assert_eq!(entries, vec![("T-1_Std.gdtf".to_string(), gdtf.clone())]);
    let bytes = export_mvr(&fixtures, &matrices, &lib, "Show").unwrap();
    let xml = build_scene_xml(&fixtures, &matrices, "Show", &entries);
    assert_eq!(read_entry(&bytes, "GeneralSceneDescription.xml"), xml.as_bytes());
    assert_eq!(read_entry(&bytes, "T-1_Std.gdtf"), gdtf);
    let back = parse_mvr(&bytes).unwrap();
    assert_eq!(back.gdtf_files, entries);
    assert_eq!(back.fixture_instances.len(), 3);
    assert_eq!(back.fixture_instances[1].name, "B");
    assert_eq!(back.fixture_instances[1].address.channel, 20);
}

#[test]
fn mvr_export_refuses_clashing_file_names() {
    let mut lib = stagelx::library::FixtureLibrary::new();
    lib.insert("a b".to_string(), bare_type("a b"), vec![1]);
    lib.insert("a_b".to_string(), bare_type("a_b"), vec![2]);
    let fixtures = vec![instance("A", "a b", "M", 1, 1), instance("B", "a_b", "M", 1, 9)];
    let matrices = vec![String::new(), String::new()];
    assert!(matches!(export_mvr(&fixtures, &matrices, &lib, ""), Err(ExportError::Zip(_))));
}
