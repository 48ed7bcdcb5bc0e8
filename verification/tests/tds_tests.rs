use stagelx::tds::{parse, walk_chunks, Error3ds};

fn chunk(id: u16, body: &[u8]) -> Vec<u8> {
    let mut v = id.to_le_bytes().to_vec();
    v.extend_from_slice(&((body.len() + 6) as u32).to_le_bytes());
    v.extend_from_slice(body);
    v
}

fn f(x: f32) -> [u8; 4] {
    x.to_le_bytes()
}

fn sample_file() -> Vec<u8> {
    let mut points = 3u16.to_le_bytes().to_vec();
    for p in [[0.0f32, 0.0, 0.0], [1.0, 0.0, 0.0], [0.0, 1.0, 0.5]] {
        for c in p {
            points.extend_from_slice(&f(c));
        }
    }
    let mut faces = 1u16.to_le_bytes().to_vec();
    for i in [0u16, 1, 2, 0] {
        faces.extend_from_slice(&i.to_le_bytes());
    }
    let mut uvs = 3u16.to_le_bytes().to_vec();
    for c in [0.0f32, 0.0, 1.0, 0.0, 0.0, 1.0] {
        uvs.extend_from_slice(&f(c));
    }
    let mut tri = chunk(0x4110, &points);
    tri.extend(chunk(0x4120, &faces));
    tri.extend(chunk(0x4140, &uvs));
    let mut obj = b"Body\0".to_vec();
    obj.extend(chunk(0x4100, &tri));
    // An object without vertices is dropped.
    let mut empty_obj = b"Empty\0".to_vec();
    empty_obj.extend(chunk(0x4100, &[]));
    let mut edit = chunk(0x4000, &obj);
    edit.extend(chunk(0x4000, &empty_obj));
    edit.extend(chunk(0xB000, &[1, 2, 3])); // keyframes: skipped
    chunk(0x4D4D, &chunk(0x3D3D, &edit))
}

#[test]
fn parses_named_mesh() {
    let scene = parse(&sample_file()).unwrap();
    assert_eq!(scene.meshes.len(), 1);
    let m = &scene.meshes[0];
    assert_eq!(m.name, "Body");
    assert_eq!(m.vertices.len(), 3);
    assert_eq!(f32::from_bits(m.vertices[1].0), 1.0);
    assert_eq!(f32::from_bits(m.vertices[2].2), 0.5);
    assert_eq!(m.faces, vec![(0, 1, 2)]);
    assert_eq!(m.uvs.len(), 3);
    assert_eq!(f32::from_bits(m.uvs[2].1), 1.0);
}

#[test]
fn errors() {
    assert!(matches!(parse(&[1, 2, 3]), Err(Error3ds::Truncated)));
    assert!(matches!(parse(&[0x4D, 0x4C, 6, 0, 0, 0]), Err(Error3ds::NotA3ds)));
    // A bare header parses to an empty scene.
    assert_eq!(parse(&[0x4D, 0x4D, 6, 0, 0, 0]).unwrap().meshes.len(), 0);
}

#[test]
fn chunk_walk() {
    let mut data = chunk(1, &[9, 9]);
    data.extend(chunk(2, &[]));
    data.extend_from_slice(&[3, 0, 2, 0, 0, 0]); // length under 6: walk stops
    data.extend(chunk(4, &[1]));
    let cs = walk_chunks(&data);
    assert_eq!(cs, vec![(1, 6, 8), (2, 14, 14)]);
    // A chunk that runs past the end is cut at the end.
    let long = [5u8, 0, 100, 0, 0, 0, 1, 2];
    assert_eq!(walk_chunks(&long), vec![(5, 6, 8)]);
    assert!(walk_chunks(&[1, 2, 3]).is_empty());
}

#[test]
fn short_lists_are_skipped() {
    // A point list announcing more points than it holds adds nothing.
    let mut points = 5u16.to_le_bytes().to_vec();
    points.extend_from_slice(&[0; 12]);
    let mut obj = b"X\0".to_vec();
    obj.extend(chunk(0x4100, &chunk(0x4110, &points)));
    let file = chunk(0x4D4D, &chunk(0x3D3D, &chunk(0x4000, &obj)));
    assert_eq!(parse(&file).unwrap().meshes.len(), 0);
}
