//! Reader for Autodesk 3D Studio binary files (.3ds).
//!
//! A file is a tree of chunks; each chunk is a little-endian `u16` id, a
//! little-endian `u32` length that counts its own 6-byte header, and a body.
//! The reader keeps the named triangle meshes (vertex positions, faces and
//! texture coordinates) and skips everything else. Vertex and texture
//! coordinates are kept as the raw bit patterns of the file's `f32` values.
use vstd::prelude::*;
use crate::text::{from_utf8_lossy, utf8_lossy};

verus! {

/// Why a byte string is not a 3DS scene.
#[derive(Debug, Clone, Copy, PartialEq, Eq, Structural)]
pub enum Error3ds {
    /// Fewer than 6 bytes: not even a chunk header.
    Truncated,
    /// The first chunk is not MAIN3DS (0x4D4D).
    NotA3ds,
}

/// Chunk id of the whole file.
pub const CHUNK_MAIN: u16 = 0x4D4D;
/// Chunk id of the 3D editor section.
pub const CHUNK_EDIT: u16 = 0x3D3D;
/// Chunk id of a named object.
pub const CHUNK_OBJECT: u16 = 0x4000;
/// Chunk id of a triangle mesh inside a named object.
pub const CHUNK_TRI_MESH: u16 = 0x4100;
/// Chunk id of a vertex list.
pub const CHUNK_POINTS: u16 = 0x4110;
/// Chunk id of a face list.
pub const CHUNK_FACES: u16 = 0x4120;
/// Chunk id of a texture-coordinate list.
pub const CHUNK_TEX_VERTS: u16 = 0x4140;

/// The little-endian `u16` at `i`.
pub open spec fn le16(d: Seq<u8>, i: int) -> u16 {
    (d[i] as int + d[i + 1] as int * 256) as u16
}

/// The little-endian `u32` at `i`.
pub open spec fn le32(d: Seq<u8>, i: int) -> u32 {
    (d[i] as int + d[i + 1] as int * 256 + d[i + 2] as int * 65536 + d[i + 3] as int
        * 16777216) as u32
}

/// The chunks of `d` from `pos` on, as (id, body start, body end): a chunk
/// whose length is under 6 ends the walk, and the last body is cut at the
/// end of `d`.
pub open spec fn chunks_at(d: Seq<u8>, pos: nat) -> Seq<(u16, int, int)>
    decreases d.len() - pos,
{
    if pos + 6 <= d.len() {
        let len = le32(d, pos as int + 2) as int;
        if len < 6 {
            Seq::empty()
        } else if pos + len >= d.len() {
            seq![(le16(d, pos as int), pos as int + 6, d.len() as int)]
        } else {
            seq![(le16(d, pos as int), pos as int + 6, pos + len)] + chunks_at(d, (pos + len) as nat)
        }
    } else {
        Seq::empty()
    }
}

/// The chunks of `d`.
pub open spec fn chunks(d: Seq<u8>) -> Seq<(u16, int, int)> {
    chunks_at(d, 0)
}

/// The body of chunk `c` of `d`.
pub open spec fn body(d: Seq<u8>, c: (u16, int, int)) -> Seq<u8> {
    d.subrange(c.1, c.2)
}

/// Every chunk body lies inside the data, after its own 6-byte header.
pub proof fn law_chunks_within_data(d: Seq<u8>, pos: nat)
    ensures
        forall|k: int|
            0 <= k < chunks_at(d, pos).len() ==> pos + 6 <= (#[trigger] chunks_at(d, pos)[k]).1
                <= chunks_at(d, pos)[k].2 <= d.len(),
    decreases d.len() - pos,
{
    if pos + 6 <= d.len() {
        let len = le32(d, pos as int + 2) as int;
        if len >= 6 && pos + len < d.len() {
            let rest = chunks_at(d, (pos + len) as nat);
            law_chunks_within_data(d, (pos + len) as nat);
            assert forall|k: int| 0 < k < chunks_at(d, pos).len() implies chunks_at(d, pos)[k]
                == rest[k - 1] by {}
        }
    }
}

fn read_le16(d: &[u8], i: usize) -> (v: u16)
    requires
        i + 2 <= d@.len(),
    ensures
        v == le16(d@, i as int),
{
    d[i] as u16 + d[i + 1] as u16 * 256
}

fn read_le32(d: &[u8], i: usize) -> (v: u32)
    requires
        i + 4 <= d@.len(),
    ensures
        v == le32(d@, i as int),
{
    d[i] as u32 + d[i + 1] as u32 * 256 + d[i + 2] as u32 * 65536 + d[i + 3] as u32 * 16777216
}

/// The top-level chunks of `data`, as (id, body start, body end); the
/// 6-byte header is not part of the body, and malformed chunks end the walk.
pub fn walk_chunks(data: &[u8]) -> (r: Vec<(u16, usize, usize)>)
    ensures
        r@.len() == chunks(data@).len(),
        forall|k: int|
            0 <= k < r@.len() ==> {
                let c = #[trigger] chunks(data@)[k];
                &&& r@[k].0 == c.0
                &&& r@[k].1 == c.1
                &&& r@[k].2 == c.2
            },
{
    let n = data.len();
    let mut out: Vec<(u16, usize, usize)> = Vec::new();
    let mut pos: usize = 0;
    while 6 <= n - pos
        invariant_except_break
            n == data@.len(),
            pos <= n,
            chunks(data@) == out@.map_values(|t: (u16, usize, usize)| (t.0, t.1 as int, t.2 as int))
                + chunks_at(data@, pos as nat),
        ensures
            chunks(data@) == out@.map_values(|t: (u16, usize, usize)| (t.0, t.1 as int, t.2 as int)),
        decreases n - pos,
    {
        let id = read_le16(data, pos);
        let len = read_le32(data, pos + 2) as usize;
        let ghost before = out@.map_values(|t: (u16, usize, usize)| (t.0, t.1 as int, t.2 as int));
        if len < 6 {
            assert(chunks_at(data@, pos as nat) =~= Seq::empty());
            assert(before + Seq::<(u16, int, int)>::empty() =~= before);
            break;
        }
        if len >= n - pos {
            out.push((id, pos + 6, n));
            proof {
                let after = out@.map_values(|t: (u16, usize, usize)| (t.0, t.1 as int, t.2 as int));
                assert(after =~= before.push((id, pos + 6, n as int)));
                assert(chunks_at(data@, pos as nat) =~= seq![(id, pos + 6, n as int)]);
                assert(before + seq![(id, pos + 6, n as int)] =~= before.push((id, pos + 6, n as int)));
            }
            break;
        }
        out.push((id, pos + 6, pos + len));
        proof {
            let after = out@.map_values(|t: (u16, usize, usize)| (t.0, t.1 as int, t.2 as int));
            assert(after =~= before.push((id, pos + 6, pos + len)));
            let rest = chunks_at(data@, (pos + len) as nat);
            assert(before + (seq![(id, pos + 6, (pos + len) as int)] + rest) =~= after + rest);
        }
        pos = pos + len;
    }
    proof {
        if 6 > n - pos {
            let before = out@.map_values(|t: (u16, usize, usize)| (t.0, t.1 as int, t.2 as int));
            assert(before + Seq::<(u16, int, int)>::empty() =~= before);
        }
    }
    out
}

/// A mesh as plain values: name, vertices, faces, texture coordinates.
pub type MeshView = (Seq<char>, Seq<(u32, u32, u32)>, Seq<(u16, u16, u16)>, Seq<(u32, u32)>);

/// A single named triangle mesh. Vertex and texture coordinates are the bit
/// patterns of the file's little-endian `f32` values (`f32::from_bits`).
pub struct Mesh3ds {
    pub name: String,
    pub vertices: Vec<(u32, u32, u32)>,
    pub faces: Vec<(u16, u16, u16)>,
    pub uvs: Vec<(u32, u32)>,
}

impl View for Mesh3ds {
    type V = MeshView;

    open spec fn view(&self) -> MeshView {
        (self.name@, self.vertices@, self.faces@, self.uvs@)
    }
}

/// A parsed .3ds scene: its named meshes in file order.
pub struct Scene3ds {
    pub meshes: Vec<Mesh3ds>,
}

impl View for Scene3ds {
    type V = Seq<MeshView>;

    open spec fn view(&self) -> Seq<MeshView> {
        self.meshes@.map_values(|m: Mesh3ds| m@)
    }
}

/// The number of records that a list chunk announces in its first two bytes.
pub open spec fn list_count(cd: Seq<u8>) -> int {
    le16(cd, 0) as int
}

/// Whether a list chunk holds the `count` records of `size` bytes it announces.
pub open spec fn list_fits(cd: Seq<u8>, size: int) -> bool {
    cd.len() >= 2 && cd.len() >= 2 + list_count(cd) * size
}

/// The vertices of a point-array chunk: three `f32` per vertex.
pub open spec fn points_of(cd: Seq<u8>) -> Seq<(u32, u32, u32)> {
    Seq::new(
        list_count(cd) as nat,
        |i: int| (le32(cd, 2 + 12 * i), le32(cd, 6 + 12 * i), le32(cd, 10 + 12 * i)),
    )
}

/// The faces of a face-array chunk: three `u16` vertex indices and a flag word.
pub open spec fn faces_of(cd: Seq<u8>) -> Seq<(u16, u16, u16)> {
    Seq::new(
        list_count(cd) as nat,
        |i: int| (le16(cd, 2 + 8 * i), le16(cd, 4 + 8 * i), le16(cd, 6 + 8 * i)),
    )
}

/// The texture coordinates of a tex-verts chunk: two `f32` per vertex.
pub open spec fn uvs_of(cd: Seq<u8>) -> Seq<(u32, u32)> {
    Seq::new(list_count(cd) as nat, |i: int| (le32(cd, 2 + 8 * i), le32(cd, 6 + 8 * i)))
}

/// What one sub-chunk of a triangle mesh adds to the mesh.
pub open spec fn tri_step(m: MeshView, id: u16, cd: Seq<u8>) -> MeshView {
    if id == CHUNK_POINTS && list_fits(cd, 12) {
        (m.0, m.1 + points_of(cd), m.2, m.3)
    } else if id == CHUNK_FACES && list_fits(cd, 8) {
        (m.0, m.1, m.2 + faces_of(cd), m.3)
    } else if id == CHUNK_TEX_VERTS && list_fits(cd, 8) {
        (m.0, m.1, m.2, m.3 + uvs_of(cd))
    } else {
        m
    }
}

/// The mesh after the first `k` sub-chunks of triangle-mesh body `d`.
pub open spec fn tri_fold(m: MeshView, d: Seq<u8>, k: int) -> MeshView
    decreases k,
{
    if k <= 0 {
        m
    } else {
        let c = chunks(d)[k - 1];
        tri_step(tri_fold(m, d, k - 1), c.0, body(d, c))
    }
}

/// The mesh after reading triangle-mesh body `d`.
pub open spec fn tri_mesh(m: MeshView, d: Seq<u8>) -> MeshView {
    tri_fold(m, d, chunks(d).len() as int)
}

/// The mesh after the first `k` sub-chunks of an object's body `d`.
pub open spec fn object_fold(m: MeshView, d: Seq<u8>, k: int) -> MeshView
    decreases k,
{
    if k <= 0 {
        m
    } else {
        let c = chunks(d)[k - 1];
        let prev = object_fold(m, d, k - 1);
        if c.0 == CHUNK_TRI_MESH {
            tri_mesh(prev, body(d, c))
        } else {
            prev
        }
    }
}

/// Whether `k` is the position of the first zero byte of `d`.
pub open spec fn is_name_end(d: Seq<u8>, k: int) -> bool {
    0 <= k < d.len() && d[k] == 0 && forall|j: int| 0 <= j < k ==> d[j] != 0
}

/// The mesh that a named-object body describes: a NUL-terminated name, then
/// sub-chunks; `None` where the name is not terminated.
pub open spec fn named_object(d: Seq<u8>) -> Option<MeshView> {
    if exists|k: int| is_name_end(d, k) {
        let k = choose|k: int| is_name_end(d, k);
        let rest = d.subrange(k + 1, d.len() as int);
        let start: MeshView = (utf8_lossy(d.subrange(0, k)), Seq::empty(), Seq::empty(), Seq::empty());
        Some(object_fold(start, rest, chunks(rest).len() as int))
    } else {
        None
    }
}

/// The meshes after the first `k` chunks of an editor body `d`: each object
/// with a terminated name and at least one vertex is kept.
pub open spec fn edit_fold(s: Seq<MeshView>, d: Seq<u8>, k: int) -> Seq<MeshView>
    decreases k,
{
    if k <= 0 {
        s
    } else {
        let c = chunks(d)[k - 1];
        let prev = edit_fold(s, d, k - 1);
        if c.0 == CHUNK_OBJECT {
            match named_object(body(d, c)) {
                Some(m) => if m.1.len() > 0 {
                    prev.push(m)
                } else {
                    prev
                },
                None => prev,
            }
        } else {
            prev
        }
    }
}

/// The meshes after the first `k` chunks of the main body `d`.
pub open spec fn main_fold(s: Seq<MeshView>, d: Seq<u8>, k: int) -> Seq<MeshView>
    decreases k,
{
    if k <= 0 {
        s
    } else {
        let c = chunks(d)[k - 1];
        let prev = main_fold(s, d, k - 1);
        if c.0 == CHUNK_EDIT {
            let e = body(d, c);
            edit_fold(prev, e, chunks(e).len() as int)
        } else {
            prev
        }
    }
}

/// Whether a file that starts with a MAIN3DS header announces a length too
/// short to hold that header.
pub open spec fn main_len_too_short(d: Seq<u8>) -> bool {
    d.len() >= 6 && le16(d, 0) == CHUNK_MAIN && le32(d, 2) < 6
}

/// Whether a file starts with a MAIN3DS header whose length is under 6 (a
/// file [`parse`] does not take).
pub fn announces_short_header(data: &[u8]) -> (b: bool)
    ensures
        b == main_len_too_short(data@),
{
    data.len() >= 6 && read_le16(data, 0) == CHUNK_MAIN && read_le32(data, 2) < 6
}

/// What a .3ds file holds: its meshes, or why it is not one.
pub open spec fn parse_spec(d: Seq<u8>) -> Result<Seq<MeshView>, Error3ds> {
    if d.len() < 6 {
        Err(Error3ds::Truncated)
    } else if le16(d, 0) != CHUNK_MAIN {
        Err(Error3ds::NotA3ds)
    } else {
        let end = if (le32(d, 2) as int) < d.len() {
            le32(d, 2) as int
        } else {
            d.len() as int
        };
        let main = d.subrange(6, end);
        Ok(main_fold(Seq::empty(), main, chunks(main).len() as int))
    }
}

fn parse_point_array(data: &[u8], mesh: &mut Mesh3ds)
    ensures
        final(mesh)@ == tri_step(old(mesh)@, CHUNK_POINTS, data@),
{
    if data.len() < 2 {
        return;
    }
    let count = read_le16(data, 0) as usize;
    if data.len() < 2 + count * 12 {
        return;
    }
    let ghost v0 = mesh.vertices@;
    let mut i: usize = 0;
    while i < count
        invariant
            count == list_count(data@),
            data@.len() >= 2 + count * 12,
            i <= count,
            mesh.vertices@ == v0 + points_of(data@).take(i as int),
            mesh.name@ == old(mesh).name@,
            mesh.faces@ == old(mesh).faces@,
            mesh.uvs@ == old(mesh).uvs@,
            v0 == old(mesh).vertices@,
        decreases count - i,
    {
        let o = 2 + i * 12;
        let x = read_le32(data, o);
        let y = read_le32(data, o + 4);
        let z = read_le32(data, o + 8);
        mesh.vertices.push((x, y, z));
        assert(points_of(data@).take(i + 1) =~= points_of(data@).take(i as int).push((x, y, z)));
        i = i + 1;
    }
    assert(points_of(data@).take(count as int) =~= points_of(data@));
}

fn parse_face_array(data: &[u8], mesh: &mut Mesh3ds)
    ensures
        final(mesh)@ == tri_step(old(mesh)@, CHUNK_FACES, data@),
{
    if data.len() < 2 {
        return;
    }
    let count = read_le16(data, 0) as usize;
    if data.len() < 2 + count * 8 {
        return;
    }
    let ghost f0 = mesh.faces@;
    let mut i: usize = 0;
    while i < count
        invariant
            count == list_count(data@),
            data@.len() >= 2 + count * 8,
            i <= count,
            mesh.faces@ == f0 + faces_of(data@).take(i as int),
            mesh.name@ == old(mesh).name@,
            mesh.vertices@ == old(mesh).vertices@,
            mesh.uvs@ == old(mesh).uvs@,
            f0 == old(mesh).faces@,
        decreases count - i,
    {
        let o = 2 + i * 8;
        let a = read_le16(data, o);
        let b = read_le16(data, o + 2);
        let c = read_le16(data, o + 4);
        mesh.faces.push((a, b, c));
        assert(faces_of(data@).take(i + 1) =~= faces_of(data@).take(i as int).push((a, b, c)));
        i = i + 1;
    }
    assert(faces_of(data@).take(count as int) =~= faces_of(data@));
}

fn parse_tex_verts(data: &[u8], mesh: &mut Mesh3ds)
    ensures
        final(mesh)@ == tri_step(old(mesh)@, CHUNK_TEX_VERTS, data@),
{
    if data.len() < 2 {
        return;
    }
    let count = read_le16(data, 0) as usize;
    if data.len() < 2 + count * 8 {
        return;
    }
    let ghost u0 = mesh.uvs@;
    let mut i: usize = 0;
    while i < count
        invariant
            count == list_count(data@),
            data@.len() >= 2 + count * 8,
            i <= count,
            mesh.uvs@ == u0 + uvs_of(data@).take(i as int),
            mesh.name@ == old(mesh).name@,
            mesh.vertices@ == old(mesh).vertices@,
            mesh.faces@ == old(mesh).faces@,
            u0 == old(mesh).uvs@,
        decreases count - i,
    {
        let o = 2 + i * 8;
        let u = read_le32(data, o);
        let v = read_le32(data, o + 4);
        mesh.uvs.push((u, v));
        assert(uvs_of(data@).take(i + 1) =~= uvs_of(data@).take(i as int).push((u, v)));
        i = i + 1;
    }
    assert(uvs_of(data@).take(count as int) =~= uvs_of(data@));
}

fn parse_tri_mesh(data: &[u8], mesh: &mut Mesh3ds)
    ensures
        final(mesh)@ == tri_mesh(old(mesh)@, data@),
{
    let cs = walk_chunks(data);
    proof {
        law_chunks_within_data(data@, 0);
    }
    let mut i: usize = 0;
    while i < cs.len()
        invariant
            cs@.len() == chunks(data@).len(),
            forall|k: int|
                0 <= k < cs@.len() ==> {
                    let c = #[trigger] chunks(data@)[k];
                    &&& cs@[k].0 == c.0
                    &&& cs@[k].1 == c.1
                    &&& cs@[k].2 == c.2
                },
            forall|k: int|
                0 <= k < chunks(data@).len() ==> 6 <= (#[trigger] chunks(data@)[k]).1
                    <= chunks(data@)[k].2 <= data@.len(),
            i <= cs@.len(),
            mesh@ == tri_fold(old(mesh)@, data@, i as int),
        decreases cs@.len() - i,
    {
        let (id, s, e) = cs[i];
        let ghost c = chunks(data@)[i as int];
        let cd = &data[s..e];
        assert(cd@ == body(data@, c));
        if id == CHUNK_POINTS {
            parse_point_array(cd, mesh);
        } else if id == CHUNK_FACES {
            parse_face_array(cd, mesh);
        } else if id == CHUNK_TEX_VERTS {
            parse_tex_verts(cd, mesh);
        }
        i = i + 1;
    }
}

fn parse_named_object(data: &[u8]) -> (r: Option<Mesh3ds>)
    ensures
        match r {
            Some(m) => named_object(data@) == Some(m@),
            None => named_object(data@) is None,
        },
{
    let n = data.len();
    let mut k: usize = 0;
    while k < n && data[k] != 0
        invariant
            n == data@.len(),
            k <= n,
            forall|j: int| 0 <= j < k ==> data@[j] != 0,
        decreases n - k,
    {
        k = k + 1;
    }
    if k == n {
        assert(!exists|j: int| is_name_end(data@, j));
        return None;
    }
    proof {
        assert(is_name_end(data@, k as int));
        let w = choose|j: int| is_name_end(data@, j);
        assert(w == k) by {
            if w < k {
                assert(data@[w] != 0);
            }
            if k < w {
                assert(data@[k as int] != 0);
            }
        }
    }
    let name = from_utf8_lossy(&data[0..k]);
    let rest = &data[k + 1..n];
    let mut mesh = Mesh3ds { name, vertices: Vec::new(), faces: Vec::new(), uvs: Vec::new() };
    let ghost m0 = mesh@;
    let cs = walk_chunks(rest);
    proof {
        law_chunks_within_data(rest@, 0);
    }
    let mut i: usize = 0;
    while i < cs.len()
        invariant
            cs@.len() == chunks(rest@).len(),
            forall|j: int|
                0 <= j < cs@.len() ==> {
                    let c = #[trigger] chunks(rest@)[j];
                    &&& cs@[j].0 == c.0
                    &&& cs@[j].1 == c.1
                    &&& cs@[j].2 == c.2
                },
            forall|j: int|
                0 <= j < chunks(rest@).len() ==> 6 <= (#[trigger] chunks(rest@)[j]).1
                    <= chunks(rest@)[j].2 <= rest@.len(),
            i <= cs@.len(),
            mesh@ == object_fold(m0, rest@, i as int),
        decreases cs@.len() - i,
    {
        let (id, s, e) = cs[i];
        let ghost c = chunks(rest@)[i as int];
        if id == CHUNK_TRI_MESH {
            let cd = &rest[s..e];
            assert(cd@ == body(rest@, c));
            parse_tri_mesh(cd, &mut mesh);
        }
        i = i + 1;
    }
    Some(mesh)
}

fn parse_edit3ds(data: &[u8], scene: &mut Scene3ds)
    ensures
        final(scene)@ == edit_fold(old(scene)@, data@, chunks(data@).len() as int),
{
    let cs = walk_chunks(data);
    proof {
        law_chunks_within_data(data@, 0);
    }
    let ghost s0 = scene@;
    let mut i: usize = 0;
    while i < cs.len()
        invariant
            cs@.len() == chunks(data@).len(),
            forall|j: int|
                0 <= j < cs@.len() ==> {
                    let c = #[trigger] chunks(data@)[j];
                    &&& cs@[j].0 == c.0
                    &&& cs@[j].1 == c.1
                    &&& cs@[j].2 == c.2
                },
            forall|j: int|
                0 <= j < chunks(data@).len() ==> 6 <= (#[trigger] chunks(data@)[j]).1
                    <= chunks(data@)[j].2 <= data@.len(),
            i <= cs@.len(),
            s0 == old(scene)@,
            scene@ == edit_fold(s0, data@, i as int),
        decreases cs@.len() - i,
    {
        let (id, s, e) = cs[i];
        let ghost c = chunks(data@)[i as int];
        if id == CHUNK_OBJECT {
            let cd = &data[s..e];
            assert(cd@ == body(data@, c));
            match parse_named_object(cd) {
                Some(mesh) => {
                    if mesh.vertices.len() > 0 {
                        let ghost mv = mesh@;
                        let ghost before = scene.meshes@;
                        scene.meshes.push(mesh);
                        assert(scene.meshes@.map_values(|m: Mesh3ds| m@) =~= before.map_values(
                            |m: Mesh3ds| m@,
                        ).push(mv));
                    }
                },
                None => {},
            }
        }
        i = i + 1;
    }
}

fn parse_main(data: &[u8], scene: &mut Scene3ds)
    ensures
        final(scene)@ == main_fold(old(scene)@, data@, chunks(data@).len() as int),
{
    let cs = walk_chunks(data);
    proof {
        law_chunks_within_data(data@, 0);
    }
    let ghost s0 = scene@;
    let mut i: usize = 0;
    while i < cs.len()
        invariant
            cs@.len() == chunks(data@).len(),
            forall|j: int|
                0 <= j < cs@.len() ==> {
                    let c = #[trigger] chunks(data@)[j];
                    &&& cs@[j].0 == c.0
                    &&& cs@[j].1 == c.1
                    &&& cs@[j].2 == c.2
                },
            forall|j: int|
                0 <= j < chunks(data@).len() ==> 6 <= (#[trigger] chunks(data@)[j]).1
                    <= chunks(data@)[j].2 <= data@.len(),
            i <= cs@.len(),
            s0 == old(scene)@,
            scene@ == main_fold(s0, data@, i as int),
        decreases cs@.len() - i,
    {
        let (id, s, e) = cs[i];
        let ghost c = chunks(data@)[i as int];
        if id == CHUNK_EDIT {
            let cd = &data[s..e];
            assert(cd@ == body(data@, c));
            parse_edit3ds(cd, scene);
        }
        i = i + 1;
    }
}

/// Reads the named triangle meshes of a .3ds file.
///
/// A file whose MAIN3DS header announces a length under 6 is not accepted
/// (the header could not hold itself).
pub fn parse(data: &[u8]) -> (r: Result<Scene3ds, Error3ds>)
    requires
        !main_len_too_short(data@),
    ensures
        match r {
            Ok(s) => parse_spec(data@) == Ok::<Seq<MeshView>, Error3ds>(s@),
            Err(e) => parse_spec(data@) == Err::<Seq<MeshView>, Error3ds>(e),
        },
{
    if data.len() < 6 {
        return Err(Error3ds::Truncated);
    }
    let id = read_le16(data, 0);
    if id != CHUNK_MAIN {
        return Err(Error3ds::NotA3ds);
    }
    let len = read_le32(data, 2) as usize;
    let end = if len < data.len() {
        len
    } else {
        data.len()
    };
    let mut scene = Scene3ds { meshes: Vec::new() };
    assert(scene@ =~= Seq::<MeshView>::empty());
    parse_main(&data[6..end], &mut scene);
    Ok(scene)
}

/// Corner `k` (0–2) of a face.
pub open spec fn corner(f: (u16, u16, u16), k: int) -> u16 {
    if k == 0 { f.0 } else if k == 1 { f.1 } else { f.2 }
}

/// The vertex at index `i`, or the origin where there is none.
pub open spec fn vertex_or_origin(vs: Seq<(u32, u32, u32)>, i: int) -> (u32, u32, u32) {
    if 0 <= i < vs.len() { vs[i] } else { (0, 0, 0) }
}

/// The texture coordinate of vertex `i`: taken only where the mesh has one
/// per vertex, else (0, 0).
pub open spec fn uv_or_origin(m: MeshView, i: int) -> (u32, u32) {
    if m.3.len() == m.1.len() && 0 <= i < m.3.len() { m.3[i] } else { (0, 0) }
}

/// Unrolls a mesh for rendering: three positions and texture coordinates
/// per face (one per corner) and the indices 0, 1, 2, … over them. A face
/// corner that names no vertex gets the origin. (Flat normals are computed
/// from the positions by the renderer.)
pub fn face_buffers(mesh: &Mesh3ds) -> (r: (Vec<(u32, u32, u32)>, Vec<(u32, u32)>, Vec<u32>))
    requires
        mesh.faces@.len() * 3 <= u32::MAX,
    ensures
        r.0@.len() == 3 * mesh.faces@.len(),
        r.1@.len() == 3 * mesh.faces@.len(),
        r.2@.len() == 3 * mesh.faces@.len(),
        forall|i: int, k: int|
            0 <= i < mesh.faces@.len() && 0 <= k < 3 ==> {
                &&& r.0@[3 * i + k] == vertex_or_origin(mesh.vertices@, #[trigger] corner(mesh.faces@[i], k) as int)
                &&& r.1@[3 * i + k] == uv_or_origin(mesh@, corner(mesh.faces@[i], k) as int)
            },
        forall|j: int| 0 <= j < r.2@.len() ==> #[trigger] r.2@[j] == j,
{
    let has_uvs = mesh.uvs.len() == mesh.vertices.len();
    let mut positions: Vec<(u32, u32, u32)> = Vec::new();
    let mut uvs: Vec<(u32, u32)> = Vec::new();
    let mut indices: Vec<u32> = Vec::new();
    let mut i: usize = 0;
    while i < mesh.faces.len()
        invariant
            mesh.faces@.len() * 3 <= u32::MAX,
            has_uvs == (mesh.uvs@.len() == mesh.vertices@.len()),
            i <= mesh.faces@.len(),
            positions@.len() == 3 * i,
            uvs@.len() == 3 * i,
            indices@.len() == 3 * i,
            forall|a: int, k: int|
                0 <= a < i && 0 <= k < 3 ==> {
                    &&& positions@[3 * a + k] == vertex_or_origin(mesh.vertices@, #[trigger] corner(mesh.faces@[a], k) as int)
                    &&& uvs@[3 * a + k] == uv_or_origin(mesh@, corner(mesh.faces@[a], k) as int)
                },
            forall|j: int| 0 <= j < indices@.len() ==> #[trigger] indices@[j] == j,
        decreases mesh.faces@.len() - i,
    {
        let face = mesh.faces[i];
        let base = positions.len() as u32;
        let mut k: usize = 0;
        while k < 3
            invariant
                mesh.faces@.len() * 3 <= u32::MAX,
                has_uvs == (mesh.uvs@.len() == mesh.vertices@.len()),
                i < mesh.faces@.len(),
                face == mesh.faces@[i as int],
                k <= 3,
                base == 3 * i,
                positions@.len() == 3 * i + k,
                uvs@.len() == 3 * i + k,
                indices@.len() == 3 * i,
                forall|a: int, kk: int|
                    0 <= a < i && 0 <= kk < 3 ==> {
                        &&& positions@[3 * a + kk] == vertex_or_origin(mesh.vertices@, #[trigger] corner(mesh.faces@[a], kk) as int)
                        &&& uvs@[3 * a + kk] == uv_or_origin(mesh@, corner(mesh.faces@[a], kk) as int)
                    },
                forall|kk: int|
                    0 <= kk < k ==> {
                        &&& positions@[3 * i + kk] == vertex_or_origin(mesh.vertices@, corner(face, kk) as int)
                        &&& uvs@[3 * i + kk] == uv_or_origin(mesh@, corner(face, kk) as int)
                    },
                forall|j: int| 0 <= j < indices@.len() ==> #[trigger] indices@[j] == j,
            decreases 3 - k,
        {
            let vi = if k == 0 {
                face.0
            } else if k == 1 {
                face.1
            } else {
                face.2
            } as usize;
            let vp = if vi < mesh.vertices.len() {
                mesh.vertices[vi]
            } else {
                (0, 0, 0)
            };
            let uv = if has_uvs && vi < mesh.uvs.len() {
                mesh.uvs[vi]
            } else {
                (0, 0)
            };
            positions.push(vp);
            uvs.push(uv);
            k = k + 1;
        }
        indices.push(base);
        indices.push(base + 1);
        indices.push(base + 2);
        i = i + 1;
    }
    (positions, uvs, indices)
}


/// A face list (chunk 0x4120) that holds the records it announces adds one
/// face per record, in order: face `i` is the three little-endian `u16` at
/// bytes `2 + 8i`, `4 + 8i` and `6 + 8i` of the chunk body (each record is
/// 8 bytes: three indices and a flag word, which is skipped). Nothing else
/// of the mesh changes; a list that does not fit adds nothing.
pub proof fn law_face_records(m: MeshView, cd: Seq<u8>)
    ensures
        ({
            let n = cd[0] as int + cd[1] as int * 256;
            let r = tri_step(m, 0x4120u16, cd);
            if cd.len() >= 2 && cd.len() >= 2 + 8 * n {
                &&& r.0 == m.0 && r.1 == m.1 && r.3 == m.3
                &&& r.2.len() == m.2.len() + n
                &&& forall|i: int| 0 <= i < m.2.len() ==> r.2[i] == m.2[i]
                &&& forall|i: int|
                    0 <= i < n ==> {
                        &&& (#[trigger] r.2[m.2.len() + i]).0 as int == cd[2 + 8 * i] as int + cd[3 + 8 * i] as int * 256
                        &&& r.2[m.2.len() + i].1 as int == cd[4 + 8 * i] as int + cd[5 + 8 * i] as int * 256
                        &&& r.2[m.2.len() + i].2 as int == cd[6 + 8 * i] as int + cd[7 + 8 * i] as int * 256
                    }
            } else {
                r == m
            }
        }),
{
    let n = cd[0] as int + cd[1] as int * 256;
    if cd.len() >= 2 && cd.len() >= 2 + 8 * n {
        assert(list_count(cd) == n);
        let r = tri_step(m, 0x4120u16, cd);
        assert forall|i: int| 0 <= i < n implies {
            &&& (#[trigger] r.2[m.2.len() + i]).0 as int == cd[2 + 8 * i] as int + cd[3 + 8 * i] as int * 256
            &&& r.2[m.2.len() + i].1 as int == cd[4 + 8 * i] as int + cd[5 + 8 * i] as int * 256
            &&& r.2[m.2.len() + i].2 as int == cd[6 + 8 * i] as int + cd[7 + 8 * i] as int * 256
        } by {
            assert(r.2[m.2.len() + i] == faces_of(cd)[i]);
        }
    }
}

/// A point list (chunk 0x4110) that holds the records it announces adds
/// one vertex per 12-byte record, in order: vertex `i` is the three
/// little-endian 32-bit words at bytes `2 + 12i`, `6 + 12i` and `10 + 12i`.
/// Nothing else of the mesh changes; a list that does not fit adds nothing.
pub proof fn law_point_records(m: MeshView, cd: Seq<u8>)
    ensures
        ({
            let n = cd[0] as int + cd[1] as int * 256;
            let r = tri_step(m, 0x4110u16, cd);
            if cd.len() >= 2 && cd.len() >= 2 + 12 * n {
                &&& r.0 == m.0 && r.2 == m.2 && r.3 == m.3
                &&& r.1.len() == m.1.len() + n
                &&& forall|i: int| 0 <= i < m.1.len() ==> r.1[i] == m.1[i]
                &&& forall|i: int|
                    0 <= i < n ==> {
                        &&& (#[trigger] r.1[m.1.len() + i]).0 as int == cd[2 + 12 * i] as int + cd[3 + 12 * i] as int * 256
                            + cd[4 + 12 * i] as int * 65536 + cd[5 + 12 * i] as int * 16777216
                        &&& r.1[m.1.len() + i].1 as int == cd[6 + 12 * i] as int + cd[7 + 12 * i] as int * 256
                            + cd[8 + 12 * i] as int * 65536 + cd[9 + 12 * i] as int * 16777216
                        &&& r.1[m.1.len() + i].2 as int == cd[10 + 12 * i] as int + cd[11 + 12 * i] as int * 256
                            + cd[12 + 12 * i] as int * 65536 + cd[13 + 12 * i] as int * 16777216
                    }
            } else {
                r == m
            }
        }),
{
    let n = cd[0] as int + cd[1] as int * 256;
    if cd.len() >= 2 && cd.len() >= 2 + 12 * n {
        assert(list_count(cd) == n);
        let r = tri_step(m, 0x4110u16, cd);
        assert forall|i: int| 0 <= i < n implies {
            &&& (#[trigger] r.1[m.1.len() + i]).0 as int == cd[2 + 12 * i] as int + cd[3 + 12 * i] as int * 256
                + cd[4 + 12 * i] as int * 65536 + cd[5 + 12 * i] as int * 16777216
            &&& r.1[m.1.len() + i].1 as int == cd[6 + 12 * i] as int + cd[7 + 12 * i] as int * 256
                + cd[8 + 12 * i] as int * 65536 + cd[9 + 12 * i] as int * 16777216
            &&& r.1[m.1.len() + i].2 as int == cd[10 + 12 * i] as int + cd[11 + 12 * i] as int * 256
                + cd[12 + 12 * i] as int * 65536 + cd[13 + 12 * i] as int * 16777216
        } by {
            assert(r.1[m.1.len() + i] == points_of(cd)[i]);
        }
    }
}

/// A texture-coordinate list (chunk 0x4140) that holds the records it
/// announces adds one coordinate pair per 8-byte record, in order: pair `i`
/// is the two little-endian 32-bit words at bytes `2 + 8i` and `6 + 8i`.
/// Nothing else of the mesh changes; a list that does not fit adds nothing.
pub proof fn law_uv_records(m: MeshView, cd: Seq<u8>)
    ensures
        ({
            let n = cd[0] as int + cd[1] as int * 256;
            let r = tri_step(m, 0x4140u16, cd);
            if cd.len() >= 2 && cd.len() >= 2 + 8 * n {
                &&& r.0 == m.0 && r.1 == m.1 && r.2 == m.2
                &&& r.3.len() == m.3.len() + n
                &&& forall|i: int| 0 <= i < m.3.len() ==> r.3[i] == m.3[i]
                &&& forall|i: int|
                    0 <= i < n ==> {
                        &&& (#[trigger] r.3[m.3.len() + i]).0 as int == cd[2 + 8 * i] as int + cd[3 + 8 * i] as int * 256
                            + cd[4 + 8 * i] as int * 65536 + cd[5 + 8 * i] as int * 16777216
                        &&& r.3[m.3.len() + i].1 as int == cd[6 + 8 * i] as int + cd[7 + 8 * i] as int * 256
                            + cd[8 + 8 * i] as int * 65536 + cd[9 + 8 * i] as int * 16777216
                    }
            } else {
                r == m
            }
        }),
{
    let n = cd[0] as int + cd[1] as int * 256;
    if cd.len() >= 2 && cd.len() >= 2 + 8 * n {
        assert(list_count(cd) == n);
        let r = tri_step(m, 0x4140u16, cd);
        assert forall|i: int| 0 <= i < n implies {
            &&& (#[trigger] r.3[m.3.len() + i]).0 as int == cd[2 + 8 * i] as int + cd[3 + 8 * i] as int * 256
                + cd[4 + 8 * i] as int * 65536 + cd[5 + 8 * i] as int * 16777216
            &&& r.3[m.3.len() + i].1 as int == cd[6 + 8 * i] as int + cd[7 + 8 * i] as int * 256
                + cd[8 + 8 * i] as int * 65536 + cd[9 + 8 * i] as int * 16777216
        } by {
            assert(r.3[m.3.len() + i] == uvs_of(cd)[i]);
        }
    }
}

/// A chunk starts with its id (little-endian `u16`) and its length
/// (little-endian `u32`, header included); its body follows the 6-byte
/// header, and the next chunk starts `length` bytes after the chunk's
/// start. A length under 6 ends the walk.
pub proof fn law_chunk_header(d: Seq<u8>)
    requires
        d.len() >= 6,
    ensures
        ({
            let len = d[2] as int + d[3] as int * 256 + d[4] as int * 65536 + d[5] as int * 16777216;
            &&& len < 6 ==> chunks(d).len() == 0
            &&& len >= 6 ==> chunks(d).len() >= 1 && chunks(d)[0].0 as int == d[0] as int + d[1] as int * 256
                && chunks(d)[0].1 == 6 && chunks(d)[0].2 == (if len < d.len() { len } else { d.len() as int })
            &&& 6 <= len < d.len() ==> chunks(d).drop_first() == chunks_at(d, len as nat)
        }),
{
    let len = d[2] as int + d[3] as int * 256 + d[4] as int * 65536 + d[5] as int * 16777216;
    assert(le32(d, 2) as int == len);
    if 6 <= len < d.len() {
        assert(chunks(d).drop_first() =~= chunks_at(d, len as nat));
    }
}

/// A file shorter than a chunk header is truncated; one whose first chunk
/// id (little-endian) is not 0x4D4D is not a .3ds file; otherwise its
/// meshes come from the main chunk's body, which ends where its length
/// says or at the end of the file.
pub proof fn law_parse_header(d: Seq<u8>)
    ensures
        d.len() < 6 <==> parse_spec(d) == Err::<Seq<MeshView>, Error3ds>(Error3ds::Truncated),
        d.len() >= 6 && d[0] as int + d[1] as int * 256 != 0x4D4D <==> parse_spec(d) == Err::<Seq<MeshView>, Error3ds>(
            Error3ds::NotA3ds,
        ),
        d.len() >= 6 && d[0] as int + d[1] as int * 256 == 0x4D4D ==> ({
            let len = d[2] as int + d[3] as int * 256 + d[4] as int * 65536 + d[5] as int * 16777216;
            let main = d.subrange(6, if len < d.len() { len } else { d.len() as int });
            parse_spec(d) == Ok::<Seq<MeshView>, Error3ds>(main_fold(Seq::empty(), main, chunks(main).len() as int))
        }),
{
    if d.len() >= 6 {
        assert(le16(d, 0) as int == d[0] as int + d[1] as int * 256);
        assert(le32(d, 2) as int == d[2] as int + d[3] as int * 256 + d[4] as int * 65536 + d[5] as int * 16777216);
    }
}

/// Every object kept as a mesh is named by the bytes of its body before the
/// first zero byte, and starts from no vertices, faces or coordinates
/// before its sub-chunks are read.
pub proof fn law_object_name(d: Seq<u8>, k: int)
    requires
        0 <= k < d.len(),
        d[k] == 0,
        forall|j: int| 0 <= j < k ==> d[j] != 0,
    ensures
        named_object(d) == Some(
            object_fold(
                (utf8_lossy(d.subrange(0, k)), Seq::<(u32, u32, u32)>::empty(), Seq::<(u16, u16, u16)>::empty(), Seq::<(u32, u32)>::empty()),
                d.subrange(k + 1, d.len() as int),
                chunks(d.subrange(k + 1, d.len() as int)).len() as int,
            ),
        ),
{
    assert(is_name_end(d, k));
    let kk = choose|kk: int| is_name_end(d, kk);
    assert(kk == k) by {
        if kk < k {
            assert(d[kk] != 0);
        } else if kk > k {
            assert(d[k] != 0);
        }
    }
}

} // verus!
