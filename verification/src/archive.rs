//! The ZIP containers of GDTF and MVR files: which entries a fixture type
//! or a scene takes from its archive. The archive itself is read by the
//! `zip` crate.
use vstd::prelude::*;
use crate::mvr::{parse_scene_xml, scene_of_text, MvrFixture, SceneError};
use crate::text::{split_char, split_on, str_eq};
use vstd::string::StringSliceAdditionalSpecFns;

verus! {

#[verifier::external_type_specification]
#[verifier::external_body]
pub struct ExZipError(zip::result::ZipError);

/// The names of the entries of ZIP archive `data`, in archive order, as
/// `zip` reads them (`None` where it does not read `data` as an archive).
pub uninterp spec fn zip_listing(data: Seq<u8>) -> Option<Seq<Seq<char>>>;

/// The content of entry `name` of ZIP archive `data` (`None` where the
/// archive, the entry or its content cannot be read).
pub uninterp spec fn zip_file(data: Seq<u8>, name: Seq<char>) -> Option<Seq<u8>>;

/// The names of the entries of a ZIP archive.
///
/// Trusted: opens the archive with `zip::ZipArchive::new` and collects the
/// `name()` of each entry that `by_index` yields. The result is named
/// [`zip_listing`]: it depends on the bytes alone.
#[verifier::external_body]
fn zip_entry_names(data: &[u8]) -> (r: Result<Vec<String>, zip::result::ZipError>)
    ensures
        match r {
            Ok(v) => zip_listing(data@) == Some(v@.map_values(|s: String| s@)),
            Err(_) => zip_listing(data@) is None,
        },
{
    let mut a = zip::ZipArchive::new(std::io::Cursor::new(data))?;
    Ok((0..a.len()).filter_map(|i| a.by_index(i).ok().map(|f| f.name().to_string())).collect())
}

/// The content of one entry of a ZIP archive.
///
/// Trusted: opens the archive with `zip::ZipArchive::new`, finds the entry
/// with `by_name` and reads it to the end. The result is named
/// [`zip_file`]: it depends on the bytes and the name alone.
#[verifier::external_body]
fn zip_read(data: &[u8], name: &str) -> (r: Result<Vec<u8>, zip::result::ZipError>)
    ensures
        match r {
            Ok(v) => zip_file(data@, name@) == Some(v@),
            Err(_) => zip_file(data@, name@) is None,
        },
{
    let mut a = zip::ZipArchive::new(std::io::Cursor::new(data))?;
    let mut f = a.by_name(name)?;
    let mut v = Vec::new();
    std::io::Read::read_to_end(&mut f, &mut v)?;
    Ok(v)
}

/// A ZIP archive being written into memory. Verus refuses a declaration of
/// `zip::ZipWriter` (its bounds name `std::io` traits), so the writer is held
/// here and described by [`zip_written`].
#[verifier::external_body]
pub struct MemZipWriter {
    inner: zip::ZipWriter<std::io::Cursor<Vec<u8>>>,
}

/// The entries a ZIP writer over memory has been given so far: the name and
/// the content of each, in the order they were started.
pub uninterp spec fn zip_written(w: MemZipWriter) -> Seq<(Seq<char>, Seq<u8>)>;

/// Whether every call on the writer so far has succeeded, so that
/// [`zip_written`] describes it and the last entry started is still open.
pub uninterp spec fn zip_intact(w: MemZipWriter) -> bool;

/// The bytes that the local headers and the contents of `entries` take in
/// an archive written with the default options: a 30-byte header, the name
/// in UTF-8 and the content, for each entry.
pub open spec fn zip_local_size(entries: Seq<(Seq<char>, Seq<u8>)>) -> int
    decreases entries.len(),
{
    if entries.len() == 0 {
        0
    } else {
        zip_local_size(entries.drop_last()) + 30 + vstd::utf8::encode_utf8(entries.last().0).len()
            + entries.last().1.len()
    }
}

/// The size below which a ZIP archive needs no ZIP64 records.
pub open spec fn zip32_limit() -> int {
    u32::MAX as int
}

/// A ZIP writer over an empty buffer.
///
/// Trusted: `zip::ZipWriter::new` on an empty `std::io::Cursor`; the new
/// writer holds no entry.
#[verifier::external_body]
pub(crate) fn zip_writer_new() -> (w: MemZipWriter)
    ensures
        zip_intact(w),
        zip_written(w) == Seq::<(Seq<char>, Seq<u8>)>::empty(),
{
    MemZipWriter { inner: zip::ZipWriter::new(std::io::Cursor::new(Vec::new())) }
}

/// Starts an uncompressed entry named `name`.
///
/// Trusted: `ZipWriter::start_file` with the default options and the
/// `Stored` method. Its source panics on a name of more than `u16::MAX`
/// bytes and refuses a name that the writer already holds. On an intact
/// writer whose entries, with the new header and name, stay below the
/// ZIP64 threshold, every other step (closing the previous entry, writing
/// the header into memory) succeeds; the writer then holds one more entry,
/// `name`, still empty and open. The writer after a failure is not
/// described, nor when the archive grows past the threshold.
#[verifier::external_body]
pub(crate) fn zip_start_stored(w: &mut MemZipWriter, name: &str) -> (r: Result<(), zip::result::ZipError>)
    requires
        vstd::utf8::encode_utf8(name@).len() <= u16::MAX,
    ensures
        (exists|i: int| 0 <= i < zip_written(*old(w)).len() && (#[trigger] zip_written(*old(w))[i]).0 == name@) ==> r is Err,
        zip_intact(*old(w)) && !(exists|i: int|
            0 <= i < zip_written(*old(w)).len() && (#[trigger] zip_written(*old(w))[i]).0 == name@)
            && zip_local_size(zip_written(*old(w))) + 30 + vstd::utf8::encode_utf8(name@).len() < zip32_limit()
            ==> r is Ok,
        r is Ok && zip_intact(*old(w)) ==> zip_intact(*final(w)) && zip_written(*final(w)) == zip_written(
            *old(w),
        ).push((name@, Seq::<u8>::empty())),
{
    let options = zip::write::SimpleFileOptions::default().compression_method(zip::CompressionMethod::Stored);
    w.inner.start_file(name, options)
}

/// Appends `bytes` to the entry being written.
///
/// Trusted: `std::io::Write::write_all` on the writer, which the source
/// lets write only while an entry is open and refuses once that entry
/// passes `u32::MAX` bytes (no large-file option is set); writing into
/// memory fails in no other way. On an intact writer with an open entry
/// that stays below the ZIP64 threshold it succeeds, and `bytes` then end
/// the last entry; with no bytes nothing changes. The writer after a
/// failure is not described.
#[verifier::external_body]
pub(crate) fn zip_write(w: &mut MemZipWriter, bytes: &[u8]) -> (r: Result<(), std::io::Error>)
    ensures
        zip_intact(*old(w)) && zip_written(*old(w)).len() > 0 && zip_local_size(zip_written(*old(w)))
            + bytes@.len() < zip32_limit() ==> r is Ok,
        r is Ok && zip_intact(*old(w)) && bytes@.len() > 0 ==> zip_written(*old(w)).len() > 0,
        r is Ok && zip_intact(*old(w)) ==> zip_intact(*final(w)) && zip_written(*final(w)) == (if bytes@.len() == 0 {
            zip_written(*old(w))
        } else {
            zip_written(*old(w)).update(
                zip_written(*old(w)).len() - 1,
                (zip_written(*old(w)).last().0, zip_written(*old(w)).last().1 + bytes@),
            )
        }),
{
    std::io::Write::write_all(&mut w.inner, bytes)
}

/// Finishes the archive and hands back its bytes.
///
/// Trusted: `ZipWriter::finish`, then the buffer of the cursor. On an
/// intact writer below the ZIP64 threshold, closing the last entry and
/// writing the central directory into memory succeed. What it returns is
/// an archive that `zip` reads back as the entries written, in order, each
/// with its content: [`zip_listing`] and [`zip_file`] of the bytes give
/// them. How the bytes are laid out is not described.
#[verifier::external_body]
pub(crate) fn zip_finish(w: MemZipWriter) -> (r: Result<Vec<u8>, zip::result::ZipError>)
    ensures
        zip_intact(w) && zip_local_size(zip_written(w)) < zip32_limit() ==> r is Ok,
        zip_intact(w) ==> (r matches Ok(v) ==> zip_listing(v@) == Some(
            zip_written(w).map_values(|e: (Seq<char>, Seq<u8>)| e.0),
        )),
        zip_intact(w) ==> (r matches Ok(v) ==> forall|i: int|
            0 <= i < zip_written(w).len() ==> zip_file(v@, (#[trigger] zip_written(w)[i]).0) == Some(zip_written(w)[i].1)),
{
    w.inner.finish().map(|c| c.into_inner())
}

/// Bytes as a string where they are UTF-8.
///
/// Trusted: calls `String::from_utf8`, which the standard library documents
/// as succeeding exactly on valid UTF-8 and keeping the text it encodes.
#[verifier::external_body]
fn string_from_utf8(bytes: Vec<u8>) -> (r: Option<String>)
    ensures
        match r {
            Some(s) => vstd::utf8::valid_utf8(bytes@) && s@ == vstd::utf8::decode_utf8(bytes@),
            None => !vstd::utf8::valid_utf8(bytes@),
        },
{
    String::from_utf8(bytes).ok()
}

/// Why a GDTF or MVR container could not be read.
#[derive(Debug)]
pub enum ArchiveError {
    /// `zip` could not read the archive or a required entry.
    Zip(zip::result::ZipError),
    /// The scene or fixture description is not UTF-8 text.
    NotUtf8,
    /// An MVR file without `GeneralSceneDescription.xml`.
    MissingSceneDescription,
    /// The scene description is not well-formed XML.
    Xml(quick_xml::Error),
}

// ─── Names ───────────────────────────────────────────────────────────────────

/// ASCII lower case of one character.
pub open spec fn lower_char(c: char) -> char {
    if 'A' <= c <= 'Z' {
        ((c as int + 32) as u8) as char
    } else {
        c
    }
}

/// ASCII lower case of a string.
pub open spec fn lower(s: Seq<char>) -> Seq<char> {
    s.map_values(|c: char| lower_char(c))
}

fn lower_char_exec(c: char) -> (r: char)
    ensures
        r == lower_char(c),
{
    if 'A' <= c && c <= 'Z' {
        let b = c as u8;
        assert(b == c as int);
        (b + 32) as char
    } else {
        c
    }
}

/// Whether two strings are equal up to ASCII case.
pub fn eq_ignore_ascii_case(a: &str, b: &str) -> (r: bool)
    ensures
        r == (lower(a@) == lower(b@)),
{
    let n = a.unicode_len();
    if n != b.unicode_len() {
        assert(lower(a@).len() != lower(b@).len());
        return false;
    }
    let mut i: usize = 0;
    while i < n
        invariant
            n == a@.len(),
            n == b@.len(),
            i <= n,
            forall|j: int| 0 <= j < i ==> lower_char(a@[j]) == lower_char(b@[j]),
        decreases n - i,
    {
        if lower_char_exec(a.get_char(i)) != lower_char_exec(b.get_char(i)) {
            assert(lower(a@)[i as int] != lower(b@)[i as int]);
            return false;
        }
        i = i + 1;
    }
    assert(lower(a@) =~= lower(b@));
    true
}

/// The ASCII lower case of a string.
pub fn to_ascii_lowercase(s: &str) -> (r: String)
    ensures
        r@ == lower(s@),
{
    let n = s.unicode_len();
    let mut out = String::new();
    let mut i: usize = 0;
    while i < n
        invariant
            n == s@.len(),
            i <= n,
            out@ == lower(s@.take(i as int)),
        decreases n - i,
    {
        let c = lower_char_exec(s.get_char(i));
        crate::text::push_char(&mut out, c);
        assert(lower(s@.take(i + 1)) =~= lower(s@.take(i as int)).push(c));
        i = i + 1;
    }
    assert(s@.take(n as int) =~= s@);
    out
}

/// Whether `s` starts with `p`.
pub open spec fn starts_with(s: Seq<char>, p: Seq<char>) -> bool {
    p.len() <= s.len() && s.subrange(0, p.len() as int) == p
}

/// Whether `s` ends with `p`.
pub open spec fn ends_with(s: Seq<char>, p: Seq<char>) -> bool {
    p.len() <= s.len() && s.subrange(s.len() - p.len(), s.len() as int) == p
}

fn has_prefix(s: &str, p: &str) -> (r: bool)
    ensures
        r == starts_with(s@, p@),
{
    let n = s.unicode_len();
    let m = p.unicode_len();
    if m > n {
        return false;
    }
    str_eq(s.substring_char(0, m), p)
}

fn has_suffix(s: &str, p: &str) -> (r: bool)
    ensures
        r == ends_with(s@, p@),
{
    let n = s.unicode_len();
    let m = p.unicode_len();
    if m > n {
        return false;
    }
    str_eq(s.substring_char(n - m, n), p)
}

// ─── GDTF ────────────────────────────────────────────────────────────────────

/// Whether an entry of a GDTF archive is an embedded 3DS model.
pub open spec fn is_model_entry(name: Seq<char>) -> bool {
    starts_with(name, "models/"@) && ends_with(name, ".3ds"@)
}

/// The models of a GDTF archive: every 3DS entry whose content can be read,
/// in archive order, with that content.
pub open spec fn gdtf_models(data: Seq<u8>, names: Seq<Seq<char>>) -> Seq<(Seq<char>, Seq<u8>)>
    decreases names.len(),
{
    if names.len() == 0 {
        Seq::empty()
    } else {
        let prev = gdtf_models(data, names.drop_last());
        let n = names.last();
        if is_model_entry(n) && zip_file(data, n) is Some {
            prev.push((n, zip_file(data, n).unwrap()))
        } else {
            prev
        }
    }
}

/// The parts of a GDTF file that the fixture library uses: the text of
/// `description.xml` and the embedded 3DS models.
pub struct GdtfArchive {
    pub description: String,
    pub models: Vec<(String, Vec<u8>)>,
}

/// The (name, content) pairs of a list of entries.
pub open spec fn entry_views(v: Seq<(String, Vec<u8>)>) -> Seq<(Seq<char>, Seq<u8>)> {
    v.map_values(|e: (String, Vec<u8>)| (e.0@, e.1@))
}

fn collect_models(data: &[u8], names: &Vec<String>) -> (r: Vec<(String, Vec<u8>)>)
    ensures
        entry_views(r@) == gdtf_models(data@, names@.map_values(|s: String| s@)),
{
    let ghost ns = names@.map_values(|s: String| s@);
    let mut out: Vec<(String, Vec<u8>)> = Vec::new();
    let mut i: usize = 0;
    while i < names.len()
        invariant
            ns == names@.map_values(|s: String| s@),
            i <= names@.len(),
            entry_views(out@) == gdtf_models(data@, ns.take(i as int)),
        decreases names@.len() - i,
    {
        let name = names[i].as_str();
        proof {
            assert(ns.take(i + 1).drop_last() =~= ns.take(i as int));
            assert(ns.take(i + 1).last() == name@);
        }
        if has_prefix(name, "models/") && has_suffix(name, ".3ds") {
            match zip_read(data, name) {
                Ok(bytes) => {
                    let ghost before = out@;
                    out.push((names[i].clone(), bytes));
                    assert(entry_views(out@) =~= entry_views(before).push((name@, bytes@)));
                },
                Err(_) => {},
            }
        }
        i = i + 1;
    }
    assert(ns.take(names@.len() as int) =~= ns);
    out
}

/// What reading a GDTF container gives: the description text and models,
/// or the first failure (archive, `description.xml`, its encoding).
pub open spec fn gdtf_archive_ok(data: Seq<u8>, description: Seq<char>, models: Seq<(Seq<char>, Seq<u8>)>) -> bool {
    &&& zip_listing(data) is Some
    &&& (zip_file(data, "description.xml"@) matches Some(b) && vstd::utf8::valid_utf8(b)
        && description == vstd::utf8::decode_utf8(b))
    &&& models == gdtf_models(data, zip_listing(data).unwrap())
}

/// Reads a GDTF container: `description.xml` (which must be UTF-8) and the
/// 3DS models under `models/`.
pub fn read_gdtf_archive(data: &[u8]) -> (r: Result<GdtfArchive, ArchiveError>)
    ensures
        match r {
            Ok(a) => gdtf_archive_ok(data@, a.description@, entry_views(a.models@)),
            Err(ArchiveError::Zip(_)) => zip_listing(data@) is None || zip_file(data@, "description.xml"@) is None,
            Err(ArchiveError::NotUtf8) => zip_listing(data@) is Some && (zip_file(data@, "description.xml"@) matches Some(b)
                && !vstd::utf8::valid_utf8(b)),
            Err(_) => false,
        },
{
    let names = match zip_entry_names(data) {
        Ok(n) => n,
        Err(e) => return Err(ArchiveError::Zip(e)),
    };
    let xml_bytes = match zip_read(data, "description.xml") {
        Ok(b) => b,
        Err(e) => return Err(ArchiveError::Zip(e)),
    };
    let description = match string_from_utf8(xml_bytes) {
        Some(s) => s,
        None => return Err(ArchiveError::NotUtf8),
    };
    let models = collect_models(data, &names);
    Ok(GdtfArchive { description, models })
}

// ─── MVR ─────────────────────────────────────────────────────────────────────

/// The name of the scene description of an MVR file.
pub open spec fn scene_file_name() -> Seq<char> {
    "GeneralSceneDescription.xml"@
}

/// The extension of an entry name: after its last `.`, in ASCII lower case.
pub open spec fn extension(name: Seq<char>) -> Seq<char> {
    lower(split_on(name, '.').last())
}

/// Whether an extension names venue geometry.
pub open spec fn is_geometry_ext(e: Seq<char>) -> bool {
    e == "obj"@ || e == "3ds"@ || e == "glb"@ || e == "gltf"@
}

/// Whether an entry is the scene description (ASCII case ignored).
pub open spec fn is_scene_entry(name: Seq<char>) -> bool {
    lower(name) == lower(scene_file_name())
}

/// The GDTF files of an MVR archive: every `.gdtf` entry whose content can
/// be read, in archive order, with that content.
pub open spec fn mvr_gdtf_files(data: Seq<u8>, names: Seq<Seq<char>>) -> Seq<(Seq<char>, Seq<u8>)>
    decreases names.len(),
{
    if names.len() == 0 {
        Seq::empty()
    } else {
        let prev = mvr_gdtf_files(data, names.drop_last());
        let n = names.last();
        if !is_scene_entry(n) && extension(n) == "gdtf"@ && zip_file(data, n) is Some {
            prev.push((n, zip_file(data, n).unwrap()))
        } else {
            prev
        }
    }
}

/// The venue geometry entries of an MVR archive, in archive order.
pub open spec fn mvr_geometry_files(names: Seq<Seq<char>>) -> Seq<Seq<char>>
    decreases names.len(),
{
    if names.len() == 0 {
        Seq::empty()
    } else {
        let prev = mvr_geometry_files(names.drop_last());
        let n = names.last();
        if !is_scene_entry(n) && is_geometry_ext(extension(n)) {
            prev.push(n)
        } else {
            prev
        }
    }
}

/// Whether `k` is the position of the first scene-description entry.
pub open spec fn first_scene_entry(names: Seq<Seq<char>>, k: int) -> bool {
    0 <= k < names.len() && is_scene_entry(names[k]) && forall|j: int| 0 <= j < k ==> !is_scene_entry(names[j])
}

/// Whether entry `k` of listing `ns` is the archive's scene description
/// and `b` is its content.
pub open spec fn scene_entry_content(data: Seq<u8>, ns: Seq<Seq<char>>, k: int, b: Seq<u8>) -> bool {
    first_scene_entry(ns, k) && zip_file(data, ns[k]) == Some(b)
}

/// A parsed MVR file.
pub struct MvrScene {
    pub name: String,
    pub fixture_instances: Vec<MvrFixture>,
    /// Each embedded GDTF file's name and bytes.
    pub gdtf_files: Vec<(String, Vec<u8>)>,
    /// Venue geometry files inside the archive.
    pub geometry_files: Vec<String>,
}

fn is_geometry(ext: &str) -> (b: bool)
    ensures
        b == is_geometry_ext(ext@),
{
    str_eq(ext, "obj") || str_eq(ext, "3ds") || str_eq(ext, "glb") || str_eq(ext, "gltf")
}

fn entry_extension(name: &str) -> (e: String)
    ensures
        e@ == extension(name@),
{
    let parts = split_char(name, '.');
    to_ascii_lowercase(parts[parts.len() - 1].as_str())
}

/// Reads an MVR file: its fixtures, the GDTF files it embeds and its venue
/// geometry files.
pub fn parse_mvr(data: &[u8]) -> (r: Result<MvrScene, ArchiveError>)
    ensures
        match r {
            Ok(s) => {
                &&& zip_listing(data@) is Some
                &&& s.name@.len() == 0
                &&& entry_views(s.gdtf_files@) == mvr_gdtf_files(data@, zip_listing(data@).unwrap())
                &&& s.geometry_files@.map_values(|n: String| n@) == mvr_geometry_files(zip_listing(data@).unwrap())
                &&& exists|k: int, b: Seq<u8>|
                    #[trigger] scene_entry_content(data@, zip_listing(data@).unwrap(), k, b)
                    && vstd::utf8::valid_utf8(b)
                    && (scene_of_text(vstd::utf8::decode_utf8(b)) matches Some(st)
                        && s.fixture_instances@.map_values(|f: MvrFixture| f@) == st.instances)
            },
            Err(ArchiveError::MissingSceneDescription) => (zip_listing(data@) matches Some(ns)
                && forall|k: int| 0 <= k < ns.len() ==> !is_scene_entry(#[trigger] ns[k])),
            Err(ArchiveError::NotUtf8) => zip_listing(data@) matches Some(ns)
                && exists|k: int, b: Seq<u8>| #[trigger] scene_entry_content(data@, ns, k, b) && !vstd::utf8::valid_utf8(b),
            Err(ArchiveError::Zip(_)) => zip_listing(data@) is None || (zip_listing(data@) matches Some(ns)
                && exists|k: int| #[trigger] first_scene_entry(ns, k) && zip_file(data@, ns[k]) is None),
            Err(ArchiveError::Xml(_)) => zip_listing(data@) matches Some(ns)
                && exists|k: int, b: Seq<u8>|
                    #[trigger] scene_entry_content(data@, ns, k, b) && vstd::utf8::valid_utf8(b)
                    && scene_of_text(vstd::utf8::decode_utf8(b)) is None,
        },
{
    let names = match zip_entry_names(data) {
        Ok(n) => n,
        Err(e) => return Err(ArchiveError::Zip(e)),
    };
    let ghost ns = names@.map_values(|s: String| s@);
    let mut gdtf_files: Vec<(String, Vec<u8>)> = Vec::new();
    let mut geometry_files: Vec<String> = Vec::new();
    let mut scene: Option<usize> = None;
    let mut i: usize = 0;
    while i < names.len()
        invariant
            ns == names@.map_values(|s: String| s@),
            i <= names@.len(),
            entry_views(gdtf_files@) == mvr_gdtf_files(data@, ns.take(i as int)),
            geometry_files@.map_values(|n: String| n@) == mvr_geometry_files(ns.take(i as int)),
            match scene {
                Some(k) => k < i && first_scene_entry(ns, k as int),
                None => forall|j: int| 0 <= j < i ==> !is_scene_entry(#[trigger] ns[j]),
            },
        decreases names@.len() - i,
    {
        let name = names[i].as_str();
        proof {
            assert(ns.take(i + 1).drop_last() =~= ns.take(i as int));
            assert(ns.take(i + 1).last() == name@);
            assert(ns[i as int] == name@);
        }
        if eq_ignore_ascii_case(name, "GeneralSceneDescription.xml") {
            if scene.is_none() {
                scene = Some(i);
            }
        } else {
            let ext = entry_extension(name);
            proof {
                reveal_strlit("gdtf");
                reveal_strlit("obj");
                reveal_strlit("3ds");
                reveal_strlit("glb");
                reveal_strlit("gltf");
                assert("gdtf"@.len() == 4 && "obj"@.len() == 3 && "3ds"@.len() == 3 && "glb"@.len() == 3);
                assert("gdtf"@[1] == 'd' && "gltf"@[1] == 'l');
                assert(!is_geometry_ext("gdtf"@));
            }
            if str_eq(ext.as_str(), "gdtf") {
                match zip_read(data, name) {
                    Ok(bytes) => {
                        let ghost before = gdtf_files@;
                        gdtf_files.push((names[i].clone(), bytes));
                        assert(entry_views(gdtf_files@) =~= entry_views(before).push((name@, bytes@)));
                    },
                    Err(_) => {},
                }
            } else if is_geometry(ext.as_str()) {
                let ghost before = geometry_files@;
                geometry_files.push(names[i].clone());
                assert(geometry_files@.map_values(|n: String| n@) =~= before.map_values(|n: String| n@).push(name@));
            }
        }
        i = i + 1;
    }
    assert(ns.take(names@.len() as int) =~= ns);
    let k = match scene {
        Some(k) => k,
        None => return Err(ArchiveError::MissingSceneDescription),
    };
    let xml_bytes = match zip_read(data, names[k].as_str()) {
        Ok(b) => b,
        Err(e) => {
            assert(zip_listing(data@).unwrap() == ns);
            assert(first_scene_entry(zip_listing(data@).unwrap(), k as int));
            return Err(ArchiveError::Zip(e));
        },
    };
    let ghost b = xml_bytes@;
    assert(zip_listing(data@).unwrap() == ns);
    assert(scene_entry_content(data@, zip_listing(data@).unwrap(), k as int, b));
    let xml = match string_from_utf8(xml_bytes) {
        Some(s) => s,
        None => return Err(ArchiveError::NotUtf8),
    };
    let fixture_instances = match parse_scene_xml(xml.as_str()) {
        Ok(v) => v,
        Err(SceneError::Xml(e)) => return Err(ArchiveError::Xml(e)),
    };
    Ok(MvrScene { name: String::new(), fixture_instances, gdtf_files, geometry_files })
}

} // verus!
