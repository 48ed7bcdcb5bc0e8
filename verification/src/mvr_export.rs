//! Writing an MVR scene description: XML escaping, file names for the
//! embedded GDTF files, and the `GeneralSceneDescription.xml` text.
use vstd::prelude::*;
use crate::archive::{
    entry_views, extension, is_scene_entry, lower, lower_char, mvr_gdtf_files, scene_file_name, zip32_limit, zip_file,
    zip_finish, zip_intact, zip_listing, zip_local_size, zip_start_stored, zip_write, zip_writer_new, zip_written,
};
use crate::text::split_on;
use crate::library::{entry_index, FixtureLibrary, LibraryEntry};
use crate::patch::FixtureInstance;
use crate::text::{decimal, push_char, push_decimal, push_str, str_eq};
use vstd::string::StringSliceAdditionalSpecFns;

verus! {

/// How one character is written in XML text or an attribute value.
pub open spec fn escape_char(c: char) -> Seq<char> {
    if c == '&' {
        "&amp;"@
    } else if c == '<' {
        "&lt;"@
    } else if c == '>' {
        "&gt;"@
    } else if c == '"' {
        "&quot;"@
    } else {
        seq![c]
    }
}

/// `s` with `&`, `<`, `>` and `"` replaced by their entities.
pub open spec fn escaped(s: Seq<char>) -> Seq<char>
    decreases s.len(),
{
    if s.len() == 0 {
        Seq::empty()
    } else {
        escaped(s.drop_last()) + escape_char(s.last())
    }
}

/// Escapes `&`, `<`, `>` and `"` for XML.
pub fn xml_escape(s: &str) -> (r: String)
    ensures
        r@ == escaped(s@),
{
    let n = s.unicode_len();
    let mut out = String::new();
    let mut i: usize = 0;
    while i < n
        invariant
            n == s@.len(),
            i <= n,
            out@ == escaped(s@.take(i as int)),
        decreases n - i,
    {
        let c = s.get_char(i);
        proof {
            assert(s@.take(i + 1).drop_last() =~= s@.take(i as int));
        }
        if c == '&' {
            push_str(&mut out, "&amp;");
        } else if c == '<' {
            push_str(&mut out, "&lt;");
        } else if c == '>' {
            push_str(&mut out, "&gt;");
        } else if c == '"' {
            push_str(&mut out, "&quot;");
        } else {
            push_char(&mut out, c);
            assert(out@ =~= escaped(s@.take(i as int)) + seq![c]);
        }
        i = i + 1;
    }
    assert(s@.take(n as int) =~= s@);
    out
}

/// Escaped text holds no markup: no `<`, `>` or `"` is left in it.
pub proof fn law_escaped_has_no_markup(s: Seq<char>)
    ensures
        forall|i: int|
            0 <= i < escaped(s).len() ==> #[trigger] escaped(s)[i] != '<' && escaped(s)[i] != '>'
                && escaped(s)[i] != '"',
    decreases s.len(),
{
    if s.len() > 0 {
        law_escaped_has_no_markup(s.drop_last());
        reveal_strlit("&amp;");
        reveal_strlit("&lt;");
        reveal_strlit("&gt;");
        reveal_strlit("&quot;");
        let p = escaped(s.drop_last());
        let e = escape_char(s.last());
        assert forall|i: int| 0 <= i < escaped(s).len() implies #[trigger] escaped(s)[i] != '<' && escaped(s)[i] != '>'
            && escaped(s)[i] != '"' by {
            if i < p.len() {
                assert(escaped(s)[i] == p[i]);
            } else {
                assert(escaped(s)[i] == e[i - p.len()]);
            }
        }
    }
}

/// Whether `t` begins with `p`.
pub open spec fn begins_with(t: Seq<char>, p: Seq<char>) -> bool {
    p.len() <= t.len() && t.take(p.len() as int) == p
}

/// XML text with the entities `&amp;`, `&lt;`, `&gt;` and `&quot;` decoded,
/// read from left to right; any other character stands for itself.
pub open spec fn unescaped(t: Seq<char>) -> Seq<char>
    decreases t.len(),
{
    if t.len() == 0 {
        Seq::empty()
    } else if begins_with(t, seq!['&', 'a', 'm', 'p', ';']) {
        seq!['&'] + unescaped(t.skip(5))
    } else if begins_with(t, seq!['&', 'l', 't', ';']) {
        seq!['<'] + unescaped(t.skip(4))
    } else if begins_with(t, seq!['&', 'g', 't', ';']) {
        seq!['>'] + unescaped(t.skip(4))
    } else if begins_with(t, seq!['&', 'q', 'u', 'o', 't', ';']) {
        seq!['"'] + unescaped(t.skip(6))
    } else {
        seq![t[0]] + unescaped(t.skip(1))
    }
}

proof fn lemma_escaped_concat(a: Seq<char>, b: Seq<char>)
    ensures
        escaped(a + b) == escaped(a) + escaped(b),
    decreases b.len(),
{
    if b.len() == 0 {
        assert(a + b =~= a);
        assert(escaped(a) + escaped(b) =~= escaped(a));
    } else {
        lemma_escaped_concat(a, b.drop_last());
        assert((a + b).drop_last() =~= a + b.drop_last());
        assert((a + b).last() == b.last());
        assert(escaped(a + b) =~= escaped(a) + escaped(b));
    }
}

proof fn lemma_unescape_step(c: char, r: Seq<char>)
    ensures
        unescaped(escape_char(c) + r) == seq![c] + unescaped(r),
{
    reveal_strlit("&amp;");
    reveal_strlit("&lt;");
    reveal_strlit("&gt;");
    reveal_strlit("&quot;");
    let t = escape_char(c) + r;
    let e = escape_char(c);
    assert(t.len() > 0);
    assert(t[0] == e[0]);
    if c == '&' {
        assert(e =~= seq!['&', 'a', 'm', 'p', ';']);
        assert(t.take(5) =~= e);
        assert(t.skip(5) =~= r);
    } else if c == '<' {
        assert(t[1] == 'l');
        assert(!begins_with(t, seq!['&', 'a', 'm', 'p', ';'])) by {
            if begins_with(t, seq!['&', 'a', 'm', 'p', ';']) {
                assert(t.take(5)[1] == t[1]);
            }
        }
        assert(e =~= seq!['&', 'l', 't', ';']);
        assert(t.take(4) =~= e);
        assert(t.skip(4) =~= r);
    } else if c == '>' {
        assert(t[1] == 'g');
        assert(!begins_with(t, seq!['&', 'a', 'm', 'p', ';'])) by {
            if begins_with(t, seq!['&', 'a', 'm', 'p', ';']) {
                assert(t.take(5)[1] == t[1]);
            }
        }
        assert(!begins_with(t, seq!['&', 'l', 't', ';'])) by {
            if begins_with(t, seq!['&', 'l', 't', ';']) {
                assert(t.take(4)[1] == t[1]);
            }
        }
        assert(e =~= seq!['&', 'g', 't', ';']);
        assert(t.take(4) =~= e);
        assert(t.skip(4) =~= r);
    } else if c == '"' {
        assert(t[1] == 'q');
        assert(!begins_with(t, seq!['&', 'a', 'm', 'p', ';'])) by {
            if begins_with(t, seq!['&', 'a', 'm', 'p', ';']) {
                assert(t.take(5)[1] == t[1]);
            }
        }
        assert(!begins_with(t, seq!['&', 'l', 't', ';'])) by {
            if begins_with(t, seq!['&', 'l', 't', ';']) {
                assert(t.take(4)[1] == t[1]);
            }
        }
        assert(!begins_with(t, seq!['&', 'g', 't', ';'])) by {
            if begins_with(t, seq!['&', 'g', 't', ';']) {
                assert(t.take(4)[1] == t[1]);
            }
        }
        assert(e =~= seq!['&', 'q', 'u', 'o', 't', ';']);
        assert(t.take(6) =~= e);
        assert(t.skip(6) =~= r);
    } else {
        assert(t[0] == c);
        assert(!begins_with(t, seq!['&', 'a', 'm', 'p', ';'])) by {
            if begins_with(t, seq!['&', 'a', 'm', 'p', ';']) {
                assert(t.take(5)[0] == t[0]);
            }
        }
        assert(!begins_with(t, seq!['&', 'l', 't', ';'])) by {
            if begins_with(t, seq!['&', 'l', 't', ';']) {
                assert(t.take(4)[0] == t[0]);
            }
        }
        assert(!begins_with(t, seq!['&', 'g', 't', ';'])) by {
            if begins_with(t, seq!['&', 'g', 't', ';']) {
                assert(t.take(4)[0] == t[0]);
            }
        }
        assert(!begins_with(t, seq!['&', 'q', 'u', 'o', 't', ';'])) by {
            if begins_with(t, seq!['&', 'q', 'u', 'o', 't', ';']) {
                assert(t.take(6)[0] == t[0]);
            }
        }
        assert(t.skip(1) =~= r);
    }
}

/// Decoding the entities of escaped text gives the text back: every `&` is
/// escaped first, so nothing is escaped twice.
pub proof fn law_unescape_undoes_escape(s: Seq<char>)
    ensures
        unescaped(escaped(s)) == s,
    decreases s.len(),
{
    if s.len() > 0 {
        let rest = s.skip(1);
        assert(s =~= seq![s[0]] + rest);
        lemma_escaped_concat(seq![s[0]], rest);
        assert(seq![s[0]].drop_last() =~= Seq::<char>::empty());
        assert(escaped(Seq::<char>::empty()) == Seq::<char>::empty());
        assert(Seq::<char>::empty() + escape_char(s[0]) =~= escape_char(s[0]));
        assert(escaped(seq![s[0]]) =~= escape_char(s[0]));
        lemma_unescape_step(s[0], escaped(rest));
        law_unescape_undoes_escape(rest);
        assert(seq![s[0]] + rest =~= s);
    }
}

/// A sanitized name has one character per character of the input, each of
/// them safe in a file name.
pub proof fn law_sanitized_is_safe(s: Seq<char>)
    ensures
        sanitized(s).len() == s.len(),
        forall|i: int| 0 <= i < s.len() ==> filename_safe(#[trigger] sanitized(s)[i]),
{
}

/// Sanitizing twice changes nothing more.
pub proof fn law_sanitize_idempotent(s: Seq<char>)
    ensures
        sanitized(sanitized(s)) == sanitized(s),
{
    assert(sanitized(sanitized(s)) =~= sanitized(s));
}

/// Whether a character may stay in a file name: ASCII letters, digits, `-` and `_`.
pub open spec fn filename_safe(c: char) -> bool {
    ('a' <= c <= 'z') || ('A' <= c <= 'Z') || ('0' <= c <= '9') || c == '-' || c == '_'
}

/// `s` with every other character replaced by `_`.
pub open spec fn sanitized(s: Seq<char>) -> Seq<char> {
    s.map_values(|c: char| if filename_safe(c) { c } else { '_' })
}

/// Makes a string safe as a file name.
pub fn sanitize_filename(s: &str) -> (r: String)
    ensures
        r@ == sanitized(s@),
{
    let n = s.unicode_len();
    let mut out = String::new();
    let mut i: usize = 0;
    while i < n
        invariant
            n == s@.len(),
            i <= n,
            out@ == sanitized(s@.take(i as int)),
        decreases n - i,
    {
        let c = s.get_char(i);
        let safe = ('a' <= c && c <= 'z') || ('A' <= c && c <= 'Z') || ('0' <= c && c <= '9') || c
            == '-' || c == '_';
        push_char(&mut out, if safe { c } else { '_' });
        assert(sanitized(s@.take(i + 1)) =~= sanitized(s@.take(i as int)).push(
            if safe { c } else { '_' },
        ));
        i = i + 1;
    }
    assert(s@.take(n as int) =~= s@);
    out
}

/// Whether `needle` occurs in `h` at position `i`.
pub open spec fn occurs_at(h: Seq<u8>, needle: Seq<u8>, i: int) -> bool {
    0 <= i && i + needle.len() <= h.len() && h.subrange(i, i + needle.len()) == needle
}

/// The first position where `needle` occurs in `h` (0 for an empty needle).
pub open spec fn first_occurrence(h: Seq<u8>, needle: Seq<u8>) -> Option<int> {
    if exists|i: int| occurs_at(h, needle, i) {
        Some(choose|i: int| occurs_at(h, needle, i) && forall|j: int| 0 <= j < i ==> !occurs_at(h, needle, j))
    } else {
        None
    }
}

fn matches_at(h: &[u8], needle: &[u8], i: usize) -> (b: bool)
    requires
        i + needle@.len() <= h@.len(),
    ensures
        b == occurs_at(h@, needle@, i as int),
{
    let m = needle.len();
    let hl = h.len();
    let mut j: usize = 0;
    while j < m
        invariant
            m == needle@.len(),
            hl == h@.len(),
            i + m <= h@.len(),
            j <= m,
            forall|k: int| 0 <= k < j ==> h@[i + k] == needle@[k],
        decreases m - j,
    {
        assert(i + j < h@.len());
        if h[i + j] != needle[j] {
            assert(h@.subrange(i as int, i + m)[j as int] != needle@[j as int]);
            return false;
        }
        j = j + 1;
    }
    assert(h@.subrange(i as int, i + m) =~= needle@);
    true
}

/// Byte-level substring search: the first position of `needle` in `haystack`.
pub fn find_bytes(haystack: &[u8], needle: &[u8]) -> (r: Option<usize>)
    ensures
        match r {
            Some(i) => first_occurrence(haystack@, needle@) == Some(i as int),
            None => first_occurrence(haystack@, needle@) is None,
        },
{
    let n = haystack.len();
    let m = needle.len();
    if m == 0 {
        assert(occurs_at(haystack@, needle@, 0)) by {
            assert(haystack@.subrange(0, 0) =~= needle@);
        }
        proof {
            let w = choose|i: int| occurs_at(haystack@, needle@, i) && forall|j: int| 0 <= j < i ==> !occurs_at(haystack@, needle@, j);
            assert(occurs_at(haystack@, needle@, w) && forall|j: int| 0 <= j < w ==> !occurs_at(haystack@, needle@, j)) by {
                assert(occurs_at(haystack@, needle@, 0) && forall|j: int| 0 <= j < 0 ==> !occurs_at(haystack@, needle@, j));
            }
        }
        return Some(0);
    }
    if m > n {
        return None;
    }
    let mut i: usize = 0;
    while i <= n - m
        invariant
            n == haystack@.len(),
            m == needle@.len(),
            0 < m <= n,
            i <= n - m + 1,
            forall|j: int| 0 <= j < i ==> !occurs_at(haystack@, needle@, j),
        decreases n - m + 1 - i,
    {
        if matches_at(haystack, needle, i) {
            proof {
                let w = choose|k: int| occurs_at(haystack@, needle@, k) && forall|j: int| 0 <= j < k ==> !occurs_at(haystack@, needle@, j);
                assert(occurs_at(haystack@, needle@, i as int));
                assert(w == i) by {
                    if w < i {
                        assert(!occurs_at(haystack@, needle@, w));
                    }
                    if i < w {
                        assert(!occurs_at(haystack@, needle@, i as int));
                    }
                }
            }
            return Some(i);
        }
        i = i + 1;
    }
    assert(!exists|j: int| occurs_at(haystack@, needle@, j));
    None
}

/// How many leading bytes of a GDTF file are searched for a fixture type id.
pub const GDTF_SCAN_LEN: usize = 4096;

/// Whether the GDTF file `bytes` belongs to fixture type `type_id`: the
/// UTF-8 of the id occurs in the first 4 KiB of the file.
pub open spec fn gdtf_matches(type_id: Seq<char>, bytes: Seq<u8>) -> bool {
    let scan = if bytes.len() < 4096 { bytes } else { bytes.subrange(0, 4096) };
    first_occurrence(scan, vstd::utf8::encode_utf8(type_id)) is Some
}

/// Best-effort check whether a GDTF byte blob belongs to a fixture instance.
pub fn match_gdtf_for_instance(inst: &FixtureInstance, bytes: &[u8]) -> (b: bool)
    ensures
        b == gdtf_matches(inst.fixture_type_id@, bytes@),
{
    let scan_len = if bytes.len() < GDTF_SCAN_LEN {
        bytes.len()
    } else {
        GDTF_SCAN_LEN
    };
    let haystack = &bytes[0..scan_len];
    assert(bytes.len() < 4096 ==> haystack@ =~= bytes@);
    find_bytes(haystack, inst.fixture_type_id.as_str().as_bytes()).is_some()
}

/// The file name of the GDTF embedded for a fixture: its type id and mode
/// joined by `_`, sanitized, with ".gdtf".
pub open spec fn gdtf_filename_spec(type_id: Seq<char>, mode: Seq<char>) -> Seq<char> {
    sanitized(type_id + "_"@ + mode) + ".gdtf"@
}

/// Names the GDTF file embedded for a fixture.
pub fn gdtf_filename(inst: &FixtureInstance) -> (r: String)
    ensures
        r@ == gdtf_filename_spec(inst.fixture_type_id@, inst.dmx_mode@),
{
    let mut joined = String::new();
    push_str(&mut joined, inst.fixture_type_id.as_str());
    push_str(&mut joined, "_");
    push_str(&mut joined, inst.dmx_mode.as_str());
    let mut r = sanitize_filename(joined.as_str());
    push_str(&mut r, ".gdtf");
    r
}

/// The GDTF spec a fixture refers to: the name of the first embedded file
/// that matches it, else its type id.
pub open spec fn gdtf_spec_for(inst: FixtureInstance, entries: Seq<(Seq<char>, Seq<u8>)>) -> Seq<char>
    decreases entries.len(),
{
    if entries.len() == 0 {
        inst.fixture_type_id@
    } else if gdtf_matches(inst.fixture_type_id@, entries[0].1) {
        entries[0].0
    } else {
        gdtf_spec_for(inst, entries.drop_first())
    }
}

fn find_gdtf_spec(inst: &FixtureInstance, entries: &[(String, Vec<u8>)]) -> (r: String)
    ensures
        r@ == gdtf_spec_for(*inst, entry_views(entries@)),
{
    let ghost ev = entry_views(entries@);
    let mut i: usize = 0;
    assert(ev.skip(0) =~= ev);
    while i < entries.len()
        invariant
            i <= entries@.len(),
            ev == entry_views(entries@),
            gdtf_spec_for(*inst, ev) == gdtf_spec_for(*inst, ev.skip(i as int)),
        decreases entries@.len() - i,
    {
        proof {
            assert(ev.skip(i as int).drop_first() =~= ev.skip(i + 1));
            assert(ev.skip(i as int)[0] == (entries@[i as int].0@, entries@[i as int].1@));
        }
        if match_gdtf_for_instance(inst, entries[i].1.as_slice()) {
            return entries[i].0.clone();
        }
        i = i + 1;
    }
    inst.fixture_type_id.clone()
}

/// The XML element for one fixture; `matrix` is its placement text.
pub open spec fn fixture_xml(inst: FixtureInstance, spec: Seq<char>, matrix: Seq<char>) -> Seq<char> {
    "      <Fixture name=\""@ + escaped(inst.name@) + "\">\n"@
    + "        <GDTFSpec>"@ + escaped(spec) + "</GDTFSpec>\n"@
    + "        <GDTFMode>"@ + escaped(inst.dmx_mode@) + "</GDTFMode>\n"@
    + "        <FixtureTypeId>"@ + escaped(inst.fixture_type_id@) + "</FixtureTypeId>\n"@
    + "        <Matrix>"@ + matrix + "</Matrix>\n"@
    + "        <Address>"@ + decimal(inst.address.universe as nat) + "."@ + decimal(inst.address.channel as nat) + "</Address>\n"@
    + "      </Fixture>\n"@
}

/// The elements of the first `k` fixtures.
pub open spec fn fixtures_xml(
    fixtures: Seq<FixtureInstance>,
    matrices: Seq<String>,
    entries: Seq<(Seq<char>, Seq<u8>)>,
    k: int,
) -> Seq<char>
    decreases k,
{
    if k <= 0 {
        Seq::empty()
    } else {
        fixtures_xml(fixtures, matrices, entries, k - 1) + fixture_xml(
            fixtures[k - 1],
            gdtf_spec_for(fixtures[k - 1], entries),
            matrices[k - 1]@,
        )
    }
}

#[verifier::spinoff_prover]
#[verifier::rlimit(30)]
fn push_fixture_xml(xml: &mut String, inst: &FixtureInstance, spec: &str, matrix: &str)
    ensures
        final(xml)@ == old(xml)@ + fixture_xml(*inst, spec@, matrix@),
{
    let ghost s0 = xml@;
    push_str(xml, "      <Fixture name=\"");
    push_str(xml, xml_escape(inst.name.as_str()).as_str());
    push_str(xml, "\">\n");
    push_str(xml, "        <GDTFSpec>");
    push_str(xml, xml_escape(spec).as_str());
    push_str(xml, "</GDTFSpec>\n");
    let ghost s1 = xml@;
    assert(s1 =~= s0 + ("      <Fixture name=\""@ + escaped(inst.name@) + "\">\n"@
        + "        <GDTFSpec>"@ + escaped(spec@) + "</GDTFSpec>\n"@));
    push_str(xml, "        <GDTFMode>");
    push_str(xml, xml_escape(inst.dmx_mode.as_str()).as_str());
    push_str(xml, "</GDTFMode>\n");
    push_str(xml, "        <FixtureTypeId>");
    push_str(xml, xml_escape(inst.fixture_type_id.as_str()).as_str());
    push_str(xml, "</FixtureTypeId>\n");
    let ghost s2 = xml@;
    assert(s2 =~= s1 + ("        <GDTFMode>"@ + escaped(inst.dmx_mode@) + "</GDTFMode>\n"@
        + "        <FixtureTypeId>"@ + escaped(inst.fixture_type_id@) + "</FixtureTypeId>\n"@));
    push_str(xml, "        <Matrix>");
    push_str(xml, matrix);
    push_str(xml, "</Matrix>\n");
    push_str(xml, "        <Address>");
    push_decimal(xml, inst.address.universe as u64);
    push_str(xml, ".");
    push_decimal(xml, inst.address.channel as u64);
    push_str(xml, "</Address>\n");
    push_str(xml, "      </Fixture>\n");
    assert(xml@ =~= s2 + ("        <Matrix>"@ + matrix@ + "</Matrix>\n"@
        + "        <Address>"@ + decimal(inst.address.universe as nat) + "."@ + decimal(inst.address.channel as nat) + "</Address>\n"@
        + "      </Fixture>\n"@));
    assert(xml@ =~= s0 + fixture_xml(*inst, spec@, matrix@));
}

/// The opening of a scene description, with the scene's name where it has one.
pub open spec fn scene_head(scene_name: Seq<char>) -> Seq<char> {
    "<?xml version=\"1.0\" encoding=\"UTF-8\"?>\n<GeneralSceneDescription>\n  <Scene>\n"@
    + (if scene_name.len() > 0 {
        "    <Name>"@ + escaped(scene_name) + "</Name>\n"@
    } else {
        Seq::empty()
    }) + "    <Fixtures>\n"@
}

/// The closing of a scene description.
pub open spec fn scene_tail() -> Seq<char> {
    "    </Fixtures>\n  </Scene>\n</GeneralSceneDescription>\n"@
}

/// The whole scene description.
pub open spec fn scene_xml(
    fixtures: Seq<FixtureInstance>,
    matrices: Seq<String>,
    scene_name: Seq<char>,
    entries: Seq<(Seq<char>, Seq<u8>)>,
) -> Seq<char> {
    scene_head(scene_name) + fixtures_xml(fixtures, matrices, entries, fixtures.len() as int) + scene_tail()
}

/// Writes `GeneralSceneDescription.xml` for `fixtures`; `matrices[i]` is the
/// placement text of fixture `i`, and `entries` the embedded GDTF files.
pub fn build_scene_xml(
    fixtures: &[FixtureInstance],
    matrices: &[String],
    scene_name: &str,
    entries: &[(String, Vec<u8>)],
) -> (xml: String)
    requires
        matrices@.len() == fixtures@.len(),
    ensures
        xml@ == scene_xml(fixtures@, matrices@, scene_name@, entry_views(entries@)),
{
    let mut xml = String::new();
    push_str(&mut xml, "<?xml version=\"1.0\" encoding=\"UTF-8\"?>\n<GeneralSceneDescription>\n  <Scene>\n");
    if scene_name.unicode_len() > 0 {
        push_str(&mut xml, "    <Name>");
        let e = xml_escape(scene_name);
        push_str(&mut xml, e.as_str());
        push_str(&mut xml, "</Name>\n");
    }
    push_str(&mut xml, "    <Fixtures>\n");
    assert(xml@ =~= scene_head(scene_name@));
    let ghost head = xml@;
    let mut i: usize = 0;
    while i < fixtures.len()
        invariant
            matrices@.len() == fixtures@.len(),
            i <= fixtures@.len(),
            head == scene_head(scene_name@),
            xml@ == head + fixtures_xml(fixtures@, matrices@, entry_views(entries@), i as int),
        decreases fixtures@.len() - i,
    {
        let inst = &fixtures[i];
        let ghost before = xml@;
        let spec = find_gdtf_spec(inst, entries);
        push_fixture_xml(&mut xml, inst, spec.as_str(), matrices[i].as_str());
        assert(xml@ =~= head + fixtures_xml(fixtures@, matrices@, entry_views(entries@), i + 1));
        i = i + 1;
    }
    push_str(&mut xml, "    </Fixtures>\n  </Scene>\n</GeneralSceneDescription>\n");
    xml
}

// ─── The archive ─────────────────────────────────────────────────────────────

/// Whether fixture `i` is the first of its fixture type in `fs`.
pub open spec fn first_of_type(fs: Seq<FixtureInstance>, i: int) -> bool {
    forall|j: int| 0 <= j < i ==> (#[trigger] fs[j]).fixture_type_id@ != fs[i].fixture_type_id@
}

/// The GDTF files embedded for the first `k` fixtures: for the first fixture
/// of each type whose file the library holds, that file, named after the
/// fixture.
pub open spec fn embedded_gdtfs(fs: Seq<FixtureInstance>, lib: Seq<LibraryEntry>, k: int) -> Seq<(Seq<char>, Seq<u8>)>
    decreases k,
{
    if k <= 0 {
        Seq::empty()
    } else {
        let prev = embedded_gdtfs(fs, lib, k - 1);
        let f = fs[k - 1];
        if first_of_type(fs, k - 1) {
            match entry_index(lib, f.fixture_type_id@) {
                Some(e) => prev.push((gdtf_filename_spec(f.fixture_type_id@, f.dmx_mode@), lib[e].raw@)),
                None => prev,
            }
        } else {
            prev
        }
    }
}

/// The GDTF files an MVR export embeds, in the order of the fixtures.
pub fn collect_gdtf_entries(fixtures: &[FixtureInstance], library: &FixtureLibrary) -> (r: Vec<(String, Vec<u8>)>)
    requires
        library.wf(),
    ensures
        entry_views(r@) == embedded_gdtfs(fixtures@, library.entries_view(), fixtures@.len() as int),
{
    let mut out: Vec<(String, Vec<u8>)> = Vec::new();
    let mut i: usize = 0;
    while i < fixtures.len()
        invariant
            i <= fixtures@.len(),
            library.wf(),
            entry_views(out@) == embedded_gdtfs(fixtures@, library.entries_view(), i as int),
        decreases fixtures@.len() - i,
    {
        let inst = &fixtures[i];
        let mut first = true;
        let mut j: usize = 0;
        while j < i
            invariant
                j <= i,
                i < fixtures@.len(),
                *inst == fixtures@[i as int],
                first <==> forall|m: int| 0 <= m < j ==> (#[trigger] fixtures@[m]).fixture_type_id@ != inst.fixture_type_id@,
            decreases i - j,
        {
            if str_eq(fixtures[j].fixture_type_id.as_str(), inst.fixture_type_id.as_str()) {
                first = false;
            }
            j = j + 1;
        }
        let ghost before = out@;
        if first {
            match library.raw_bytes(inst.fixture_type_id.as_str()) {
                Some(b) => {
                    let name = gdtf_filename(inst);
                    out.push((name, vstd::slice::slice_to_vec(b)));
                },
                None => {},
            }
        }
        proof {
            assert(first == first_of_type(fixtures@, i as int));
            assert(entry_views(out@) =~= embedded_gdtfs(fixtures@, library.entries_view(), i + 1)) by {
                if out@.len() > before.len() {
                    assert(out@ == before.push(out@.last()));
                }
            }
        }
        i = i + 1;
    }
    out
}

/// Why an MVR export failed.
#[derive(Debug)]
pub enum ExportError {
    /// `zip` refused an entry (two embedded files of one name) or the archive.
    Zip(zip::result::ZipError),
    /// Writing an entry's bytes failed.
    Io(std::io::Error),
}

/// The name of the scene description inside an MVR archive.
pub open spec fn scene_entry_name() -> Seq<char> {
    "GeneralSceneDescription.xml"@
}

/// The files of an MVR export, in archive order: the scene description,
/// then the embedded GDTF files.
pub open spec fn mvr_files(
    fixtures: Seq<FixtureInstance>,
    matrices: Seq<String>,
    lib: Seq<LibraryEntry>,
    scene_name: Seq<char>,
) -> Seq<(Seq<char>, Seq<u8>)> {
    let es = embedded_gdtfs(fixtures, lib, fixtures.len() as int);
    seq![(scene_entry_name(), vstd::utf8::encode_utf8(scene_xml(fixtures, matrices, scene_name, es)))] + es
}

/// Whether two of the files have the same name.
pub open spec fn has_duplicate_name(files: Seq<(Seq<char>, Seq<u8>)>) -> bool {
    exists|a: int, b: int| 0 <= a < b < files.len() && (#[trigger] files[a]).0 == (#[trigger] files[b]).0
}

/// Whether every file name takes at most `u16::MAX` bytes in UTF-8, as the
/// length field of a ZIP header needs.
pub open spec fn names_fit(files: Seq<(Seq<char>, Seq<u8>)>) -> bool {
    forall|i: int| 0 <= i < files.len() ==> vstd::utf8::encode_utf8((#[trigger] files[i]).0).len() <= u16::MAX
}

proof fn lemma_local_size_push(s: Seq<(Seq<char>, Seq<u8>)>, e: (Seq<char>, Seq<u8>))
    ensures
        zip_local_size(s.push(e)) == zip_local_size(s) + 30 + vstd::utf8::encode_utf8(e.0).len() + e.1.len(),
{
    assert(s.push(e).drop_last() =~= s);
}

proof fn lemma_local_size_prefix(s: Seq<(Seq<char>, Seq<u8>)>, k: int)
    requires
        0 <= k <= s.len(),
    ensures
        zip_local_size(s.take(k)) <= zip_local_size(s),
    decreases s.len(),
{
    if k == s.len() {
        assert(s.take(k) =~= s);
    } else {
        lemma_local_size_prefix(s.drop_last(), k);
        assert(s.drop_last().take(k) =~= s.take(k));
    }
}

fn add_stored_entry(w: &mut crate::archive::MemZipWriter, name: &str, bytes: &[u8]) -> (r: Result<(), ExportError>)
    requires
        zip_intact(*old(w)),
        vstd::utf8::encode_utf8(name@).len() <= u16::MAX,
    ensures
        (exists|i: int| 0 <= i < zip_written(*old(w)).len() && (#[trigger] zip_written(*old(w))[i]).0 == name@) ==> r is Err,
        !(exists|i: int| 0 <= i < zip_written(*old(w)).len() && (#[trigger] zip_written(*old(w))[i]).0 == name@)
            && zip_local_size(zip_written(*old(w)).push((name@, bytes@))) < zip32_limit() ==> r is Ok,
        r is Ok ==> zip_intact(*final(w)) && zip_written(*final(w)) == zip_written(*old(w)).push((name@, bytes@)),
{
    proof {
        lemma_local_size_push(zip_written(*w), (name@, bytes@));
    }
    match zip_start_stored(w, name) {
        Ok(()) => {},
        Err(e) => return Err(ExportError::Zip(e)),
    }
    let ghost mid = zip_written(*w);
    proof {
        lemma_local_size_push(zip_written(*old(w)), (name@, Seq::<u8>::empty()));
    }
    match zip_write(w, bytes) {
        Ok(()) => {
            assert(Seq::<u8>::empty() + bytes@ =~= bytes@);
            assert(zip_written(*w) =~= zip_written(*old(w)).push((name@, bytes@)));
            Ok(())
        },
        Err(e) => Err(ExportError::Io(e)),
    }
}

/// Exports fixtures as an MVR archive: `GeneralSceneDescription.xml` (with
/// `matrices[i]` as the placement of fixture `i`), then the GDTF file of
/// each fixture type that the library holds, stored uncompressed. What it
/// returns reads back as those files. Two files of one name make it fail;
/// with distinct names it succeeds whenever the archive stays below the
/// ZIP64 threshold.
pub fn export_mvr(
    fixtures: &[FixtureInstance],
    matrices: &[String],
    library: &FixtureLibrary,
    scene_name: &str,
) -> (r: Result<Vec<u8>, ExportError>)
    requires
        matrices@.len() == fixtures@.len(),
        library.wf(),
        names_fit(mvr_files(fixtures@, matrices@, library.entries_view(), scene_name@)),
    ensures
        has_duplicate_name(mvr_files(fixtures@, matrices@, library.entries_view(), scene_name@)) ==> r is Err,
        !has_duplicate_name(mvr_files(fixtures@, matrices@, library.entries_view(), scene_name@)) && zip_local_size(
            mvr_files(fixtures@, matrices@, library.entries_view(), scene_name@),
        ) < zip32_limit() ==> r is Ok,
        r matches Ok(bytes) ==> zip_listing(bytes@) == Some(
            mvr_files(fixtures@, matrices@, library.entries_view(), scene_name@).map_values(
                |e: (Seq<char>, Seq<u8>)| e.0,
            ),
        ),
        r matches Ok(bytes) ==> forall|i: int|
            0 <= i < mvr_files(fixtures@, matrices@, library.entries_view(), scene_name@).len() ==> zip_file(
                bytes@,
                (#[trigger] mvr_files(fixtures@, matrices@, library.entries_view(), scene_name@)[i]).0,
            ) == Some(mvr_files(fixtures@, matrices@, library.entries_view(), scene_name@)[i].1),
{
    let entries = collect_gdtf_entries(fixtures, library);
    let xml = build_scene_xml(fixtures, matrices, scene_name, entries.as_slice());
    let ghost files = mvr_files(fixtures@, matrices@, library.entries_view(), scene_name@);
    let ghost fits = !has_duplicate_name(files) && zip_local_size(files) < zip32_limit();
    let mut w = zip_writer_new();
    proof {
        reveal_strlit("GeneralSceneDescription.xml");
        assert(files[0].0 == "GeneralSceneDescription.xml"@);
        assert(vstd::utf8::encode_utf8(files[0].0).len() <= u16::MAX);
        assert(Seq::<(Seq<char>, Seq<u8>)>::empty().push(files[0]) =~= files.take(1));
        lemma_local_size_prefix(files, 1);
    }
    let xml_bytes = xml.as_str().as_bytes();
    proof {
        assert(xml_bytes@ == files[0].1);
        assert(("GeneralSceneDescription.xml"@, xml_bytes@) == files[0]);
        assert(zip_written(w).push(files[0]) =~= files.take(1));
    }
    let res = add_stored_entry(&mut w, "GeneralSceneDescription.xml", xml_bytes);
    match res {
        Ok(()) => {},
        Err(e) => return Err(e),
    }
    proof {
        assert(zip_written(w) =~= files.take(1));
        assert(files =~= seq![files[0]] + entry_views(entries@));
    }
    let mut i: usize = 0;
    while i < entries.len()
        invariant
            i <= entries@.len(),
            files.len() == entries@.len() + 1,
            files == seq![files[0]] + entry_views(entries@),
            names_fit(files),
            files == mvr_files(fixtures@, matrices@, library.entries_view(), scene_name@),
            fits == (!has_duplicate_name(files) && zip_local_size(files) < zip32_limit()),
            zip_intact(w),
            zip_written(w) == files.take(i + 1),
            !has_duplicate_name(files.take(i + 1)),
        decreases entries@.len() - i,
    {
        let ghost before = zip_written(w);
        proof {
            assert(files[i + 1] == (entries@[i as int].0@, entries@[i as int].1@));
            assert(vstd::utf8::encode_utf8(files[i + 1].0).len() <= u16::MAX);
            assert(before.push(files[i + 1]) =~= files.take(i + 2));
            if fits {
                lemma_local_size_prefix(files, i + 2);
                if exists|j: int| 0 <= j < before.len() && (#[trigger] before[j]).0 == files[i + 1].0 {
                    let j = choose|j: int| 0 <= j < before.len() && (#[trigger] before[j]).0 == files[i + 1].0;
                    assert(before[j] == files[j]);
                    assert(has_duplicate_name(files));
                }
            }
        }
        match add_stored_entry(&mut w, entries[i].0.as_str(), entries[i].1.as_slice()) {
            Ok(()) => {},
            Err(e) => return Err(e),
        }
        proof {
            let name = entries@[i as int].0@;
            assert(files[i + 1] == (name, entries@[i as int].1@));
            assert(zip_written(w) =~= files.take(i + 2));
            assert forall|a: int, b: int| 0 <= a < b < files.take(i + 2).len() implies
                (#[trigger] files.take(i + 2)[a]).0 != (#[trigger] files.take(i + 2)[b]).0 by {
                if b < i + 1 {
                    assert(files.take(i + 1)[a] == files.take(i + 2)[a]);
                    assert(files.take(i + 1)[b] == files.take(i + 2)[b]);
                } else {
                    assert(before[a] == files.take(i + 2)[a]);
                }
            }
        }
        i = i + 1;
    }
    proof {
        assert(files.take(i + 1) =~= files);
    }
    match zip_finish(w) {
        Ok(v) => Ok(v),
        Err(e) => Err(ExportError::Zip(e)),
    }
}

// ─── Reading an export back ──────────────────────────────────────────────────

proof fn lemma_split_last_piece(s: Seq<char>, sep: char, t: Seq<char>)
    requires
        forall|i: int| 0 <= i < t.len() ==> t[i] != sep,
    ensures
        split_on(s + seq![sep] + t, sep).last() == t,
    decreases t.len(),
{
    let w = s + seq![sep] + t;
    if t.len() == 0 {
        assert(w.last() == sep);
        assert(t =~= Seq::<char>::empty());
    } else {
        let t0 = t.drop_last();
        assert(forall|i: int| 0 <= i < t0.len() ==> t0[i] == t[i]);
        lemma_split_last_piece(s, sep, t0);
        assert(w.drop_last() =~= s + seq![sep] + t0);
        assert(w.last() == t.last());
        assert(t.last() != sep);
        crate::text::lemma_split_nonempty(w.drop_last(), sep);
        let rest = split_on(w.drop_last(), sep);
        assert(split_on(w, sep) == rest.update(rest.len() - 1, rest.last().push(w.last())));
        assert(t0.push(t.last()) =~= t);
    }
}

/// An embedded GDTF file name is a `.gdtf` entry and not the scene description.
proof fn lemma_gdtf_name(base: Seq<char>)
    ensures
        extension(base + ".gdtf"@) == "gdtf"@,
        !is_scene_entry(base + ".gdtf"@),
{
    reveal_strlit(".gdtf");
    reveal_strlit("gdtf");
    reveal_strlit("GeneralSceneDescription.xml");
    let name = base + ".gdtf"@;
    assert(name =~= base + seq!['.'] + "gdtf"@);
    lemma_split_last_piece(base, '.', "gdtf"@);
    assert(lower("gdtf"@) =~= "gdtf"@);
    let scene = scene_file_name();
    assert(lower(name).len() == name.len());
    assert(lower(scene).len() == scene.len());
    if lower(name).len() == lower(scene).len() {
        assert(lower(name)[name.len() - 1] == lower_char('f'));
        assert(lower(scene)[scene.len() - 1] == lower_char('l'));
        assert(lower(name) != lower(scene));
    }
}

proof fn lemma_embedded_names(fs: Seq<FixtureInstance>, lib: Seq<LibraryEntry>, k: int)
    ensures
        forall|i: int| 0 <= i < embedded_gdtfs(fs, lib, k).len() ==> {
            &&& extension(#[trigger] embedded_gdtfs(fs, lib, k)[i].0) == "gdtf"@
            &&& !is_scene_entry(embedded_gdtfs(fs, lib, k)[i].0)
        },
    decreases k,
{
    if k > 0 {
        lemma_embedded_names(fs, lib, k - 1);
        let f = fs[k - 1];
        let prev = embedded_gdtfs(fs, lib, k - 1);
        let cur = embedded_gdtfs(fs, lib, k);
        lemma_gdtf_name(sanitized(f.fixture_type_id@ + "_"@ + f.dmx_mode@));
        assert forall|i: int| 0 <= i < cur.len() implies {
            &&& extension(#[trigger] cur[i].0) == "gdtf"@
            &&& !is_scene_entry(cur[i].0)
        } by {
            if i < prev.len() {
                assert(cur[i] == prev[i]);
            } else {
                assert(cur[i].0 == gdtf_filename_spec(f.fixture_type_id@, f.dmx_mode@));
            }
        }
    }
}

proof fn lemma_gdtf_prefix(
    bytes: Seq<u8>,
    files: Seq<(Seq<char>, Seq<u8>)>,
    es: Seq<(Seq<char>, Seq<u8>)>,
    names: Seq<Seq<char>>,
    k: int,
)
    requires
        0 <= k <= es.len(),
        files == seq![files[0]] + es,
        is_scene_entry(files[0].0),
        names == files.map_values(|e: (Seq<char>, Seq<u8>)| e.0),
        forall|i: int| 0 <= i < files.len() ==> zip_file(bytes, (#[trigger] files[i]).0) == Some(files[i].1),
        forall|i: int| 0 <= i < es.len() ==> {
            &&& extension(#[trigger] es[i].0) == "gdtf"@
            &&& !is_scene_entry(es[i].0)
        },
    ensures
        mvr_gdtf_files(bytes, names.take(k + 1)) == es.take(k),
    decreases k,
{
    if k == 0 {
        assert(names.take(1).drop_last() =~= Seq::<Seq<char>>::empty());
        assert(names.take(1).last() == files[0].0);
        assert(mvr_gdtf_files(bytes, names.take(1).drop_last()) == Seq::<(Seq<char>, Seq<u8>)>::empty());
        assert(mvr_gdtf_files(bytes, names.take(1)) == Seq::<(Seq<char>, Seq<u8>)>::empty());
        assert(es.take(0) =~= Seq::<(Seq<char>, Seq<u8>)>::empty());
    } else {
        lemma_gdtf_prefix(bytes, files, es, names, k - 1);
        let n = names.take(k + 1);
        assert(n.drop_last() =~= names.take(k));
        assert(files[k] == es[k - 1]);
        assert(n.last() == es[k - 1].0);
        assert(zip_file(bytes, files[k].0) == Some(files[k].1));
        assert(extension(es[k - 1].0) == "gdtf"@);
        assert(!is_scene_entry(es[k - 1].0));
        assert(mvr_gdtf_files(bytes, n.drop_last()) == es.take(k - 1));
        assert(mvr_gdtf_files(bytes, n) == es.take(k - 1).push((n.last(), zip_file(bytes, n.last()).unwrap())));
        assert(es.take(k) =~= es.take(k - 1).push(es[k - 1]));
    }
}

/// An archive that holds the files of an MVR export reads back, as its GDTF
/// files, exactly the files that the export embedded, in order.
pub proof fn law_export_gdtf_round_trip(
    fixtures: Seq<FixtureInstance>,
    matrices: Seq<String>,
    lib: Seq<LibraryEntry>,
    scene_name: Seq<char>,
    bytes: Seq<u8>,
)
    requires
        zip_listing(bytes) == Some(
            mvr_files(fixtures, matrices, lib, scene_name).map_values(|e: (Seq<char>, Seq<u8>)| e.0),
        ),
        forall|i: int|
            0 <= i < mvr_files(fixtures, matrices, lib, scene_name).len() ==> zip_file(
                bytes,
                (#[trigger] mvr_files(fixtures, matrices, lib, scene_name)[i]).0,
            ) == Some(mvr_files(fixtures, matrices, lib, scene_name)[i].1),
    ensures
        mvr_gdtf_files(bytes, zip_listing(bytes).unwrap()) == embedded_gdtfs(fixtures, lib, fixtures.len() as int),
{
    let files = mvr_files(fixtures, matrices, lib, scene_name);
    let es = embedded_gdtfs(fixtures, lib, fixtures.len() as int);
    let names = files.map_values(|e: (Seq<char>, Seq<u8>)| e.0);
    lemma_embedded_names(fixtures, lib, fixtures.len() as int);
    reveal_strlit("GeneralSceneDescription.xml");
    assert(is_scene_entry(files[0].0));
    assert(files =~= seq![files[0]] + es);
    lemma_gdtf_prefix(bytes, files, es, names, es.len() as int);
    assert(names.take(es.len() as int + 1) =~= names);
    assert(es.take(es.len() as int) =~= es);
}

} // verus!
