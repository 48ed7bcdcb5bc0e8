//! MVR (My Virtual Rig, ANSI E1.54) scene descriptions: reading the fixture
//! list of `GeneralSceneDescription.xml` and the fields of each fixture.
//!
//! The XML is tokenised by `quick_xml`; the reading of the scene is a state
//! machine over its events ([`SceneReader::step`]).
use vstd::prelude::*;
use crate::text::{
    decimal, parse_decimal, parse_unsigned, push_decimal, push_str, split_char, split_on, str_eq,
    trim, trimmed,
};
use crate::types::{valid_channel, DmxAddress, FixtureId};

verus! {

// ─── Addresses ───────────────────────────────────────────────────────────────

/// Whether `k` is the position of the first `c` in `s`.
pub open spec fn first_at(s: Seq<char>, c: char, k: int) -> bool {
    0 <= k < s.len() && s[k] == c && forall|j: int| 0 <= j < k ==> s[j] != c
}

/// The (universe, channel) an MVR `Address` text "universe.channel" gives:
/// both parts trimmed decimal `u16`s, the universe non-zero and the channel
/// in 1–512; `None` otherwise.
pub open spec fn parse_address_spec(s: Seq<char>) -> Option<(u16, u16)> {
    let t = trimmed(s);
    if exists|k: int| first_at(t, '.', k) {
        let k = choose|k: int| first_at(t, '.', k);
        let u = parse_unsigned(trimmed(t.subrange(0, k)), 65535);
        let c = parse_unsigned(trimmed(t.subrange(k + 1, t.len() as int)), 65535);
        match (u, c) {
            (Some(u), Some(c)) => if u == 0 || c == 0 || c > 512 {
                None
            } else {
                Some((u as u16, c as u16))
            },
            _ => None,
        }
    } else {
        None
    }
}

/// Parses an MVR address "universe.channel" (both 1-based).
pub fn parse_address(s: &str) -> (r: Option<(u16, u16)>)
    ensures
        r == parse_address_spec(s@),
        r matches Some(a) ==> valid_channel(a.1 as int) && a.0 != 0,
{
    let t = trim(s);
    let n = t.unicode_len();
    let mut k: usize = 0;
    while k < n && t.get_char(k) != '.'
        invariant
            n == t@.len(),
            k <= n,
            forall|j: int| 0 <= j < k ==> t@[j] != '.',
        decreases n - k,
    {
        k = k + 1;
    }
    if k == n {
        assert(!exists|j: int| first_at(t@, '.', j));
        return None;
    }
    proof {
        assert(first_at(t@, '.', k as int));
        let w = choose|j: int| first_at(t@, '.', j);
        assert(w == k) by {
            if w < k {
                assert(t@[w] != '.');
            }
            if k < w {
                assert(t@[k as int] != '.');
            }
        }
    }
    let u = match parse_decimal(trim(t.substring_char(0, k)), 65535) {
        Some(u) => u as u16,
        None => return None,
    };
    let c = match parse_decimal(trim(t.substring_char(k + 1, n)), 65535) {
        Some(c) => c as u16,
        None => return None,
    };
    if u == 0 || c == 0 || c > 512 {
        return None;
    }
    Some((u, c))
}

// ─── Fixture records ─────────────────────────────────────────────────────────

/// What the XML says of one `<Fixture>`, as text.
#[derive(Debug)]
pub struct MvrFixtureData {
    pub name: String,
    pub gdtf_spec: String,
    pub gdtf_mode: String,
    pub fixture_type_id: String,
    pub matrix_str: String,
    pub address_str: String,
}

impl MvrFixtureData {
    /// A record with every field empty.
    pub fn new() -> (d: Self)
        ensures
            d.name@ == Seq::<char>::empty(),
            d.gdtf_spec@ == Seq::<char>::empty(),
            d.gdtf_mode@ == Seq::<char>::empty(),
            d.fixture_type_id@ == Seq::<char>::empty(),
            d.matrix_str@ == Seq::<char>::empty(),
            d.address_str@ == Seq::<char>::empty(),
    {
        MvrFixtureData {
            name: String::new(),
            gdtf_spec: String::new(),
            gdtf_mode: String::new(),
            fixture_type_id: String::new(),
            matrix_str: String::new(),
            address_str: String::new(),
        }
    }
}

/// A fixture of an MVR scene. Its placement stays in the `matrix` text
/// ("{f0,…,f15}", column-major, millimetres), which the renderer reads.
#[derive(Debug)]
pub struct MvrFixture {
    pub id: FixtureId,
    pub name: String,
    pub fixture_type_id: String,
    pub dmx_mode: String,
    pub address: DmxAddress,
    pub matrix: String,
}

/// `s` without every trailing ".gdtf".
pub open spec fn strip_gdtf(s: Seq<char>) -> Seq<char>
    decreases s.len(),
{
    if s.len() >= 5 && s.subrange(s.len() - 5, s.len() as int) == ".gdtf"@ {
        strip_gdtf(s.subrange(0, s.len() - 5))
    } else {
        s
    }
}

/// The fixture-type key of a fixture without a `FixtureTypeId`: the file
/// name of its `GDTFSpec` (after the last `/`) without the ".gdtf" suffix.
pub open spec fn type_id_from_spec(spec: Seq<char>) -> Seq<char> {
    strip_gdtf(split_on(spec, '/').last())
}

/// The name a fixture without one gets: "Fixture N", N its 1-based position.
pub open spec fn default_fixture_name(seq: u32) -> Seq<char> {
    "Fixture "@ + decimal(seq as nat + 1)
}

/// The fields of a fixture record, as text.
pub struct FixtureDataView {
    pub name: Seq<char>,
    pub gdtf_spec: Seq<char>,
    pub gdtf_mode: Seq<char>,
    pub fixture_type_id: Seq<char>,
    pub matrix_str: Seq<char>,
    pub address_str: Seq<char>,
}

impl View for MvrFixtureData {
    type V = FixtureDataView;

    open spec fn view(&self) -> FixtureDataView {
        FixtureDataView {
            name: self.name@,
            gdtf_spec: self.gdtf_spec@,
            gdtf_mode: self.gdtf_mode@,
            fixture_type_id: self.fixture_type_id@,
            matrix_str: self.matrix_str@,
            address_str: self.address_str@,
        }
    }
}

/// A scene fixture, its texts as character sequences.
pub struct MvrFixtureView {
    pub id: FixtureId,
    pub name: Seq<char>,
    pub fixture_type_id: Seq<char>,
    pub dmx_mode: Seq<char>,
    pub address: DmxAddress,
    pub matrix: Seq<char>,
}

impl View for MvrFixture {
    type V = MvrFixtureView;

    open spec fn view(&self) -> MvrFixtureView {
        MvrFixtureView {
            id: self.id,
            name: self.name@,
            fixture_type_id: self.fixture_type_id@,
            dmx_mode: self.dmx_mode@,
            address: self.address,
            matrix: self.matrix@,
        }
    }
}

/// What the record `d` of the fixture at position `seq` converts to: the
/// position as id; "Fixture N" where it has no name; the type id, else the
/// `GDTFSpec` file name without ".gdtf"; "Default" where it has no mode;
/// its address, else 1.1; its matrix text.
pub open spec fn convert_view(d: FixtureDataView, seq: u32) -> MvrFixtureView {
    let (u, c) = match parse_address_spec(d.address_str) {
        Some(a) => a,
        None => (1u16, 1u16),
    };
    MvrFixtureView {
        id: FixtureId(seq),
        name: if d.name.len() == 0 { default_fixture_name(seq) } else { d.name },
        fixture_type_id: if d.fixture_type_id.len() > 0 { d.fixture_type_id } else { type_id_from_spec(d.gdtf_spec) },
        dmx_mode: if d.gdtf_mode.len() == 0 { "Default"@ } else { d.gdtf_mode },
        address: DmxAddress { universe: u, channel: c },
        matrix: d.matrix_str,
    }
}

fn strip_gdtf_suffix(s: &str) -> (r: String)
    ensures
        r@ == strip_gdtf(s@),
{
    let mut end = s.unicode_len();
    let ghost suffix = ".gdtf"@;
    proof {
        reveal_strlit(".gdtf");
        assert(s@.subrange(0, end as int) =~= s@);
    }
    while end >= 5 && str_eq(s.substring_char(end - 5, end), ".gdtf")
        invariant
            end <= s@.len(),
            strip_gdtf(s@) == strip_gdtf(s@.subrange(0, end as int)),
        decreases end,
    {
        proof {
            let t = s@.subrange(0, end as int);
            assert(t.subrange(t.len() - 5, t.len() as int) =~= s@.subrange(end - 5, end as int));
            assert(t.subrange(0, t.len() - 5) =~= s@.subrange(0, end - 5));
        }
        end = end - 5;
    }
    proof {
        let t = s@.subrange(0, end as int);
        if end >= 5 {
            assert(t.subrange(t.len() - 5, t.len() as int) =~= s@.subrange(end - 5, end as int));
        }
    }
    let mut r = String::new();
    push_str(&mut r, s.substring_char(0, end));
    r
}

/// Converts the record of the fixture at position `seq` of the scene.
pub fn convert_fixture(data: MvrFixtureData, seq: u32) -> (f: MvrFixture)
    ensures
        f@ == convert_view(data@, seq),
{
    let fixture_type_id = if data.fixture_type_id.unicode_len() > 0 {
        data.fixture_type_id
    } else {
        let parts = split_char(data.gdtf_spec.as_str(), '/');
        strip_gdtf_suffix(parts[parts.len() - 1].as_str())
    };
    let (universe, channel) = match parse_address(data.address_str.as_str()) {
        Some(a) => a,
        None => (1, 1),
    };
    let name = if data.name.unicode_len() == 0 {
        let mut n = String::new();
        push_str(&mut n, "Fixture ");
        push_decimal(&mut n, seq as u64 + 1);
        n
    } else {
        data.name
    };
    let dmx_mode = if data.gdtf_mode.unicode_len() == 0 {
        let mut m = String::new();
        push_str(&mut m, "Default");
        m
    } else {
        data.gdtf_mode
    };
    MvrFixture {
        id: FixtureId(seq),
        name,
        fixture_type_id,
        dmx_mode,
        address: DmxAddress::new(universe, channel),
        matrix: data.matrix_str,
    }
}

// ─── The scene state machine ─────────────────────────────────────────────────

/// One event of the XML token stream, its names and texts as strings.
#[derive(Debug)]
pub enum XmlEvent {
    /// An opening tag with its attributes (key, raw value) in document order.
    Start { name: String, attributes: Vec<(String, String)> },
    /// Text content, unescaped (empty where it does not unescape).
    Text(String),
    /// A closing tag.
    End { name: String },
    /// The end of the document.
    Eof,
    /// Anything else: declarations, comments, self-closing tags.
    Other,
}

/// An event of the XML token stream, its names and texts as character sequences.
pub enum XmlEventView {
    Start { name: Seq<char>, attributes: Seq<(Seq<char>, Seq<char>)> },
    Text(Seq<char>),
    End { name: Seq<char> },
    Eof,
    Other,
}

/// The views of attribute pairs.
pub open spec fn attribute_views(attrs: Seq<(String, String)>) -> Seq<(Seq<char>, Seq<char>)> {
    attrs.map_values(|a: (String, String)| (a.0@, a.1@))
}

impl View for XmlEvent {
    type V = XmlEventView;

    open spec fn view(&self) -> XmlEventView {
        match self {
            XmlEvent::Start { name, attributes } => XmlEventView::Start { name: name@, attributes: attribute_views(attributes@) },
            XmlEvent::Text(t) => XmlEventView::Text(t@),
            XmlEvent::End { name } => XmlEventView::End { name: name@ },
            XmlEvent::Eof => XmlEventView::Eof,
            XmlEvent::Other => XmlEventView::Other,
        }
    }
}

/// Which field of the open fixture the next text goes to.
#[derive(Debug, Clone, Copy, PartialEq, Eq, Structural)]
pub enum TextTarget {
    Nothing,
    GdtfSpec,
    GdtfMode,
    FixtureTypeId,
    Matrix,
    Address,
}

/// The target that opening tag `name` selects inside a fixture, if any.
pub open spec fn target_of(name: Seq<char>) -> Option<TextTarget> {
    if name == "GDTFSpec"@ {
        Some(TextTarget::GdtfSpec)
    } else if name == "GDTFMode"@ {
        Some(TextTarget::GdtfMode)
    } else if name == "FixtureTypeId"@ {
        Some(TextTarget::FixtureTypeId)
    } else if name == "Matrix"@ {
        Some(TextTarget::Matrix)
    } else if name == "Address"@ {
        Some(TextTarget::Address)
    } else {
        None
    }
}

fn target_for(name: &str) -> (t: Option<TextTarget>)
    ensures
        t == target_of(name@),
{
    if str_eq(name, "GDTFSpec") {
        Some(TextTarget::GdtfSpec)
    } else if str_eq(name, "GDTFMode") {
        Some(TextTarget::GdtfMode)
    } else if str_eq(name, "FixtureTypeId") {
        Some(TextTarget::FixtureTypeId)
    } else if str_eq(name, "Matrix") {
        Some(TextTarget::Matrix)
    } else if str_eq(name, "Address") {
        Some(TextTarget::Address)
    } else {
        None
    }
}

/// The fixture name among a `<Fixture>` tag's attributes: the value of the
/// last `name` or `Name` attribute, or empty.
pub open spec fn fixture_name_attr(attrs: Seq<(Seq<char>, Seq<char>)>) -> Seq<char>
    decreases attrs.len(),
{
    if attrs.len() == 0 {
        Seq::empty()
    } else {
        let a = attrs.last();
        if a.0 == "name"@ || a.0 == "Name"@ {
            a.1
        } else {
            fixture_name_attr(attrs.drop_last())
        }
    }
}

/// The reading of a scene in progress.
pub struct SceneReader {
    /// The fixtures read so far.
    pub instances: Vec<MvrFixture>,
    /// The fixture whose `<Fixture>` element is open.
    pub current: Option<MvrFixtureData>,
    pub target: TextTarget,
    /// Nesting depth inside the open fixture.
    pub fixture_depth: u32,
}

/// The reading of a scene, its texts as character sequences.
pub struct SceneView {
    pub instances: Seq<MvrFixtureView>,
    pub current: Option<FixtureDataView>,
    pub target: TextTarget,
    pub fixture_depth: u32,
}

impl View for SceneReader {
    type V = SceneView;

    open spec fn view(&self) -> SceneView {
        SceneView {
            instances: self.instances@.map_values(|f: MvrFixture| f@),
            current: match self.current {
                Some(d) => Some(d@),
                None => None,
            },
            target: self.target,
            fixture_depth: self.fixture_depth,
        }
    }
}

/// The record `d` with the field that `t` selects set to `text`.
pub open spec fn set_field(d: FixtureDataView, t: TextTarget, text: Seq<char>) -> FixtureDataView {
    match t {
        TextTarget::GdtfSpec => FixtureDataView { gdtf_spec: text, ..d },
        TextTarget::GdtfMode => FixtureDataView { gdtf_mode: text, ..d },
        TextTarget::FixtureTypeId => FixtureDataView { fixture_type_id: text, ..d },
        TextTarget::Matrix => FixtureDataView { matrix_str: text, ..d },
        TextTarget::Address => FixtureDataView { address_str: text, ..d },
        TextTarget::Nothing => d,
    }
}

/// A fresh record named `name`.
pub open spec fn named_record(name: Seq<char>) -> FixtureDataView {
    FixtureDataView {
        name,
        gdtf_spec: Seq::empty(),
        gdtf_mode: Seq::empty(),
        fixture_type_id: Seq::empty(),
        matrix_str: Seq::empty(),
        address_str: Seq::empty(),
    }
}

/// The reading after one event.
///
/// An opening `<Fixture>` starts a new record (named by its `name`
/// attribute); inside a fixture, `<GDTFSpec>`, `<GDTFMode>`,
/// `<FixtureTypeId>`, `<Matrix>` and `<Address>` direct the next text to
/// that field, and other tags nest one level deeper; a closing
/// `</Fixture>` converts the record and appends it. Every closing tag ends
/// the text target.
pub open spec fn scene_step(st: SceneView, ev: XmlEventView) -> SceneView {
    match ev {
        XmlEventView::Start { name, attributes } => if name == "Fixture"@ {
            SceneView { current: Some(named_record(fixture_name_attr(attributes))), fixture_depth: 1, ..st }
        } else if st.current is Some && target_of(name) is Some {
            SceneView { target: target_of(name).unwrap(), ..st }
        } else if st.current is Some {
            SceneView {
                fixture_depth: if st.fixture_depth == u32::MAX { u32::MAX } else { (st.fixture_depth + 1) as u32 },
                ..st
            }
        } else {
            st
        },
        XmlEventView::Text(t) => match st.current {
            Some(d) => SceneView { current: Some(set_field(d, st.target, t)), ..st },
            None => st,
        },
        XmlEventView::End { name } => if name == "Fixture"@ {
            SceneView {
                instances: match st.current {
                    Some(d) => st.instances.push(convert_view(d, st.instances.len() as u32)),
                    None => st.instances,
                },
                current: None,
                target: TextTarget::Nothing,
                fixture_depth: 0,
            }
        } else if st.current is Some {
            SceneView {
                target: TextTarget::Nothing,
                fixture_depth: if st.fixture_depth == 0 { 0 } else { (st.fixture_depth - 1) as u32 },
                ..st
            }
        } else {
            SceneView { target: TextTarget::Nothing, ..st }
        },
        _ => st,
    }
}

impl SceneReader {
    /// A reader before the first event.
    pub fn new() -> (r: Self)
        ensures
            r@ == scene_start(),
    {
        let r = SceneReader { instances: Vec::new(), current: None, target: TextTarget::Nothing, fixture_depth: 0 };
        assert(r@.instances =~= Seq::<MvrFixtureView>::empty());
        r
    }

    /// Takes one event of the XML stream into account (see [`scene_step`]).
    pub fn step(&mut self, ev: &XmlEvent)
        ensures
            final(self)@ == scene_step(old(self)@, ev@),
    {
        match ev {
            XmlEvent::Start { name, attributes } => {
                if str_eq(name.as_str(), "Fixture") {
                    let mut data = MvrFixtureData::new();
                    let mut i: usize = 0;
                    while i < attributes.len()
                        invariant
                            i <= attributes@.len(),
                            data.name@ == fixture_name_attr(attribute_views(attributes@).take(i as int)),
                            data.gdtf_spec@.len() == 0,
                            data.gdtf_mode@.len() == 0,
                            data.fixture_type_id@.len() == 0,
                            data.matrix_str@.len() == 0,
                            data.address_str@.len() == 0,
                        decreases attributes@.len() - i,
                    {
                        proof {
                            let av = attribute_views(attributes@);
                            assert(av.take(i + 1).drop_last() =~= av.take(i as int));
                            assert(av.take(i + 1).last() == (attributes@[i as int].0@, attributes@[i as int].1@));
                        }
                        let (key, value) = &attributes[i];
                        if str_eq(key.as_str(), "name") || str_eq(key.as_str(), "Name") {
                            data.name = value.clone();
                        }
                        i = i + 1;
                    }
                    assert(attribute_views(attributes@).take(attributes@.len() as int) =~= attribute_views(attributes@));
                    assert(data.gdtf_spec@ =~= Seq::<char>::empty());
                    assert(data.gdtf_mode@ =~= Seq::<char>::empty());
                    assert(data.fixture_type_id@ =~= Seq::<char>::empty());
                    assert(data.matrix_str@ =~= Seq::<char>::empty());
                    assert(data.address_str@ =~= Seq::<char>::empty());
                    self.current = Some(data);
                    self.fixture_depth = 1;
                } else {
                    let t = target_for(name.as_str());
                    match t {
                        Some(tt) if self.current.is_some() => {
                            self.target = tt;
                        },
                        _ => {
                            if self.current.is_some() {
                                self.fixture_depth = self.fixture_depth.saturating_add(1);
                            }
                        },
                    }
                }
            },
            XmlEvent::Text(t) => {
                let mut taken: Option<MvrFixtureData> = None;
                std::mem::swap(&mut taken, &mut self.current);
                match taken {
                    Some(mut data) => {
                        let text = t.clone();
                        match self.target {
                            TextTarget::GdtfSpec => data.gdtf_spec = text,
                            TextTarget::GdtfMode => data.gdtf_mode = text,
                            TextTarget::FixtureTypeId => data.fixture_type_id = text,
                            TextTarget::Matrix => data.matrix_str = text,
                            TextTarget::Address => data.address_str = text,
                            TextTarget::Nothing => {},
                        }
                        self.current = Some(data);
                    },
                    None => {},
                }
            },
            XmlEvent::End { name } => {
                self.target = TextTarget::Nothing;
                if str_eq(name.as_str(), "Fixture") {
                    let mut taken: Option<MvrFixtureData> = None;
                    std::mem::swap(&mut taken, &mut self.current);
                    match taken {
                        Some(data) => {
                            let seq = self.instances.len() as u32;
                            let ghost before = self.instances@;
                            let inst = convert_fixture(data, seq);
                            self.instances.push(inst);
                            assert(self.instances@.map_values(|f: MvrFixture| f@) =~= before.map_values(
                                |f: MvrFixture| f@,
                            ).push(inst@));
                        },
                        None => {},
                    }
                    self.fixture_depth = 0;
                } else if self.current.is_some() {
                    self.fixture_depth = self.fixture_depth.saturating_sub(1);
                }
            },
            _ => {},
        }
    }
}

// ─── Tokenising with quick_xml ───────────────────────────────────────────────

#[verifier::external_type_specification]
#[verifier::external_body]
#[verifier::reject_recursive_types(R)]
pub struct ExXmlReader<R>(quick_xml::Reader<R>);

#[verifier::external_type_specification]
#[verifier::external_body]
pub struct ExXmlError(quick_xml::Error);

/// Why a scene description could not be read.
#[derive(Debug)]
pub enum SceneError {
    /// The XML tokeniser reported an error.
    Xml(quick_xml::Error),
}

/// The `k`-th event (counting from 0) that a `quick_xml` reader over
/// `text`, trimming whitespace around text, reports, as [`next_event`]
/// converts it; `None` where that read reports an error.
pub uninterp spec fn xml_token(text: Seq<char>, k: nat) -> Option<XmlEventView>;

/// The text that a reader reads.
pub uninterp spec fn xml_reader_text(r: quick_xml::Reader<&[u8]>) -> Seq<char>;

/// How many reads a reader has answered.
pub uninterp spec fn xml_reader_reads(r: quick_xml::Reader<&[u8]>) -> nat;

/// A `quick_xml` reader over `xml` that trims whitespace around text.
///
/// Trusted: calls `quick_xml::Reader::from_str` and sets the `trim_text`
/// option; the reader reads `xml` and has answered no read yet.
#[verifier::external_body]
fn xml_reader<'a>(xml: &'a str) -> (r: quick_xml::Reader<&'a [u8]>)
    ensures
        xml_reader_text(r) == xml@,
        xml_reader_reads(r) == 0,
{
    let mut r = quick_xml::Reader::from_str(xml);
    r.config_mut().trim_text(true);
    r
}

/// The next event of `reader`, with names and attribute values decoded
/// lossily as UTF-8 and text unescaped (empty where unescaping fails).
///
/// Trusted: calls `quick_xml::Reader::read_event_into` with an empty
/// buffer. What the `k`-th read of a reader over a text reports depends on
/// that text alone: it is named [`xml_token`].
#[verifier::external_body]
fn next_event(reader: &mut quick_xml::Reader<&[u8]>, buf: &mut Vec<u8>) -> (r: Result<XmlEvent, quick_xml::Error>)
    requires
        old(buf)@.len() == 0,
    ensures
        xml_reader_text(*final(reader)) == xml_reader_text(*old(reader)),
        xml_reader_reads(*final(reader)) == xml_reader_reads(*old(reader)) + 1,
        match r {
            Ok(ev) => xml_token(xml_reader_text(*old(reader)), xml_reader_reads(*old(reader))) == Some(ev@),
            Err(_) => xml_token(xml_reader_text(*old(reader)), xml_reader_reads(*old(reader))) is None,
        },
{
    let lossy = |b: &[u8]| String::from_utf8_lossy(b).into_owned();
    Ok(match reader.read_event_into(buf)? {
        quick_xml::events::Event::Start(e) => XmlEvent::Start {
            name: lossy(e.name().as_ref()),
            attributes: e.attributes().flatten().map(|a| (lossy(a.key.as_ref()), lossy(&a.value))).collect(),
        },
        quick_xml::events::Event::Text(e) => XmlEvent::Text(e.unescape().map(|s| s.into_owned()).unwrap_or_default()),
        quick_xml::events::Event::End(e) => XmlEvent::End { name: lossy(e.name().as_ref()) },
        quick_xml::events::Event::Eof => XmlEvent::Eof,
        _ => XmlEvent::Other,
    })
}

/// The reading before any event.
pub open spec fn scene_start() -> SceneView {
    SceneView { instances: Seq::empty(), current: None, target: TextTarget::Nothing, fixture_depth: 0 }
}

/// The reading of `text` from its `k`-th event on, taking at most `fuel`
/// more events: `None` where a read reports an error, else the reading at
/// the end of the document or when the fuel runs out.
pub open spec fn scene_run(text: Seq<char>, st: SceneView, k: nat, fuel: nat) -> Option<SceneView>
    decreases fuel,
{
    match xml_token(text, k) {
        None => None,
        Some(XmlEventView::Eof) => Some(st),
        Some(ev) => if fuel == 0 {
            Some(st)
        } else {
            scene_run(text, scene_step(st, ev), k + 1, (fuel - 1) as nat)
        },
    }
}

/// The reading of a whole scene description. The reader yields at most
/// one event per input byte before the end of the document, so at most as
/// many events as the text has UTF-8 bytes are taken.
pub open spec fn scene_of_text(text: Seq<char>) -> Option<SceneView> {
    scene_run(text, scene_start(), 0, vstd::utf8::encode_utf8(text).len())
}

/// Reads the fixtures of a `GeneralSceneDescription.xml`: the fixtures of
/// the reading of its events.
pub fn parse_scene_xml(xml: &str) -> (r: Result<Vec<MvrFixture>, SceneError>)
    ensures
        match r {
            Ok(v) => scene_of_text(xml@) matches Some(st) && v@.map_values(|f: MvrFixture| f@) == st.instances,
            Err(_) => scene_of_text(xml@) is None,
        },
{
    let mut reader = xml_reader(xml);
    let mut buf: Vec<u8> = Vec::new();
    let mut scene = SceneReader::new();
    let mut fuel: usize = xml.as_bytes().len();
    let ghost total = scene_of_text(xml@);
    loop
        invariant_except_break
            xml_reader_text(reader) == xml@,
            total == scene_run(xml@, scene@, xml_reader_reads(reader), fuel as nat),
        invariant
            total == scene_of_text(xml@),
        ensures
            total == Some(scene@),
        decreases fuel,
    {
        buf.clear();
        let ghost k = xml_reader_reads(reader);
        let ev = match next_event(&mut reader, &mut buf) {
            Ok(ev) => ev,
            Err(e) => return Err(SceneError::Xml(e)),
        };
        if let XmlEvent::Eof = ev {
            break;
        }
        if fuel == 0 {
            break;
        }
        scene.step(&ev);
        fuel = fuel - 1;
    }
    Ok(scene.instances)
}

/// Whether each fixture of a reading has its position as its id and a
/// valid DMX channel.
pub open spec fn ids_are_positions(st: SceneView) -> bool {
    forall|i: int|
        0 <= i < st.instances.len() ==> (#[trigger] st.instances[i]).id == FixtureId(i as u32)
            && valid_channel(st.instances[i].address.channel as int)
}

proof fn lemma_step_keeps_ids(st: SceneView, ev: XmlEventView)
    requires
        ids_are_positions(st),
    ensures
        ids_are_positions(scene_step(st, ev)),
{
    let next = scene_step(st, ev);
    if next.instances.len() > st.instances.len() {
        let d = st.current.unwrap();
        assert(next.instances == st.instances.push(convert_view(d, st.instances.len() as u32)));
        assert forall|i: int| 0 <= i < next.instances.len() implies (#[trigger] next.instances[i]).id == FixtureId(i as u32)
            && valid_channel(next.instances[i].address.channel as int) by {
            if i < st.instances.len() {
                assert(next.instances[i] == st.instances[i]);
            }
        }
    }
}

proof fn lemma_run_keeps_ids(text: Seq<char>, st: SceneView, k: nat, fuel: nat)
    requires
        ids_are_positions(st),
    ensures
        scene_run(text, st, k, fuel) matches Some(end) ==> ids_are_positions(end),
    decreases fuel,
{
    match xml_token(text, k) {
        Some(ev) => if fuel > 0 && ev != XmlEventView::Eof {
            lemma_step_keeps_ids(st, ev);
            lemma_run_keeps_ids(text, scene_step(st, ev), k + 1, (fuel - 1) as nat);
        },
        None => {},
    }
}

/// The fixtures of a scene description come in document order, each with
/// its position as its id and a valid DMX address.
pub proof fn law_scene_fixture_ids(text: Seq<char>)
    ensures
        scene_of_text(text) matches Some(st) ==> ids_are_positions(st),
{
    lemma_run_keeps_ids(text, scene_start(), 0, vstd::utf8::encode_utf8(text).len());
}

} // verus!
