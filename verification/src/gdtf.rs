//! GDTF fixture-type data: the fields of a description file that drive DMX
//! (offsets, resolutions, defaults, attributes), DMX modes, and the channel
//! map that the projection uses in place of per-tick attribute lookups.
//!
//! The XML is read into the `Xml*` records as plain strings; the conversions
//! here turn them into typed values.
use vstd::prelude::*;
use crate::text::{
    parse_decimal, parse_unsigned, split_char, split_on, str_eq, trim, trimmed,
};

verus! {

/// Pre-computed channel offsets (0-based, from the fixture's base address)
/// for the most common attributes.
#[derive(Debug, Clone, Copy, PartialEq, Eq, Structural)]
pub struct DmxChannelMap {
    pub dimmer: Option<u16>,
    pub pan: Option<u16>,
    pub pan_fine: Option<u16>,
    pub tilt: Option<u16>,
    pub tilt_fine: Option<u16>,
    pub red: Option<u16>,
    pub green: Option<u16>,
    pub blue: Option<u16>,
    pub gobo: Option<u16>,
    pub gobo_rotation: Option<u16>,
    pub color_wheel: Option<u16>,
}

/// The map with no attribute located.
pub open spec fn empty_channel_map() -> DmxChannelMap {
    DmxChannelMap {
        dimmer: None,
        pan: None,
        pan_fine: None,
        tilt: None,
        tilt_fine: None,
        red: None,
        green: None,
        blue: None,
        gobo: None,
        gobo_rotation: None,
        color_wheel: None,
    }
}

impl Default for DmxChannelMap {
    fn default() -> (m: Self)
        ensures
            m == empty_channel_map(),
    {
        DmxChannelMap {
            dimmer: None,
            pan: None,
            pan_fine: None,
            tilt: None,
            tilt_fine: None,
            red: None,
            green: None,
            blue: None,
            gobo: None,
            gobo_rotation: None,
            color_wheel: None,
        }
    }
}

/// How a beam geometry spreads its light.
#[derive(Debug, Clone, Copy, PartialEq, Eq, Structural)]
pub enum BeamType {
    Wash,
    Spot,
    /// Any other `BeamType` value.
    Other,
}

/// The beam type a `BeamType` attribute names: "Spot", "Wash", anything else other.
pub open spec fn beam_type_spec(s: Seq<char>) -> BeamType {
    if s == "Spot"@ {
        BeamType::Spot
    } else if s == "Wash"@ {
        BeamType::Wash
    } else {
        BeamType::Other
    }
}

/// Reads a `BeamType` attribute.
pub fn beam_type_from_name(s: &str) -> (b: BeamType)
    ensures
        b == beam_type_spec(s@),
{
    if str_eq(s, "Spot") {
        BeamType::Spot
    } else if str_eq(s, "Wash") {
        BeamType::Wash
    } else {
        BeamType::Other
    }
}

/// A `<BeamGeometry>` element as written in the description file.
#[derive(Debug)]
pub struct BeamGeometry {
    pub name: String,
    pub beam_angle: String,
    pub field_angle: String,
    pub beam_type: String,
}

/// A `<ChannelFunction>` element as written in the description file.
#[derive(Debug)]
pub struct ChannelFunction {
    pub physical_from: String,
    pub physical_to: String,
}

/// A `<LogicalChannel>` element as written in the description file.
#[derive(Debug)]
pub struct LogicalChannel {
    pub attribute: String,
    pub functions: Vec<ChannelFunction>,
}

/// A `<DMXChannel>` element as written in the description file.
#[derive(Debug)]
pub struct XmlDmxChannel {
    pub offset: String,
    pub default: String,
    pub geometry: String,
    pub logical_channels: Vec<LogicalChannel>,
}

/// A `<DMXMode>` element as written in the description file; `channels` is
/// `None` where the mode has no `<DMXChannels>` element.
#[derive(Debug)]
pub struct XmlDmxMode {
    pub name: String,
    pub geometry: String,
    pub channels: Option<Vec<XmlDmxChannel>>,
}

/// One DMX channel of a mode.
#[derive(Debug)]
pub struct DmxChannel {
    /// 1-based DMX offset from the fixture base address (first byte of a 16-bit channel).
    pub offset: u16,
    /// Number of DMX bytes: 1 = 8-bit, 2 = 16-bit.
    pub resolution: u8,
    /// GDTF attribute name, e.g. "Pan", "Tilt", "Dimmer", "ColorAdd_R".
    pub attribute: String,
    /// Name of the geometry this channel controls.
    pub geometry: String,
    pub default_value: u8,
}

/// A DMX mode: its name, root geometry and channels.
#[derive(Debug)]
pub struct DmxMode {
    pub name: String,
    pub root_geometry: String,
    pub channels: Vec<DmxChannel>,
}

/// The DMX-relevant part of a GDTF fixture type.
#[derive(Debug)]
pub struct GdtfFixtureType {
    pub fixture_type_id: String,
    pub name: String,
    pub short_name: String,
    pub manufacturer: String,
    pub description: String,
    pub dmx_modes: Vec<DmxMode>,
}

// ─── Offsets and defaults ────────────────────────────────────────────────────

/// The offset and byte count that a GDTF `Offset` field gives: the first
/// comma-separated piece, trimmed, as a `u16` (1 where it is not one), and
/// the number of pieces as a `u8` (wrapping), at least 1.
pub open spec fn parse_offset_spec(s: Seq<char>) -> (u16, u8) {
    let parts = split_on(s, ',');
    let offset = match parse_unsigned(trimmed(parts[0]), 65535) {
        Some(v) => v as u16,
        None => 1u16,
    };
    let count = (parts.len() % 256) as u8;
    (offset, if count < 1 { 1u8 } else { count })
}

/// The 8-bit default that a GDTF `Default` field gives: the part before the
/// first `/`, trimmed, as a `u32` (0 where it is not one); for a 16-bit
/// channel its high byte (bits 8 to 15), else the value capped at 255.
pub open spec fn parse_default_value_spec(s: Seq<char>, resolution: u8) -> u8 {
    let value = match parse_unsigned(trimmed(split_on(s, '/')[0]), 0xffff_ffff) {
        Some(v) => v,
        None => 0,
    };
    if resolution >= 2 {
        ((value / 256) % 256) as u8
    } else if value > 255 {
        255u8
    } else {
        value as u8
    }
}

/// Parses a GDTF `Offset` field: "1" is (1, 1 byte), "2,3" is (2, 2 bytes).
pub fn parse_offset(s: &str) -> (r: (u16, u8))
    ensures
        r == parse_offset_spec(s@),
{
    let parts = split_char(s, ',');
    let first = trim(parts[0].as_str());
    let offset: u16 = match parse_decimal(first, 65535) {
        Some(v) => v as u16,
        None => 1,
    };
    let count = (parts.len() % 256) as u8;
    let resolution = if count < 1 {
        1
    } else {
        count
    };
    (offset, resolution)
}

/// Parses a GDTF `Default` field ("128/1", "32768/2") into its 8-bit equivalent.
pub fn parse_default_value(s: &str, resolution: u8) -> (v: u8)
    ensures
        v == parse_default_value_spec(s@, resolution),
{
    let parts = split_char(s, '/');
    let first = trim(parts[0].as_str());
    let value: u32 = match parse_decimal(first, 0xffff_ffff) {
        Some(v) => v,
        None => 0,
    };
    if resolution >= 2 {
        ((value / 256) % 256) as u8
    } else if value > 255 {
        255
    } else {
        value as u8
    }
}

// ─── Conversions ─────────────────────────────────────────────────────────────

/// The attribute a channel element names: that of its first logical channel,
/// or empty.
pub open spec fn channel_attribute(ch: XmlDmxChannel) -> Seq<char> {
    if ch.logical_channels@.len() > 0 {
        ch.logical_channels@[0].attribute@
    } else {
        Seq::empty()
    }
}

/// Whether `c` is what a channel element converts to.
pub open spec fn converts_channel(ch: XmlDmxChannel, c: DmxChannel) -> bool {
    let (offset, resolution) = parse_offset_spec(ch.offset@);
    &&& c.offset == offset
    &&& c.resolution == resolution
    &&& c.default_value == parse_default_value_spec(ch.default@, resolution)
    &&& c.attribute@ == channel_attribute(ch)
    &&& c.geometry@ == ch.geometry@
}

/// Converts a `<DMXChannel>` element into a channel.
pub fn convert_dmx_channel(ch: &XmlDmxChannel) -> (c: DmxChannel)
    ensures
        converts_channel(*ch, c),
{
    let (offset, resolution) = parse_offset(ch.offset.as_str());
    let default_value = parse_default_value(ch.default.as_str(), resolution);
    let attribute = if ch.logical_channels.len() > 0 {
        ch.logical_channels[0].attribute.clone()
    } else {
        String::new()
    };
    DmxChannel { offset, resolution, attribute, geometry: ch.geometry.clone(), default_value }
}

/// The channel elements of a mode element (none without `<DMXChannels>`).
pub open spec fn mode_channels(m: XmlDmxMode) -> Seq<XmlDmxChannel> {
    match m.channels {
        Some(v) => v@,
        None => Seq::empty(),
    }
}

/// Whether `d` is what a mode element converts to.
pub open spec fn converts_mode(m: XmlDmxMode, d: DmxMode) -> bool {
    &&& d.name@ == m.name@
    &&& d.root_geometry@ == m.geometry@
    &&& d.channels@.len() == mode_channels(m).len()
    &&& forall|i: int|
        0 <= i < d.channels@.len() ==> converts_channel(
            #[trigger] mode_channels(m)[i],
            d.channels@[i],
        )
}

/// Converts a `<DMXMode>` element into a mode.
pub fn convert_dmx_mode(m: &XmlDmxMode) -> (d: DmxMode)
    ensures
        converts_mode(*m, d),
{
    let mut channels: Vec<DmxChannel> = Vec::new();
    match &m.channels {
        Some(v) => {
            let mut i: usize = 0;
            while i < v.len()
                invariant
                    m.channels == Some(*v),
                    i <= v@.len(),
                    channels@.len() == i,
                    forall|j: int|
                        0 <= j < i ==> converts_channel(#[trigger] v@[j], channels@[j]),
                decreases v@.len() - i,
            {
                let c = convert_dmx_channel(&v[i]);
                channels.push(c);
                i = i + 1;
            }
        },
        None => {},
    }
    DmxMode { name: m.name.clone(), root_geometry: m.geometry.clone(), channels }
}

// ─── Lookups ─────────────────────────────────────────────────────────────────

/// The position of the first key equal to `k`.
pub open spec fn first_match(keys: Seq<Seq<char>>, k: Seq<char>) -> Option<int>
    decreases keys.len(),
{
    if keys.len() == 0 {
        None
    } else {
        match first_match(keys.drop_last(), k) {
            Some(i) => Some(i),
            None => if keys.last() == k {
                Some(keys.len() - 1)
            } else {
                None
            },
        }
    }
}

proof fn lemma_first_match_none(keys: Seq<Seq<char>>, k: Seq<char>)
    ensures
        first_match(keys, k) is None <==> forall|i: int| 0 <= i < keys.len() ==> keys[i] != k,
    decreases keys.len(),
{
    if keys.len() > 0 {
        lemma_first_match_none(keys.drop_last(), k);
        if first_match(keys, k) is None {
            assert forall|i: int| 0 <= i < keys.len() implies keys[i] != k by {
                if i < keys.len() - 1 {
                    assert(keys.drop_last()[i] == keys[i]);
                }
            }
        } else {
            if forall|i: int| 0 <= i < keys.len() ==> keys[i] != k {
                assert forall|i: int| 0 <= i < keys.drop_last().len() implies keys.drop_last()[i]
                    != k by {
                    assert(keys.drop_last()[i] == keys[i]);
                }
                assert(keys[keys.len() - 1] != k);
            }
        }
    }
}

proof fn lemma_first_match_at(keys: Seq<Seq<char>>, k: Seq<char>, i: int)
    requires
        0 <= i < keys.len(),
        keys[i] == k,
        forall|j: int| 0 <= j < i ==> keys[j] != k,
    ensures
        first_match(keys, k) == Some(i),
    decreases keys.len(),
{
    if i < keys.len() - 1 {
        assert forall|j: int| 0 <= j <= i implies keys.drop_last()[j] == keys[j] by {}
        lemma_first_match_at(keys.drop_last(), k, i);
    } else {
        let p = keys.drop_last();
        assert forall|j: int| 0 <= j < p.len() implies p[j] != k by {
            assert(p[j] == keys[j]);
        }
        lemma_first_match_none(p, k);
    }
}

/// The attributes of a mode's channels, in order.
pub open spec fn attributes(chs: Seq<DmxChannel>) -> Seq<Seq<char>> {
    chs.map_values(|c: DmxChannel| c.attribute@)
}

/// The names of a fixture type's modes, in order.
pub open spec fn mode_names(ms: Seq<DmxMode>) -> Seq<Seq<char>> {
    ms.map_values(|m: DmxMode| m.name@)
}

/// The position of the channel that `channel_for` finds.
pub open spec fn channel_index(m: DmxMode, attribute: Seq<char>) -> Option<int> {
    first_match(attributes(m.channels@), attribute)
}

/// The position of the mode that `find_mode` finds: the first mode where the
/// name is empty, else the first mode of that name.
pub open spec fn mode_index(ms: Seq<DmxMode>, name: Seq<char>) -> Option<int> {
    if name.len() == 0 {
        if ms.len() > 0 {
            Some(0)
        } else {
            None
        }
    } else {
        first_match(mode_names(ms), name)
    }
}

impl DmxMode {
    /// The first channel with the given GDTF attribute name.
    pub fn channel_for(&self, attribute: &str) -> (r: Option<&DmxChannel>)
        ensures
            match channel_index(*self, attribute@) {
                Some(i) => r == Some(&self.channels@[i]),
                None => r is None,
            },
    {
        let ghost keys = attributes(self.channels@);
        let mut i: usize = 0;
        while i < self.channels.len()
            invariant
                keys == attributes(self.channels@),
                i <= self.channels@.len(),
                forall|j: int| 0 <= j < i ==> keys[j] != attribute@,
            decreases self.channels@.len() - i,
        {
            if str_eq(self.channels[i].attribute.as_str(), attribute) {
                proof {
                    lemma_first_match_at(keys, attribute@, i as int);
                }
                return Some(&self.channels[i]);
            }
            i = i + 1;
        }
        proof {
            lemma_first_match_none(keys, attribute@);
        }
        None
    }
}

/// `offset - 1`, or 0 where the offset is 0.
pub open spec fn coarse_slot(offset: u16) -> u16 {
    if offset == 0 {
        0
    } else {
        (offset - 1) as u16
    }
}

/// The 0-based slot of the channel with attribute `a` in mode `m`.
pub open spec fn slot_for(m: DmxMode, a: Seq<char>) -> Option<u16> {
    match channel_index(m, a) {
        Some(i) => Some(coarse_slot(m.channels@[i].offset)),
        None => None,
    }
}

/// The slot of the low byte of a 16-bit channel with attribute `a` in mode `m`.
pub open spec fn fine_slot_for(m: DmxMode, a: Seq<char>) -> Option<u16> {
    match channel_index(m, a) {
        Some(i) => if m.channels@[i].resolution >= 2 {
            Some(m.channels@[i].offset)
        } else {
            None
        },
        None => None,
    }
}

/// The channel map of a mode.
pub open spec fn mode_channel_map(m: DmxMode) -> DmxChannelMap {
    DmxChannelMap {
        dimmer: slot_for(m, "Dimmer"@),
        pan: slot_for(m, "Pan"@),
        pan_fine: fine_slot_for(m, "Pan"@),
        tilt: slot_for(m, "Tilt"@),
        tilt_fine: fine_slot_for(m, "Tilt"@),
        red: slot_for(m, "ColorAdd_R"@),
        green: slot_for(m, "ColorAdd_G"@),
        blue: slot_for(m, "ColorAdd_B"@),
        gobo: None,
        gobo_rotation: None,
        color_wheel: None,
    }
}

fn coarse(c: Option<&DmxChannel>) -> (r: Option<u16>)
    ensures
        r == match c {
            Some(ch) => Some(coarse_slot(ch.offset)),
            None => None::<u16>,
        },
{
    match c {
        Some(ch) => Some(ch.offset.saturating_sub(1)),
        None => None,
    }
}

fn fine(c: Option<&DmxChannel>) -> (r: Option<u16>)
    ensures
        r == match c {
            Some(ch) => if ch.resolution >= 2 {
                Some(ch.offset)
            } else {
                None::<u16>
            },
            None => None::<u16>,
        },
{
    match c {
        Some(ch) => if ch.resolution >= 2 {
            Some(ch.offset)
        } else {
            None
        },
        None => None,
    }
}

impl GdtfFixtureType {
    /// The first DMX mode with the given name, or the first mode where the name is empty.
    pub fn find_mode(&self, name: &str) -> (r: Option<&DmxMode>)
        ensures
            match mode_index(self.dmx_modes@, name@) {
                Some(i) => r == Some(&self.dmx_modes@[i]),
                None => r is None,
            },
    {
        if name.unicode_len() == 0 {
            if self.dmx_modes.len() > 0 {
                return Some(&self.dmx_modes[0]);
            }
            return None;
        }
        let ghost keys = mode_names(self.dmx_modes@);
        let mut i: usize = 0;
        while i < self.dmx_modes.len()
            invariant
                keys == mode_names(self.dmx_modes@),
                name@.len() > 0,
                i <= self.dmx_modes@.len(),
                forall|j: int| 0 <= j < i ==> keys[j] != name@,
            decreases self.dmx_modes@.len() - i,
        {
            if str_eq(self.dmx_modes[i].name.as_str(), name) {
                proof {
                    lemma_first_match_at(keys, name@, i as int);
                }
                return Some(&self.dmx_modes[i]);
            }
            i = i + 1;
        }
        proof {
            lemma_first_match_none(keys, name@);
        }
        None
    }

    /// The channel map of the named mode (the first mode where the name is
    /// empty); no attribute is located where there is no such mode.
    pub fn channel_map(&self, mode_name: &str) -> (map: DmxChannelMap)
        ensures
            map == match mode_index(self.dmx_modes@, mode_name@) {
                Some(i) => mode_channel_map(self.dmx_modes@[i]),
                None => empty_channel_map(),
            },
    {
        let mut map = DmxChannelMap::default();
        let mode = match self.find_mode(mode_name) {
            Some(m) => m,
            None => return map,
        };
        map.dimmer = coarse(mode.channel_for("Dimmer"));
        let pan = mode.channel_for("Pan");
        map.pan = coarse(pan);
        map.pan_fine = fine(pan);
        let tilt = mode.channel_for("Tilt");
        map.tilt = coarse(tilt);
        map.tilt_fine = fine(tilt);
        map.red = coarse(mode.channel_for("ColorAdd_R"));
        map.green = coarse(mode.channel_for("ColorAdd_G"));
        map.blue = coarse(mode.channel_for("ColorAdd_B"));
        map
    }
}

} // verus!
