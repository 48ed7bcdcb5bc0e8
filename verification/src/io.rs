//! The decisions of the I/O transports: when to bind, start and stop the
//! Art-Net, sACN, OSC, USB and MIDI links, how a send outcome updates the
//! statistics, and how OSC addresses and MIDI control changes are routed.
//!
//! The sockets, threads and devices themselves are driven by the caller,
//! which performs each decided action and reports its outcome back.
use vstd::prelude::*;
use crate::gdtf::DmxChannelMap;
use crate::text::{decimal, parse_decimal, parse_unsigned, split_char, split_on, str_eq, trim, trimmed};
use crate::artnet::ArtNetTxCmd;
use crate::engine::{DmxEngine, DmxSource, MergeStrategy};
use crate::sacn::SacnTxCmd;
use crate::usb::UsbTxCmd;
use crate::patch::{FixtureInstance, Patch};
use crate::types::FixtureId;
use crate::universe::{blackout, contents, with_channel, DmxBuffer, UniverseSet};

verus! {

// ─── Status ──────────────────────────────────────────────────────────────────

/// The state of a protocol link, as the I/O panel shows it.
#[derive(Debug, Clone, Copy, PartialEq, Eq, Structural)]
pub enum ProtocolStatus {
    Idle,
    Live,
    Warn,
    Error,
}

impl Default for ProtocolStatus {
    fn default() -> (s: Self)
        ensures
            s == ProtocolStatus::Idle,
    {
        ProtocolStatus::Idle
    }
}

/// The status dot of a panel row.
#[derive(Debug, Clone, Copy, PartialEq, Eq, Structural)]
pub enum DotState {
    Live,
    Tx,
    Warn,
    Idle,
    Error,
}

impl DotState {
    /// Whether the dot is drawn with a glow (receiving or transmitting).
    pub fn glows(self) -> (b: bool)
        ensures
            b == (self == DotState::Live || self == DotState::Tx),
    {
        match self {
            DotState::Live => true,
            DotState::Tx => true,
            _ => false,
        }
    }
}

/// The dot that shows a protocol status.
pub fn status_to_dot(s: ProtocolStatus) -> (d: DotState)
    ensures
        d == match s {
            ProtocolStatus::Live => DotState::Live,
            ProtocolStatus::Warn => DotState::Warn,
            ProtocolStatus::Error => DotState::Error,
            ProtocolStatus::Idle => DotState::Idle,
        },
{
    match s {
        ProtocolStatus::Live => DotState::Live,
        ProtocolStatus::Warn => DotState::Warn,
        ProtocolStatus::Error => DotState::Error,
        ProtocolStatus::Idle => DotState::Idle,
    }
}

#[verifier::external_type_specification]
#[verifier::external_body]
pub struct ExStdIoError(std::io::Error);

/// Errors of the I/O layer.
#[derive(Debug)]
pub enum IoError {
    /// A socket or device call failed.
    Network(std::io::Error),
    /// A packet could not be decoded.
    InvalidPacket,
    /// No device of that name.
    DeviceNotFound(String),
}

// ─── Link lifetimes ──────────────────────────────────────────────────────────

/// What a frame does with a link that is opened and closed on demand.
#[derive(Debug, Clone, Copy, PartialEq, Eq, Structural)]
pub enum LinkAction {
    Open,
    Close,
    Keep,
}

/// The action for a link that is wanted or not and is open or not.
pub open spec fn link_action_spec(wanted: bool, open: bool) -> LinkAction {
    if wanted && !open {
        LinkAction::Open
    } else if !wanted && open {
        LinkAction::Close
    } else {
        LinkAction::Keep
    }
}

/// Opens a wanted link that is closed, closes an unwanted one that is open.
pub fn link_action(wanted: bool, open: bool) -> (a: LinkAction)
    ensures
        a == link_action_spec(wanted, open),
{
    if wanted && !open {
        LinkAction::Open
    } else if !wanted && open {
        LinkAction::Close
    } else {
        LinkAction::Keep
    }
}

/// The status after trying to open a link: live where it opened, error where not.
pub fn status_after_open(opened: bool) -> (s: ProtocolStatus)
    ensures
        s == (if opened { ProtocolStatus::Live } else { ProtocolStatus::Error }),
{
    if opened {
        ProtocolStatus::Live
    } else {
        ProtocolStatus::Error
    }
}

/// Whether a socket bind is attempted this frame: the socket is wanted and
/// missing, and the last attempt is at least one second old (or there was none).
pub fn should_bind(wanted: bool, socket_open: bool, retry_due: bool) -> (b: bool)
    ensures
        b == (wanted && !socket_open && retry_due),
{
    wanted && !socket_open && retry_due
}

/// The drop count to publish to the supervisor: the local one where it is higher.
pub fn drops_to_publish(local: u64, global: u64) -> (r: Option<u64>)
    ensures
        r == (if local > global { Some(local) } else { None::<u64> }),
{
    if local > global {
        Some(local)
    } else {
        None
    }
}

/// The drop count an overflow warning reports: the current one where it grew.
pub fn overflow_warning(current: u64, last_seen: u64) -> (r: Option<u64>)
    ensures
        r == (if current > last_seen { Some(current) } else { None::<u64> }),
{
    if current > last_seen {
        Some(current)
    } else {
        None
    }
}

/// What the ArtPoll timer does this frame.
#[derive(Debug, Clone, Copy, PartialEq, Eq, Structural)]
pub enum PollAction {
    /// Discovery is off or the interval has not passed.
    Skip,
    /// Note the time; there is no socket to send from.
    MarkOnly,
    /// Note the time and broadcast an ArtPoll.
    MarkAndSend,
}

/// The thread and poll decisions of one Art-Net frame, after any bind.
#[derive(Debug, Clone, Copy, PartialEq, Eq, Structural)]
pub struct ArtNetPlan {
    pub start_rx: bool,
    pub stop_rx: bool,
    pub start_tx: bool,
    pub stop_tx: bool,
    pub poll: PollAction,
}

/// Plans an Art-Net frame: receive runs while enabled and a socket exists,
/// transmit runs while a socket exists, and discovery polls every interval.
pub fn artnet_plan(
    socket_open: bool,
    rx_running: bool,
    tx_running: bool,
    rx_enabled: bool,
    discovery_enabled: bool,
    poll_due: bool,
) -> (p: ArtNetPlan)
    ensures
        p.start_rx == (rx_enabled && !rx_running && socket_open),
        p.stop_rx == (!rx_enabled && rx_running),
        p.start_tx == (socket_open && !tx_running),
        p.stop_tx == (!socket_open && tx_running),
        p.poll == (if discovery_enabled && poll_due {
            if socket_open { PollAction::MarkAndSend } else { PollAction::MarkOnly }
        } else {
            PollAction::Skip
        }),
{
    let poll = if discovery_enabled && poll_due {
        if socket_open {
            PollAction::MarkAndSend
        } else {
            PollAction::MarkOnly
        }
    } else {
        PollAction::Skip
    };
    ArtNetPlan {
        start_rx: rx_enabled && !rx_running && socket_open,
        stop_rx: !rx_enabled && rx_running,
        start_tx: socket_open && !tx_running,
        stop_tx: !socket_open && tx_running,
        poll,
    }
}

/// The thread decisions of one sACN frame, after any bind.
#[derive(Debug, Clone, Copy, PartialEq, Eq, Structural)]
pub struct SacnPlan {
    /// The universe whose multicast group to join, if any.
    pub join_universe: Option<u16>,
    pub start_rx: bool,
    pub stop_rx: bool,
    pub start_tx: bool,
    pub stop_tx: bool,
    /// Stop both threads and drop the socket: neither direction is enabled.
    pub release: bool,
}

/// The universe sACN receives: the configured one, or the output universe
/// where that is 0.
pub fn sacn_rx_universe(rx_universe: u16, out_universe: u16) -> (u: u16)
    ensures
        u == (if rx_universe == 0 { out_universe } else { rx_universe }),
{
    if rx_universe == 0 {
        out_universe
    } else {
        rx_universe
    }
}

/// Plans an sACN frame: the socket is held while either direction is
/// enabled; receive joins its universe's multicast group.
pub fn sacn_plan(
    socket_open: bool,
    rx_running: bool,
    tx_running: bool,
    tx_enabled: bool,
    rx_enabled: bool,
    rx_universe: u16,
    out_universe: u16,
) -> (p: SacnPlan)
    ensures
        p.join_universe == (if rx_enabled && socket_open && (if rx_universe == 0 {
            out_universe
        } else {
            rx_universe
        }) > 0 {
            Some(if rx_universe == 0 { out_universe } else { rx_universe })
        } else {
            None::<u16>
        }),
        p.start_rx == (rx_enabled && !rx_running && socket_open),
        p.stop_rx == (!rx_enabled && rx_running),
        p.start_tx == (tx_enabled && socket_open && !tx_running),
        p.stop_tx == (!tx_enabled && tx_running),
        p.release == (!tx_enabled && !rx_enabled && socket_open),
{
    let uni = sacn_rx_universe(rx_universe, out_universe);
    let join_universe = if rx_enabled && socket_open && uni > 0 {
        Some(uni)
    } else {
        None
    };
    SacnPlan {
        join_universe,
        start_rx: rx_enabled && !rx_running && socket_open,
        stop_rx: !rx_enabled && rx_running,
        start_tx: tx_enabled && socket_open && !tx_running,
        stop_tx: !tx_enabled && tx_running,
        release: !tx_enabled && !rx_enabled && socket_open,
    }
}

/// What one USB frame does with the serial device.
#[derive(Debug, Clone, Copy, PartialEq, Eq, Structural)]
pub enum UsbPlan {
    /// Transmit is enabled but no port is configured: warn and do nothing else.
    NoPort,
    Start,
    Stop,
    Keep,
}

/// Plans a USB frame from the configured port (before trimming).
pub fn usb_plan(tx_enabled: bool, running: bool, port: &str) -> (p: UsbPlan)
    ensures
        p == (if tx_enabled && !running {
            if trimmed(port@).len() == 0 { UsbPlan::NoPort } else { UsbPlan::Start }
        } else if !tx_enabled && running {
            UsbPlan::Stop
        } else {
            UsbPlan::Keep
        }),
{
    if tx_enabled && !running {
        if trim(port).unicode_len() == 0 {
            UsbPlan::NoPort
        } else {
            UsbPlan::Start
        }
    } else if !tx_enabled && running {
        UsbPlan::Stop
    } else {
        UsbPlan::Keep
    }
}

/// Whether the MIDI input is wanted: enabled, with a port name that is not blank.
pub fn midi_wants_open(enabled: bool, port: &str) -> (b: bool)
    ensures
        b == (enabled && trimmed(port@).len() > 0),
{
    enabled && trim(port).unicode_len() > 0
}

/// The pieces of an allowlist text, split at commas and trimmed; the caller
/// keeps those that are IP addresses.
pub fn allowlist_tokens(s: &str) -> (r: Vec<String>)
    ensures
        r@.len() == split_on(s@, ',').len(),
        forall|i: int| 0 <= i < r@.len() ==> (#[trigger] r@[i])@ == trimmed(split_on(s@, ',')[i]),
{
    let parts = split_char(s, ',');
    let mut out: Vec<String> = Vec::new();
    let mut i: usize = 0;
    while i < parts.len()
        invariant
            parts@.len() == split_on(s@, ',').len(),
            forall|j: int| 0 <= j < parts@.len() ==> #[trigger] parts@[j]@ == split_on(s@, ',')[j],
            i <= parts@.len(),
            out@.len() == i,
            forall|j: int| 0 <= j < i ==> (#[trigger] out@[j])@ == trimmed(split_on(s@, ',')[j]),
        decreases parts@.len() - i,
    {
        let t = trim(parts[i].as_str());
        let mut piece = String::new();
        crate::text::push_str(&mut piece, t);
        out.push(piece);
        i = i + 1;
    }
    out
}

// ─── Sending ─────────────────────────────────────────────────────────────────

/// What happened to a frame handed to a transmit thread.
#[derive(Debug, Clone, Copy, PartialEq, Eq, Structural)]
pub enum SendOutcome {
    Sent,
    /// The queue was full; the frame was dropped.
    Full,
    /// The thread is gone.
    Disconnected,
}

/// Transmit counters of a link.
#[derive(Debug, Clone, Copy, PartialEq, Eq, Structural)]
pub struct TxStats {
    pub tx_count: u64,
    pub status: ProtocolStatus,
}

/// Counts a send: a sent frame is counted (saturating) and makes the link
/// live, a full queue changes nothing, a lost thread is an error.
pub fn record_send(stats: &mut TxStats, outcome: SendOutcome)
    ensures
        final(stats).tx_count == (if outcome == SendOutcome::Sent {
            if old(stats).tx_count == u64::MAX { u64::MAX } else { (old(stats).tx_count + 1) as u64 }
        } else {
            old(stats).tx_count
        }),
        final(stats).status == match outcome {
            SendOutcome::Sent => ProtocolStatus::Live,
            SendOutcome::Full => old(stats).status,
            SendOutcome::Disconnected => ProtocolStatus::Error,
        },
{
    match outcome {
        SendOutcome::Sent => {
            stats.tx_count = stats.tx_count.saturating_add(1);
            stats.status = ProtocolStatus::Live;
        },
        SendOutcome::Full => {},
        SendOutcome::Disconnected => {
            stats.status = ProtocolStatus::Error;
        },
    }
}

// ─── OSC routing ─────────────────────────────────────────────────────────────

/// `s` without its leading `c` characters.
pub open spec fn strip_leading(s: Seq<char>, c: char) -> Seq<char>
    decreases s.len(),
{
    if s.len() > 0 && s[0] == c {
        strip_leading(s.drop_first(), c)
    } else {
        s
    }
}

/// The attribute an OSC fixture address names.
#[derive(Debug, Clone, Copy, PartialEq, Eq, Structural)]
pub enum OscAttr {
    Color,
    Dimmer,
    Pan,
    Tilt,
    Red,
    Green,
    Blue,
    /// Not an attribute the receiver handles.
    Unknown,
}

/// The attribute a path segment names.
pub open spec fn osc_attr_spec(s: Seq<char>) -> OscAttr {
    if s == "color"@ {
        OscAttr::Color
    } else if s == "dimmer"@ {
        OscAttr::Dimmer
    } else if s == "pan"@ {
        OscAttr::Pan
    } else if s == "tilt"@ {
        OscAttr::Tilt
    } else if s == "red"@ {
        OscAttr::Red
    } else if s == "green"@ {
        OscAttr::Green
    } else if s == "blue"@ {
        OscAttr::Blue
    } else {
        OscAttr::Unknown
    }
}

fn osc_attr(s: &str) -> (a: OscAttr)
    ensures
        a == osc_attr_spec(s@),
{
    if str_eq(s, "color") {
        OscAttr::Color
    } else if str_eq(s, "dimmer") {
        OscAttr::Dimmer
    } else if str_eq(s, "pan") {
        OscAttr::Pan
    } else if str_eq(s, "tilt") {
        OscAttr::Tilt
    } else if str_eq(s, "red") {
        OscAttr::Red
    } else if str_eq(s, "green") {
        OscAttr::Green
    } else if str_eq(s, "blue") {
        OscAttr::Blue
    } else {
        OscAttr::Unknown
    }
}

/// Where an OSC message goes.
#[derive(Debug, Clone, Copy, PartialEq, Eq, Structural)]
pub enum OscRoute {
    /// `/cue/go`.
    CueGo,
    /// `/cue/back`.
    CueBack,
    /// `/fixture/{id}/{attr}`.
    Fixture { id: u32, attr: OscAttr },
    /// Anything else, including other `/cue/...` addresses.
    Ignore,
}

/// The route of an OSC address: its `/`-separated segments after any
/// leading slashes.
pub open spec fn osc_route_spec(addr: Seq<char>) -> OscRoute {
    let parts = split_on(strip_leading(addr, '/'), '/');
    if parts[0] == "cue"@ {
        if parts.len() > 1 && parts[1] == "go"@ {
            OscRoute::CueGo
        } else if parts.len() > 1 && parts[1] == "back"@ {
            OscRoute::CueBack
        } else {
            OscRoute::Ignore
        }
    } else if parts.len() < 3 || parts[0] != "fixture"@ {
        OscRoute::Ignore
    } else {
        match parse_unsigned(parts[1], 0xffff_ffff) {
            Some(id) => OscRoute::Fixture { id: id as u32, attr: osc_attr_spec(parts[2]) },
            None => OscRoute::Ignore,
        }
    }
}

/// Every address of the OSC fixture schema, `/fixture/{id}/{attribute}`,
/// routes to that fixture and to the attribute its last segment names.
pub proof fn law_osc_fixture_route(id: u32, attr: Seq<char>)
    requires
        forall|i: int| 0 <= i < attr.len() ==> attr[i] != '/',
    ensures
        osc_route_spec("/fixture/"@ + decimal(id as nat) + "/"@ + attr) == (OscRoute::Fixture { id, attr: osc_attr_spec(attr) }),
{
    reveal_strlit("/fixture/");
    reveal_strlit("/");
    reveal_strlit("fixture");
    reveal_strlit("cue");
    let dec = decimal(id as nat);
    let name = "fixture"@;
    let addr = "/fixture/"@ + dec + "/"@ + attr;
    let body = name + seq!['/'] + (dec + seq!['/'] + attr);
    assert(addr.drop_first() =~= body);
    assert(body[0] == 'f');
    assert(strip_leading(body, '/') == body);
    assert(strip_leading(addr, '/') == body);
    crate::text::lemma_decimal_digits(id as nat);
    assert forall|i: int| 0 <= i < dec.len() implies dec[i] != '/' by {
        assert(crate::text::is_digit(dec[i]));
    }
    assert forall|i: int| 0 <= i < name.len() implies name[i] != '/' by {}
    crate::text::lemma_split_concat(name, '/', dec + seq!['/'] + attr);
    crate::text::lemma_split_concat(dec, '/', attr);
    crate::text::lemma_split_single(name, '/');
    crate::text::lemma_split_single(dec, '/');
    crate::text::lemma_split_single(attr, '/');
    let parts = split_on(body, '/');
    assert(parts =~= seq![name, dec, attr]);
    crate::text::law_decimal_parses_back(id as nat, 0xffff_ffff);
    assert(parts[0] != "cue"@);
}

/// Routes an OSC address.
pub fn route_osc(addr: &str) -> (r: OscRoute)
    ensures
        r == osc_route_spec(addr@),
{
    let n = addr.unicode_len();
    let mut k: usize = 0;
    proof {
        assert(addr@.subrange(0, n as int) =~= addr@);
    }
    while k < n && addr.get_char(k) == '/'
        invariant
            n == addr@.len(),
            k <= n,
            strip_leading(addr@, '/') == strip_leading(addr@.subrange(k as int, n as int), '/'),
        decreases n - k,
    {
        proof {
            assert(addr@.subrange(k as int, n as int).drop_first() =~= addr@.subrange(k + 1, n as int));
        }
        k = k + 1;
    }
    let rest = addr.substring_char(k, n);
    assert(strip_leading(rest@, '/') == rest@);
    let parts = split_char(rest, '/');
    if str_eq(parts[0].as_str(), "cue") {
        if parts.len() > 1 && str_eq(parts[1].as_str(), "go") {
            return OscRoute::CueGo;
        }
        if parts.len() > 1 && str_eq(parts[1].as_str(), "back") {
            return OscRoute::CueBack;
        }
        return OscRoute::Ignore;
    }
    if parts.len() < 3 || !str_eq(parts[0].as_str(), "fixture") {
        return OscRoute::Ignore;
    }
    match parse_decimal(parts[1].as_str(), 0xffff_ffff) {
        Some(id) => OscRoute::Fixture { id, attr: osc_attr(parts[2].as_str()) },
        None => OscRoute::Ignore,
    }
}

/// Whether writing at `base + off` stays within the channel numbers a `u16` holds.
pub open spec fn offset_fits(base: u16, off: Option<u16>) -> bool {
    off matches Some(o) ==> base + o <= u16::MAX
}

/// Whether every offset of the map fits above `base`.
pub open spec fn map_fits(base: u16, m: DmxChannelMap) -> bool {
    &&& offset_fits(base, m.dimmer)
    &&& offset_fits(base, m.pan)
    &&& offset_fits(base, m.pan_fine)
    &&& offset_fits(base, m.tilt)
    &&& offset_fits(base, m.tilt_fine)
    &&& offset_fits(base, m.red)
    &&& offset_fits(base, m.green)
    &&& offset_fits(base, m.blue)
}

/// The slots after writing `v` at `base + off` where the offset is known.
pub open spec fn set_at(data: Seq<u8>, base: u16, off: Option<u16>, v: u8) -> Seq<u8> {
    match off {
        Some(o) => with_channel(data, base + o, v),
        None => data,
    }
}

fn set_opt(buf: &mut DmxBuffer, base: u16, off: Option<u16>, v: u8)
    requires
        offset_fits(base, off),
    ensures
        final(buf)@ == set_at(old(buf)@, base, off, v),
{
    match off {
        Some(o) => buf.set(base + o, v),
        None => {},
    }
}

/// The slots after an OSC level for `attr`: `byte` is the level on 8 bits,
/// `wide` on 16 bits (pan and tilt take its high byte, and the low byte on
/// their fine channels).
pub open spec fn osc_level_effect(data: Seq<u8>, base: u16, m: DmxChannelMap, attr: OscAttr, byte: u8, wide: u16) -> Seq<u8> {
    match attr {
        OscAttr::Dimmer => set_at(data, base, m.dimmer, byte),
        OscAttr::Pan => set_at(set_at(data, base, m.pan, (wide / 256) as u8), base, m.pan_fine, (wide % 256) as u8),
        OscAttr::Tilt => set_at(set_at(data, base, m.tilt, (wide / 256) as u8), base, m.tilt_fine, (wide % 256) as u8),
        OscAttr::Red => set_at(data, base, m.red, byte),
        OscAttr::Green => set_at(data, base, m.green, byte),
        OscAttr::Blue => set_at(data, base, m.blue, byte),
        _ => data,
    }
}

/// Applies an OSC level message to a fixture at channel `base`; returns
/// whether the attribute is one the receiver handles (and so is counted).
pub fn apply_osc_level(buf: &mut DmxBuffer, base: u16, map: &DmxChannelMap, attr: OscAttr, byte: u8, wide: u16) -> (counted: bool)
    requires
        map_fits(base, *map),
    ensures
        final(buf)@ == osc_level_effect(old(buf)@, base, *map, attr, byte, wide),
        counted == (attr != OscAttr::Color && attr != OscAttr::Unknown),
{
    let hi = (wide / 256) as u8;
    let lo = (wide % 256) as u8;
    match attr {
        OscAttr::Dimmer => set_opt(buf, base, map.dimmer, byte),
        OscAttr::Pan => {
            set_opt(buf, base, map.pan, hi);
            set_opt(buf, base, map.pan_fine, lo);
        },
        OscAttr::Tilt => {
            set_opt(buf, base, map.tilt, hi);
            set_opt(buf, base, map.tilt_fine, lo);
        },
        OscAttr::Red => set_opt(buf, base, map.red, byte),
        OscAttr::Green => set_opt(buf, base, map.green, byte),
        OscAttr::Blue => set_opt(buf, base, map.blue, byte),
        _ => return false,
    }
    true
}

/// The slots after an OSC colour message: red, green and blue written, in
/// that order, where the map locates them.
pub open spec fn osc_color_effect(data: Seq<u8>, base: u16, m: DmxChannelMap, r: u8, g: u8, b: u8) -> Seq<u8> {
    set_at(set_at(set_at(data, base, m.red, r), base, m.green, g), base, m.blue, b)
}

/// Applies an OSC colour message (three levels) to a fixture at channel `base`.
pub fn apply_osc_color(buf: &mut DmxBuffer, base: u16, map: &DmxChannelMap, r: u8, g: u8, b: u8)
    requires
        map_fits(base, *map),
    ensures
        final(buf)@ == osc_color_effect(old(buf)@, base, *map, r, g, b),
{
    set_opt(buf, base, map.red, r);
    set_opt(buf, base, map.green, g);
    set_opt(buf, base, map.blue, b);
}

/// `after` is `before` with the slot of channel `ch` (1-based) set to `v`
/// where `ch` is a channel of the universe, and every other slot kept.
pub open spec fn only_channel_set(before: Seq<u8>, after: Seq<u8>, ch: int, v: int) -> bool {
    &&& after.len() == before.len()
    &&& forall|i: int| 0 <= i < before.len() && i != ch - 1 ==> #[trigger] after[i] == before[i]
    &&& (1 <= ch <= before.len() ==> after[ch - 1] as int == v)
}

/// `after` is `before` with the slots of the distinct channels `c1` and
/// `c2` set to `v1` and `v2` where they are channels of the universe, and
/// every other slot kept.
pub open spec fn two_channels_set(before: Seq<u8>, after: Seq<u8>, c1: int, v1: int, c2: int, v2: int) -> bool {
    &&& after.len() == before.len()
    &&& forall|i: int| 0 <= i < before.len() && i != c1 - 1 && i != c2 - 1 ==> #[trigger] after[i] == before[i]
    &&& (1 <= c1 <= before.len() ==> after[c1 - 1] as int == v1)
    &&& (1 <= c2 <= before.len() ==> after[c2 - 1] as int == v2)
}

/// An OSC level writes only the channel of its own attribute, at the
/// fixture's base plus that attribute's offset: dimmer, red, green and blue
/// the 8-bit level; pan and tilt the high byte of the 16-bit level, and its
/// low byte on their fine channels. An attribute the map does not locate,
/// the colour message and an unknown attribute leave the universe as it was.
pub proof fn law_osc_level_own_channel(data: Seq<u8>, base: u16, m: DmxChannelMap, byte: u8, wide: u16)
    requires
        data.len() == 512,
    ensures
        m.dimmer matches Some(o) ==> only_channel_set(data, osc_level_effect(data, base, m, OscAttr::Dimmer, byte, wide), base + o, byte as int),
        m.red matches Some(o) ==> only_channel_set(data, osc_level_effect(data, base, m, OscAttr::Red, byte, wide), base + o, byte as int),
        m.green matches Some(o) ==> only_channel_set(data, osc_level_effect(data, base, m, OscAttr::Green, byte, wide), base + o, byte as int),
        m.blue matches Some(o) ==> only_channel_set(data, osc_level_effect(data, base, m, OscAttr::Blue, byte, wide), base + o, byte as int),
        m.dimmer is None ==> osc_level_effect(data, base, m, OscAttr::Dimmer, byte, wide) == data,
        m.red is None ==> osc_level_effect(data, base, m, OscAttr::Red, byte, wide) == data,
        m.green is None ==> osc_level_effect(data, base, m, OscAttr::Green, byte, wide) == data,
        m.blue is None ==> osc_level_effect(data, base, m, OscAttr::Blue, byte, wide) == data,
        m.pan is Some && m.pan_fine is None ==> only_channel_set(data, osc_level_effect(data, base, m, OscAttr::Pan, byte, wide), base + m.pan->0, wide as int / 256),
        m.pan is None && m.pan_fine is Some ==> only_channel_set(data, osc_level_effect(data, base, m, OscAttr::Pan, byte, wide), base + m.pan_fine->0, wide as int % 256),
        m.pan is None && m.pan_fine is None ==> osc_level_effect(data, base, m, OscAttr::Pan, byte, wide) == data,
        m.pan is Some && m.pan_fine is Some && m.pan->0 != m.pan_fine->0 ==> two_channels_set(data, osc_level_effect(data, base, m, OscAttr::Pan, byte, wide), base + m.pan->0, wide as int / 256, base + m.pan_fine->0, wide as int % 256),
        m.tilt is Some && m.tilt_fine is None ==> only_channel_set(data, osc_level_effect(data, base, m, OscAttr::Tilt, byte, wide), base + m.tilt->0, wide as int / 256),
        m.tilt is None && m.tilt_fine is Some ==> only_channel_set(data, osc_level_effect(data, base, m, OscAttr::Tilt, byte, wide), base + m.tilt_fine->0, wide as int % 256),
        m.tilt is None && m.tilt_fine is None ==> osc_level_effect(data, base, m, OscAttr::Tilt, byte, wide) == data,
        m.tilt is Some && m.tilt_fine is Some && m.tilt->0 != m.tilt_fine->0 ==> two_channels_set(data, osc_level_effect(data, base, m, OscAttr::Tilt, byte, wide), base + m.tilt->0, wide as int / 256, base + m.tilt_fine->0, wide as int % 256),
        osc_level_effect(data, base, m, OscAttr::Color, byte, wide) == data,
        osc_level_effect(data, base, m, OscAttr::Unknown, byte, wide) == data,
{
}

/// An OSC colour message writes red, green and blue on their own channels:
/// where the map locates all three on distinct channels, those channels
/// hold the three levels and every other slot is kept.
pub proof fn law_osc_color_own_channels(data: Seq<u8>, base: u16, m: DmxChannelMap, r: u8, g: u8, b: u8)
    requires
        data.len() == 512,
        m.red is Some && m.green is Some && m.blue is Some,
        m.red->0 != m.green->0 && m.red->0 != m.blue->0 && m.green->0 != m.blue->0,
    ensures
        ({
            let e = osc_color_effect(data, base, m, r, g, b);
            let (cr, cg, cb) = (base + m.red->0, base + m.green->0, base + m.blue->0);
            &&& e.len() == 512
            &&& 1 <= cr <= 512 ==> e[cr - 1] == r
            &&& 1 <= cg <= 512 ==> e[cg - 1] == g
            &&& 1 <= cb <= 512 ==> e[cb - 1] == b
            &&& forall|i: int| 0 <= i < 512 && i != cr - 1 && i != cg - 1 && i != cb - 1 ==> #[trigger] e[i] == data[i]
        }),
{
}

// ─── MIDI routing ────────────────────────────────────────────────────────────

/// The controller numbers mapped to programmer attributes.
#[derive(Debug, Clone, Copy, PartialEq, Eq, Structural)]
pub struct MidiCcMap {
    pub cc_dimmer: u8,
    pub cc_pan: u8,
    pub cc_tilt: u8,
    pub cc_red: u8,
    pub cc_green: u8,
    pub cc_blue: u8,
    pub cc_zoom: u8,
    pub cc_strobe: u8,
}

impl Default for MidiCcMap {
    fn default() -> (m: Self)
        ensures
            m == (MidiCcMap {
                cc_dimmer: 7,
                cc_pan: 10,
                cc_tilt: 11,
                cc_red: 12,
                cc_green: 13,
                cc_blue: 14,
                cc_zoom: 15,
                cc_strobe: 16,
            }),
    {
        MidiCcMap {
            cc_dimmer: 7,
            cc_pan: 10,
            cc_tilt: 11,
            cc_red: 12,
            cc_green: 13,
            cc_blue: 14,
            cc_zoom: 15,
            cc_strobe: 16,
        }
    }
}

/// The programmer attribute a control change sets.
#[derive(Debug, Clone, Copy, PartialEq, Eq, Structural)]
pub enum MidiTarget {
    Dimmer,
    Pan,
    Tilt,
    Red,
    Green,
    Blue,
    Zoom,
    Strobe,
    /// A controller that is not mapped (still counted).
    Unmapped,
}

/// The route of a 3-byte MIDI message: `None` unless it is a control change
/// (status 0xBn); else the first mapping, in attribute order, whose
/// controller number matches.
pub open spec fn midi_route_spec(msg: [u8; 3], m: MidiCcMap) -> Option<MidiTarget> {
    let cc = msg[1];
    if msg[0] / 16 != 0xB {
        None
    } else if cc == m.cc_dimmer {
        Some(MidiTarget::Dimmer)
    } else if cc == m.cc_pan {
        Some(MidiTarget::Pan)
    } else if cc == m.cc_tilt {
        Some(MidiTarget::Tilt)
    } else if cc == m.cc_red {
        Some(MidiTarget::Red)
    } else if cc == m.cc_green {
        Some(MidiTarget::Green)
    } else if cc == m.cc_blue {
        Some(MidiTarget::Blue)
    } else if cc == m.cc_zoom {
        Some(MidiTarget::Zoom)
    } else if cc == m.cc_strobe {
        Some(MidiTarget::Strobe)
    } else {
        Some(MidiTarget::Unmapped)
    }
}

/// Routes a MIDI message; its value (0–127) is the third byte.
pub fn route_midi(msg: [u8; 3], m: &MidiCcMap) -> (r: Option<MidiTarget>)
    ensures
        r == midi_route_spec(msg, *m),
{
    let status = msg[0] / 16;
    let cc = msg[1];
    if status != 0xB {
        None
    } else if cc == m.cc_dimmer {
        Some(MidiTarget::Dimmer)
    } else if cc == m.cc_pan {
        Some(MidiTarget::Pan)
    } else if cc == m.cc_tilt {
        Some(MidiTarget::Tilt)
    } else if cc == m.cc_red {
        Some(MidiTarget::Red)
    } else if cc == m.cc_green {
        Some(MidiTarget::Green)
    } else if cc == m.cc_blue {
        Some(MidiTarget::Blue)
    } else if cc == m.cc_zoom {
        Some(MidiTarget::Zoom)
    } else if cc == m.cc_strobe {
        Some(MidiTarget::Strobe)
    } else {
        Some(MidiTarget::Unmapped)
    }
}

// ─── OSC receive ─────────────────────────────────────────────────────────────

/// An OSC message with its arguments already reduced to DMX levels: the
/// first argument as an 8-bit and a 16-bit level (where it is a number),
/// and the first three as an RGB triple (where there are three numbers).
pub struct OscInput {
    pub addr: String,
    pub level: Option<(u8, u16)>,
    pub color: Option<(u8, u8, u8)>,
}

/// A cue command received from a control surface.
#[derive(Debug, Clone, Copy, PartialEq, Eq, Structural)]
pub enum CueTrigger {
    Go,
    Back,
}

/// What the receive loop has done so far: the universes of the OSC source,
/// the messages counted and the cue commands to fire.
pub type OscState = (Map<u16, Seq<u8>>, nat, Seq<CueTrigger>);

/// Whether every patched fixture's map fits above its channel.
pub open spec fn osc_patch_fits(m: Map<u32, FixtureInstance>) -> bool {
    forall|k: u32| m.contains_key(k) ==> map_fits(#[trigger] m[k].address.channel, m[k].channel_map)
}

/// The universes after one fixture message for fixture `f`: its universe is
/// created (blacked out) where missing, then written.
pub open spec fn osc_fixture_effect(c: Map<u16, Seq<u8>>, f: FixtureInstance, attr: OscAttr, msg: OscInput) -> (Map<u16, Seq<u8>>, bool) {
    let u = f.address.universe;
    let cur = if c.contains_key(u) { c[u] } else { blackout() };
    let base = f.address.channel;
    let m = f.channel_map;
    if attr == OscAttr::Color {
        match msg.color {
            Some((r, g, b)) => (c.insert(u, set_at(set_at(set_at(cur, base, m.red, r), base, m.green, g), base, m.blue, b)), true),
            None => (c.insert(u, cur), false),
        }
    } else {
        match msg.level {
            Some((byte, wide)) => (c.insert(u, osc_level_effect(cur, base, m, attr, byte, wide)), attr != OscAttr::Unknown),
            None => (c.insert(u, cur), false),
        }
    }
}

/// The state after one message.
pub open spec fn osc_step(st: OscState, patch: Map<u32, FixtureInstance>, msg: OscInput) -> OscState {
    match osc_route_spec(msg.addr@) {
        OscRoute::CueGo => (st.0, st.1, st.2.push(CueTrigger::Go)),
        OscRoute::CueBack => (st.0, st.1, st.2.push(CueTrigger::Back)),
        OscRoute::Ignore => st,
        OscRoute::Fixture { id, attr } => if patch.contains_key(id) {
            let (c, counted) = osc_fixture_effect(st.0, patch[id], attr, msg);
            (c, if counted { st.1 + 1 } else { st.1 }, st.2)
        } else {
            st
        },
    }
}

/// The state after the first `k` messages.
pub open spec fn osc_fold(st: OscState, patch: Map<u32, FixtureInstance>, msgs: Seq<OscInput>, k: int) -> OscState
    decreases k,
{
    if k <= 0 {
        st
    } else {
        osc_step(osc_fold(st, patch, msgs, k - 1), patch, msgs[k - 1])
    }
}

fn osc_apply(universes: &mut UniverseSet, patch: &Patch, id: u32, attr: OscAttr, msg: &OscInput) -> (counted: bool)
    requires
        osc_patch_fits(patch@),
    ensures
        ({
            let st = (contents(old(universes)@), 0nat, Seq::<CueTrigger>::empty());
            let after = osc_step(st, patch@, *msg);
            osc_route_spec(msg.addr@) == (OscRoute::Fixture { id, attr }) ==> contents(final(universes)@) == after.0
                && (counted <==> after.1 == 1)
        }),
{
    let inst = match patch.get(FixtureId(id)) {
        Some(inst) => inst,
        None => return false,
    };
    let ghost before = universes@;
    let buf = universes.get_or_insert(inst.address.universe);
    let counted = if attr == OscAttr::Color {
        match msg.color {
            Some((r, g, b)) => {
                apply_osc_color(buf, inst.address.channel, &inst.channel_map, r, g, b);
                true
            },
            None => false,
        }
    } else {
        match msg.level {
            Some((byte, wide)) => apply_osc_level(buf, inst.address.channel, &inst.channel_map, attr, byte, wide),
            None => false,
        }
    };
    proof {
        let u = inst.address.universe;
        let c = contents(before);
        assert(before.contains_key(u) ==> c[u] == before[u]@);
        assert(contents(universes@) =~= osc_fixture_effect(c, *inst, attr, *msg).0);
    }
    counted
}

/// Applies the messages drained from the OSC receive thread: fixture
/// messages write into the "osc_in" source (priority 150, LTP), cue
/// messages become cue commands. Returns the number of fixture messages
/// applied and the cue commands, in order.
pub fn osc_receive(engine: &mut DmxEngine, patch: &Patch, msgs: &Vec<OscInput>) -> (r: (u64, Vec<CueTrigger>))
    requires
        osc_patch_fits(patch@),
    ensures
        final(engine).output_view() == old(engine).output_view(),
        final(engine).cached_ids() == old(engine).cached_ids(),
        final(engine).is_dirty(),
        exists|a: DmxSource, b: DmxSource|
            #![trigger crate::engine::source_lookup(old(engine).sources_view(), final(engine).sources_view(), "osc_in"@, 150, MergeStrategy::Ltp, a, b)]
            crate::engine::source_lookup(
                old(engine).sources_view(),
                final(engine).sources_view(),
                "osc_in"@,
                150,
                MergeStrategy::Ltp,
                a,
                b,
            ) && b.name == a.name && b.priority == a.priority && b.strategy == a.strategy && ({
                let st = osc_fold((contents(a.universes@), 0nat, Seq::empty()), patch@, msgs@, msgs@.len() as int);
                &&& contents(b.universes@) == st.0
                &&& r.0 == st.1
                &&& r.1@ == st.2
            }),
{
    let src = engine.get_or_add_source("osc_in", 150, MergeStrategy::Ltp);
    let ghost a = *src;
    let ghost start: OscState = (contents(a.universes@), 0nat, Seq::empty());
    let mut count: u64 = 0;
    let mut triggers: Vec<CueTrigger> = Vec::new();
    let mut i: usize = 0;
    while i < msgs.len()
        invariant
            osc_patch_fits(patch@),
            i <= msgs@.len(),
            count <= i,
            src.name == a.name,
            src.priority == a.priority,
            src.strategy == a.strategy,
            ({
                let st = osc_fold(start, patch@, msgs@, i as int);
                &&& contents(src.universes@) == st.0
                &&& count == st.1
                &&& triggers@ == st.2
            }),
        decreases msgs@.len() - i,
    {
        let msg = &msgs[i];
        let route = route_osc(msg.addr.as_str());
        match route {
            OscRoute::CueGo => triggers.push(CueTrigger::Go),
            OscRoute::CueBack => triggers.push(CueTrigger::Back),
            OscRoute::Ignore => {},
            OscRoute::Fixture { id, attr } => {
                let counted = osc_apply(&mut src.universes, patch, id, attr, msg);
                if counted {
                    count = count + 1;
                }
            },
        }
        i = i + 1;
    }
    (count, triggers)
}

// ─── Output frames ───────────────────────────────────────────────────────────

/// The Art-Net frame for `universe`: its merged output, where there is one.
pub fn artnet_frame(engine: &DmxEngine, universe: u16) -> (cmd: Option<ArtNetTxCmd>)
    ensures
        match cmd {
            Some(c) => engine.output_view().contains_key(universe) && c.universe == universe
                && c.data@ == engine.output_view()[universe]@,
            None => !engine.output_view().contains_key(universe),
        },
{
    match engine.output_buffer(universe) {
        Some(buf) => Some(ArtNetTxCmd { universe, data: *buf.as_bytes() }),
        None => None,
    }
}

/// The sACN frame for `universe` where transmit is enabled and the universe
/// has output; each frame takes the current sequence number, which then
/// advances (wrapping).
pub fn sacn_frame(engine: &DmxEngine, tx_enabled: bool, universe: u16, priority: u8, sequence: &mut u8) -> (cmd: Option<SacnTxCmd>)
    ensures
        match cmd {
            Some(c) => tx_enabled && engine.output_view().contains_key(universe) && c.universe == universe
                && c.priority == priority && c.sequence == *old(sequence)
                && c.data@ == engine.output_view()[universe]@
                && *final(sequence) == (*old(sequence) as int + 1) % 256,
            None => (!tx_enabled || !engine.output_view().contains_key(universe)) && *final(sequence) == *old(sequence),
        },
{
    if !tx_enabled {
        return None;
    }
    match engine.output_buffer(universe) {
        Some(buf) => {
            let seq = *sequence;
            *sequence = seq.wrapping_add(1);
            Some(SacnTxCmd { universe, priority, sequence: seq, data: *buf.as_bytes() })
        },
        None => None,
    }
}

/// The USB frame for `universe` where transmit is enabled and the universe has output.
pub fn usb_frame(engine: &DmxEngine, tx_enabled: bool, universe: u16) -> (cmd: Option<UsbTxCmd>)
    ensures
        match cmd {
            Some(c) => tx_enabled && engine.output_view().contains_key(universe) && c.data@
                == engine.output_view()[universe]@,
            None => !tx_enabled || !engine.output_view().contains_key(universe),
        },
{
    if !tx_enabled {
        return None;
    }
    match engine.output_buffer(universe) {
        Some(buf) => Some(UsbTxCmd { data: *buf.as_bytes() }),
        None => None,
    }
}

/// Routes the control changes drained from the MIDI input: each message
/// that is a control change (counted) with its value, in order.
pub fn midi_receive(msgs: &Vec<[u8; 3]>, m: &MidiCcMap) -> (r: Vec<(MidiTarget, u8)>)
    ensures
        r@.len() <= msgs@.len(),
        r@ == midi_routed(msgs@, *m),
{
    let mut out: Vec<(MidiTarget, u8)> = Vec::new();
    let mut i: usize = 0;
    while i < msgs.len()
        invariant
            i <= msgs@.len(),
            out@ == midi_routed(msgs@.take(i as int), *m),
            out@.len() <= i,
        decreases msgs@.len() - i,
    {
        let msg = msgs[i];
        proof {
            assert(msgs@.take(i + 1).drop_last() =~= msgs@.take(i as int));
        }
        match route_midi(msg, m) {
            Some(t) => out.push((t, msg[2])),
            None => {},
        }
        i = i + 1;
    }
    assert(msgs@.take(msgs@.len() as int) =~= msgs@);
    out
}

/// The routed control changes of `msgs`, in order, with their values.
pub open spec fn midi_routed(msgs: Seq<[u8; 3]>, m: MidiCcMap) -> Seq<(MidiTarget, u8)>
    decreases msgs.len(),
{
    if msgs.len() == 0 {
        Seq::empty()
    } else {
        let prev = midi_routed(msgs.drop_last(), m);
        match midi_route_spec(msgs.last(), m) {
            Some(t) => prev.push((t, msgs.last()[2])),
            None => prev,
        }
    }
}

/// A MIDI message is routed only where it is a control change (status
/// nibble 0xB); its controller number then selects, in the order dimmer,
/// pan, tilt, red, green, blue, zoom, strobe, the first attribute mapped to
/// it, and a controller mapped to none is routed as unmapped.
pub proof fn law_midi_route(msg: [u8; 3], m: MidiCcMap)
    ensures
        (msg[0] < 0xB0 || msg[0] >= 0xC0) <==> midi_route_spec(msg, m) is None,
        ({
            let cc = msg[1];
            let r = midi_route_spec(msg, m);
            0xB0 <= msg[0] < 0xC0 ==> {
                &&& cc == m.cc_dimmer ==> r == Some(MidiTarget::Dimmer)
                &&& cc != m.cc_dimmer && cc == m.cc_pan ==> r == Some(MidiTarget::Pan)
                &&& cc != m.cc_dimmer && cc != m.cc_pan && cc == m.cc_tilt ==> r == Some(MidiTarget::Tilt)
                &&& cc != m.cc_dimmer && cc != m.cc_pan && cc != m.cc_tilt && cc == m.cc_red ==> r == Some(
                    MidiTarget::Red,
                )
                &&& cc != m.cc_dimmer && cc != m.cc_pan && cc != m.cc_tilt && cc != m.cc_red && cc == m.cc_green
                    ==> r == Some(MidiTarget::Green)
                &&& cc != m.cc_dimmer && cc != m.cc_pan && cc != m.cc_tilt && cc != m.cc_red && cc != m.cc_green
                    && cc == m.cc_blue ==> r == Some(MidiTarget::Blue)
                &&& cc != m.cc_dimmer && cc != m.cc_pan && cc != m.cc_tilt && cc != m.cc_red && cc != m.cc_green
                    && cc != m.cc_blue && cc == m.cc_zoom ==> r == Some(MidiTarget::Zoom)
                &&& cc != m.cc_dimmer && cc != m.cc_pan && cc != m.cc_tilt && cc != m.cc_red && cc != m.cc_green
                    && cc != m.cc_blue && cc != m.cc_zoom && cc == m.cc_strobe ==> r == Some(MidiTarget::Strobe)
                &&& cc != m.cc_dimmer && cc != m.cc_pan && cc != m.cc_tilt && cc != m.cc_red && cc != m.cc_green
                    && cc != m.cc_blue && cc != m.cc_zoom && cc != m.cc_strobe ==> r == Some(MidiTarget::Unmapped)
            }
        }),
{
}

/// Each control change yields one routed entry, in order, carrying the
/// message's third byte as its value; other messages yield none.
pub proof fn law_midi_values(msgs: Seq<[u8; 3]>, m: MidiCcMap)
    ensures
        (forall|i: int| 0 <= i < msgs.len() ==> 0xB0 <= (#[trigger] msgs[i])[0] < 0xC0) ==> {
            &&& midi_routed(msgs, m).len() == msgs.len()
            &&& forall|i: int| 0 <= i < msgs.len() ==> (#[trigger] midi_routed(msgs, m)[i]).1 == msgs[i][2]
                && midi_route_spec(msgs[i], m) == Some(midi_routed(msgs, m)[i].0)
        },
        (forall|i: int| 0 <= i < msgs.len() ==> !(0xB0 <= (#[trigger] msgs[i])[0] < 0xC0)) ==> midi_routed(msgs, m).len() == 0,
    decreases msgs.len(),
{
    if msgs.len() > 0 {
        let p = msgs.drop_last();
        law_midi_values(p, m);
        assert(forall|i: int| 0 <= i < p.len() ==> p[i] == msgs[i]);
        if forall|i: int| 0 <= i < msgs.len() ==> 0xB0 <= (#[trigger] msgs[i])[0] < 0xC0 {
            assert(forall|i: int| 0 <= i < p.len() ==> 0xB0 <= (#[trigger] p[i])[0] < 0xC0) by {
                assert forall|i: int| 0 <= i < p.len() implies 0xB0 <= (#[trigger] p[i])[0] < 0xC0 by {
                    assert(p[i] == msgs[i]);
                }
            }
            assert(0xB0 <= msgs[msgs.len() - 1][0] < 0xC0);
            let last = msgs.last();
            assert(midi_route_spec(last, m) is Some);
            let r = midi_routed(msgs, m);
            let rp = midi_routed(p, m);
            assert forall|i: int| 0 <= i < msgs.len() implies (#[trigger] r[i]).1 == msgs[i][2] && midi_route_spec(
                msgs[i],
                m,
            ) == Some(r[i].0) by {
                if i < p.len() {
                    assert(r[i] == rp[i]);
                    assert(p[i] == msgs[i]);
                }
            }
        }
        if forall|i: int| 0 <= i < msgs.len() ==> !(0xB0 <= (#[trigger] msgs[i])[0] < 0xC0) {
            assert(forall|i: int| 0 <= i < p.len() ==> !(0xB0 <= (#[trigger] p[i])[0] < 0xC0)) by {
                assert forall|i: int| 0 <= i < p.len() implies !(0xB0 <= (#[trigger] p[i])[0] < 0xC0) by {
                    assert(p[i] == msgs[i]);
                }
            }
            assert(!(0xB0 <= msgs[msgs.len() - 1][0] < 0xC0));
        }
    }
}

/// Each attribute of the OSC fixture schema is named by exactly one path
/// segment: "color", "dimmer", "pan", "tilt", "red", "green" or "blue";
/// every other segment is unknown.
pub proof fn law_osc_attr_names(s: Seq<char>)
    ensures
        osc_attr_spec(s) == OscAttr::Color <==> s == "color"@,
        osc_attr_spec(s) == OscAttr::Dimmer <==> s == "dimmer"@,
        osc_attr_spec(s) == OscAttr::Pan <==> s == "pan"@,
        osc_attr_spec(s) == OscAttr::Tilt <==> s == "tilt"@,
        osc_attr_spec(s) == OscAttr::Red <==> s == "red"@,
        osc_attr_spec(s) == OscAttr::Green <==> s == "green"@,
        osc_attr_spec(s) == OscAttr::Blue <==> s == "blue"@,
{
    reveal_strlit("color");
    reveal_strlit("dimmer");
    reveal_strlit("pan");
    reveal_strlit("tilt");
    reveal_strlit("red");
    reveal_strlit("green");
    reveal_strlit("blue");
    if s.len() > 0 {
        assert(s == "pan"@ ==> s[0] == 'p');
        assert(s == "red"@ ==> s[0] == 'r');
        assert(s == "tilt"@ ==> s[0] == 't');
        assert(s == "blue"@ ==> s[0] == 'b');
        assert(s == "color"@ ==> s[0] == 'c');
        assert(s == "green"@ ==> s[0] == 'g');
    }
}

} // verus!
