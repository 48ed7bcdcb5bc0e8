//! Art-Net: ArtDMX and ArtPoll packets, ArtPollReply decoding, and what the
//! receive path does with incoming packets.
use std::collections::HashMap;
use vstd::prelude::*;
use crate::text::{from_utf8_lossy, utf8_lossy};
use crate::universe::{contents, UniverseSet};

verus! {

broadcast use vstd::std_specs::hash::group_hash_axioms;

pub const ARTNET_PORT: u16 = 6454;

/// Cap on the number of universes accepted from the network, so that a
/// misbehaving sender cannot make the receive source grow without bound.
pub const MAX_RX_UNIVERSES: usize = 64;

/// The 8-byte packet identifier `"Art-Net\0"`.
pub open spec fn artnet_id() -> Seq<u8> {
    seq![0x41u8, 0x72, 0x74, 0x2D, 0x4E, 0x65, 0x74, 0x00]
}

/// The 18-byte ArtDMX header for `universe` (OpCode 0x5000 LE, ProtVer 14,
/// 15-bit Port-Address LE, length 512 BE).
pub open spec fn artdmx_header(universe: u16) -> Seq<u8> {
    artnet_id() + seq![
        0x00u8,
        0x50,
        0x00,
        14,
        0,
        0,
        (universe % 256) as u8,
        ((universe / 256) % 128) as u8,
        0x02,
        0x00,
    ]
}

/// An ArtDMX packet carrying `data` for `universe`.
pub open spec fn artdmx_packet(universe: u16, data: Seq<u8>) -> Seq<u8> {
    artdmx_header(universe) + data
}

/// What decoding `buf` as an ArtDMX packet yields: the 15-bit universe and
/// the `length` data bytes that the header announces.
pub open spec fn artdmx_fields(buf: Seq<u8>) -> Option<(u16, Seq<u8>)> {
    if buf.len() < 18 || buf.subrange(0, 8) != artnet_id() {
        None
    } else if buf[8] as int + buf[9] as int * 256 != 0x5000 {
        None
    } else {
        let universe = (buf[14] as int + (buf[15] as int % 128) * 256) as u16;
        let length = buf[16] as int * 256 + buf[17] as int;
        if length == 0 || buf.len() < 18 + length {
            None
        } else {
            Some((universe, buf.subrange(18, 18 + length)))
        }
    }
}

fn push_id(pkt: &mut Vec<u8>)
    ensures
        final(pkt)@ == old(pkt)@ + artnet_id(),
{
    pkt.push(0x41);
    pkt.push(0x72);
    pkt.push(0x74);
    pkt.push(0x2D);
    pkt.push(0x4E);
    pkt.push(0x65);
    pkt.push(0x74);
    pkt.push(0x00);
    assert(pkt@ =~= old(pkt)@ + artnet_id());
}

/// Whether `buf` starts with the Art-Net identifier.
fn has_artnet_id(buf: &[u8]) -> (r: bool)
    requires
        buf@.len() >= 8,
    ensures
        r == (buf@.subrange(0, 8) == artnet_id()),
{
    let r = buf[0] == 0x41 && buf[1] == 0x72 && buf[2] == 0x74 && buf[3] == 0x2D && buf[4] == 0x4E
        && buf[5] == 0x65 && buf[6] == 0x74 && buf[7] == 0x00;
    if r {
        assert(buf@.subrange(0, 8) =~= artnet_id());
    } else {
        proof {
            if buf@.subrange(0, 8) == artnet_id() {
                let t = buf@.subrange(0, 8);
                assert(t[0] == buf@[0] && t[1] == buf@[1] && t[2] == buf@[2] && t[3] == buf@[3] && t[4]
                    == buf@[4] && t[5] == buf@[5] && t[6] == buf@[6] && t[7] == buf@[7]);
            }
        }
    }
    r
}

/// Builds an ArtDMX packet for `universe` (Port-Address truncated to 15 bits).
pub fn build_artdmx(universe: u16, data: &[u8; 512]) -> (pkt: Vec<u8>)
    ensures
        pkt@ == artdmx_packet(universe, data@),
{
    let mut pkt: Vec<u8> = Vec::with_capacity(530);
    push_id(&mut pkt);
    pkt.push(0x00);
    pkt.push(0x50);
    pkt.push(0x00);
    pkt.push(14);
    pkt.push(0);
    pkt.push(0);
    let lo = (universe & 0xFF) as u8;
    let hi = ((universe >> 8) & 0x7F) as u8;
    assert(lo == (universe % 256) as u8 && hi == ((universe / 256) % 128) as u8) by (bit_vector)
        requires
            lo == (universe & 0xFF) as u8,
            hi == ((universe >> 8) & 0x7F) as u8,
    ;
    pkt.push(lo);
    pkt.push(hi);
    pkt.push(0x02);
    pkt.push(0x00);
    let ghost head = pkt@;
    assert(head =~= artdmx_header(universe));
    let mut i: usize = 0;
    while i < 512
        invariant
            i <= 512,
            data@.len() == 512,
            pkt@ == head + data@.subrange(0, i as int),
        decreases 512 - i,
    {
        pkt.push(data[i]);
        assert(data@.subrange(0, i + 1) =~= data@.subrange(0, i as int).push(data@[i as int]));
        i = i + 1;
    }
    assert(data@.subrange(0, 512) =~= data@);
    pkt
}

/// Decodes an ArtDMX packet into its universe and DMX data.
pub fn parse_artdmx(buf: &[u8]) -> (r: Option<(u16, &[u8])>)
    ensures
        match r {
            Some((u, d)) => artdmx_fields(buf@) == Some((u, d@)),
            None => artdmx_fields(buf@) is None,
        },
{
    if buf.len() < 18 || !has_artnet_id(buf) {
        return None;
    }
    let opcode = (buf[8] as u16) | ((buf[9] as u16) << 8);
    let b8 = buf[8];
    let b9 = buf[9];
    assert(opcode == b8 as int + b9 as int * 256) by (bit_vector)
        requires
            opcode == (b8 as u16) | ((b9 as u16) << 8),
    ;
    if opcode != 0x5000 {
        return None;
    }
    let b14 = buf[14];
    let b15 = buf[15];
    let universe = (b14 as u16) | ((b15 as u16 & 0x7F) << 8);
    assert(universe == b14 as int + (b15 as int % 128) * 256) by (bit_vector)
        requires
            universe == (b14 as u16) | ((b15 as u16 & 0x7F) << 8),
    ;
    let length = (buf[16] as usize) * 256 + buf[17] as usize;
    if length == 0 || buf.len() < 18 + length {
        return None;
    }
    Some((universe, &buf[18..18 + length]))
}

/// The 14-byte ArtPoll packet: OpCode 0x2000, ProtVer 14, TalkToMe 0x06, priority 0.
pub open spec fn artpoll_packet() -> Seq<u8> {
    artnet_id() + seq![0x00u8, 0x20, 0x00, 14, 0x06, 0x00]
}

/// Builds an ArtPoll packet.
pub fn build_artpoll() -> (pkt: Vec<u8>)
    ensures
        pkt@ == artpoll_packet(),
{
    let mut pkt: Vec<u8> = Vec::with_capacity(14);
    push_id(&mut pkt);
    pkt.push(0x00);
    pkt.push(0x20);
    pkt.push(0x00);
    pkt.push(14);
    pkt.push(0x06);
    pkt.push(0x00);
    assert(pkt@ =~= artpoll_packet());
    pkt
}

/// The bytes of a NUL-terminated field: everything before the first zero.
pub open spec fn before_nul(bytes: Seq<u8>) -> Seq<u8>
    decreases bytes.len(),
{
    if bytes.len() == 0 {
        bytes
    } else if bytes[0] == 0 {
        Seq::empty()
    } else {
        seq![bytes[0]] + before_nul(bytes.drop_first())
    }
}

proof fn lemma_before_nul(bytes: Seq<u8>, k: int)
    requires
        0 <= k <= bytes.len(),
        forall|j: int| 0 <= j < k ==> bytes[j] != 0,
        k == bytes.len() || bytes[k] == 0,
    ensures
        before_nul(bytes) == bytes.subrange(0, k),
    decreases k,
{
    if k == 0 {
        if bytes.len() > 0 {
        }
        assert(bytes.subrange(0, 0) =~= Seq::<u8>::empty());
    } else {
        lemma_before_nul(bytes.drop_first(), k - 1);
        assert(bytes.subrange(0, k) =~= seq![bytes[0]] + bytes.drop_first().subrange(0, k - 1));
    }
}

/// Text of a NUL-terminated, fixed-width field.
pub fn cstr_trim(bytes: &[u8]) -> (s: String)
    ensures
        s@ == utf8_lossy(before_nul(bytes@)),
{
    let mut len: usize = 0;
    while len < bytes.len() && bytes[len] != 0
        invariant
            len <= bytes@.len(),
            forall|j: int| 0 <= j < len ==> bytes@[j] != 0,
        decreases bytes@.len() - len,
    {
        len = len + 1;
    }
    proof {
        lemma_before_nul(bytes@, len as int);
    }
    from_utf8_lossy(&bytes[0..len])
}

/// A node that answered an ArtPoll.
#[derive(Debug, Clone)]
pub struct ArtNetNode {
    /// IPv4 address, most significant octet first.
    pub ip: [u8; 4],
    pub short_name: String,
    pub long_name: String,
    pub status: u8,
    pub num_ports: usize,
    pub port_types: [u8; 4],
}

impl ArtNetNode {
    /// A copy of this node record (the derived `Clone` carries no specification).
    fn duplicate(&self) -> (r: Self)
        ensures
            r == *self,
    {
        ArtNetNode {
            ip: self.ip,
            short_name: self.short_name.clone(),
            long_name: self.long_name.clone(),
            status: self.status,
            num_ports: self.num_ports,
            port_types: self.port_types,
        }
    }
}

/// What decoding `buf` as an ArtPollReply yields.
pub open spec fn artpoll_reply_fields(buf: Seq<u8>, node: ArtNetNode) -> bool {
    &&& node.ip@ == buf.subrange(10, 14)
    &&& node.status == buf[23]
    &&& node.short_name@ == utf8_lossy(before_nul(buf.subrange(26, 44)))
    &&& node.long_name@ == utf8_lossy(before_nul(buf.subrange(44, 108)))
    &&& node.num_ports == buf[173] as usize
    &&& node.port_types@ == buf.subrange(174, 178)
}

/// Whether `buf` is an ArtPollReply that this decoder accepts.
pub open spec fn is_artpoll_reply(buf: Seq<u8>) -> bool {
    buf.len() >= 239 && buf.subrange(0, 8) == artnet_id() && buf[8] as int + buf[9] as int * 256
        == 0x2100
}

/// Decodes an ArtPollReply.
pub fn parse_artpoll_reply(buf: &[u8]) -> (r: Option<ArtNetNode>)
    ensures
        match r {
            Some(node) => is_artpoll_reply(buf@) && artpoll_reply_fields(buf@, node),
            None => !is_artpoll_reply(buf@),
        },
{
    if buf.len() < 239 || !has_artnet_id(buf) {
        return None;
    }
    if !(buf[8] == 0x00 && buf[9] == 0x21) {
        return None;
    }
    let ip = [buf[10], buf[11], buf[12], buf[13]];
    let status1 = buf[23];
    let short_name = cstr_trim(&buf[26..44]);
    let long_name = cstr_trim(&buf[44..108]);
    let num_ports = buf[173] as usize;
    let port_types = [buf[174], buf[175], buf[176], buf[177]];
    let node = ArtNetNode { ip, short_name, long_name, status: status1, num_ports, port_types };
    assert(node.ip@ =~= buf@.subrange(10, 14));
    assert(node.port_types@ =~= buf@.subrange(174, 178));
    Some(node)
}

/// A received ArtDMX packet.
#[derive(Debug, Clone)]
pub struct ReceivedPacket {
    pub universe: u16,
    /// Sender's IPv4 address, most significant octet first.
    pub source: [u8; 4],
    pub data: [u8; 512],
}

/// A message from the Art-Net receive thread.
#[derive(Debug, Clone)]
pub enum ArtNetRxMsg {
    Dmx(ReceivedPacket),
    Node(ArtNetNode),
}

/// A frame for the Art-Net transmit thread.
#[derive(Debug, Clone)]
pub struct ArtNetTxCmd {
    pub universe: u16,
    pub data: [u8; 512],
}

/// Key of a node in the node table: its IPv4 address as a big-endian number.
pub open spec fn ip_key(ip: Seq<u8>) -> u32 {
    (ip[0] as int * 0x1000000 + ip[1] as int * 0x10000 + ip[2] as int * 0x100 + ip[3] as int) as u32
}

fn ip_key_of(ip: [u8; 4]) -> (k: u32)
    ensures
        k == ip_key(ip@),
{
    (ip[0] as u32) * 0x1000000 + (ip[1] as u32) * 0x10000 + (ip[2] as u32) * 0x100 + ip[3] as u32
}

/// Nodes discovered by ArtPoll, by address.
#[derive(Debug, Default)]
pub struct ArtNetNodeTable {
    pub nodes: HashMap<u32, ArtNetNode>,
    /// Incremented whenever the table changes (for UI change detection).
    pub version: u64,
}

/// Whether a universe packet is taken into a receive source that currently
/// holds the universes in `m`: known universes always, new ones while fewer
/// than [`MAX_RX_UNIVERSES`] are held.
pub open spec fn rx_accepts(m: Map<u16, Seq<u8>>, universe: u16) -> bool {
    m.contains_key(universe) || m.dom().len() < 64
}

/// The receive source after taking in `pkts` one after another.
pub open spec fn ingest_all(m: Map<u16, Seq<u8>>, pkts: Seq<(u16, Seq<u8>)>) -> Map<u16, Seq<u8>>
    decreases pkts.len(),
{
    if pkts.len() == 0 {
        m
    } else {
        let prev = ingest_all(m, pkts.drop_last());
        let (u, d) = pkts.last();
        if rx_accepts(prev, u) {
            prev.insert(u, d)
        } else {
            prev
        }
    }
}

/// How many of `pkts` a receive source holding `m` takes in.
pub open spec fn ingest_count(m: Map<u16, Seq<u8>>, pkts: Seq<(u16, Seq<u8>)>) -> nat
    decreases pkts.len(),
{
    if pkts.len() == 0 {
        0
    } else {
        let prev = ingest_all(m, pkts.drop_last());
        ingest_count(m, pkts.drop_last()) + if rx_accepts(prev, pkts.last().0) {
            1nat
        } else {
            0nat
        }
    }
}

/// Takes one universe packet into a receive source, under the universe cap.
/// Returns whether it was taken.
pub fn ingest_universe(set: &mut UniverseSet, universe: u16, data: &[u8; 512]) -> (taken: bool)
    ensures
        taken == rx_accepts(contents(old(set)@), universe),
        contents(final(set)@) == if taken {
            contents(old(set)@).insert(universe, data@)
        } else {
            contents(old(set)@)
        },
{
    let already_exists = set.get(universe).is_some();
    let count = set.len();
    proof {
        assert(contents(set@).dom() =~= set@.dom());
    }
    if !already_exists && count >= MAX_RX_UNIVERSES {
        return false;
    }
    let buf = set.get_or_insert(universe);
    buf.copy_from_slice(data);
    proof {
        assert(data@.len() == 512);
        assert(crate::universe::loaded_from(data@) =~= data@);
    }
    assert(contents(set@) =~= contents(old(set)@).insert(universe, data@));
    true
}

/// The DMX packets of `msgs` that the allowlist lets in, as (universe, data).
pub open spec fn allowed_dmx(msgs: Seq<ArtNetRxMsg>, allow: Seq<[u8; 4]>) -> Seq<(u16, Seq<u8>)>
    decreases msgs.len(),
{
    if msgs.len() == 0 {
        Seq::empty()
    } else {
        let prev = allowed_dmx(msgs.drop_last(), allow);
        match msgs.last() {
            ArtNetRxMsg::Dmx(p) => if allow.len() == 0 || allow.contains(p.source) {
                prev.push((p.universe, p.data@))
            } else {
                prev
            },
            ArtNetRxMsg::Node(_) => prev,
        }
    }
}

/// The node table after recording every `Node` message of `msgs`.
pub open spec fn nodes_after(m: Map<u32, ArtNetNode>, msgs: Seq<ArtNetRxMsg>) -> Map<u32, ArtNetNode>
    decreases msgs.len(),
{
    if msgs.len() == 0 {
        m
    } else {
        let prev = nodes_after(m, msgs.drop_last());
        match msgs.last() {
            ArtNetRxMsg::Node(n) => prev.insert(ip_key(n.ip@), n),
            ArtNetRxMsg::Dmx(_) => prev,
        }
    }
}

/// Number of `Node` messages in `msgs`.
pub open spec fn node_msgs(msgs: Seq<ArtNetRxMsg>) -> nat
    decreases msgs.len(),
{
    if msgs.len() == 0 {
        0
    } else {
        node_msgs(msgs.drop_last()) + if msgs.last() is Node {
            1nat
        } else {
            0nat
        }
    }
}

proof fn lemma_node_msgs_le(msgs: Seq<ArtNetRxMsg>)
    ensures
        node_msgs(msgs) <= msgs.len(),
    decreases msgs.len(),
{
    if msgs.len() > 0 {
        lemma_node_msgs_le(msgs.drop_last());
    }
}

fn ip_allowed(allow: &Vec<[u8; 4]>, ip: [u8; 4]) -> (r: bool)
    ensures
        r == (allow@.len() == 0 || allow@.contains(ip)),
{
    if allow.len() == 0 {
        return true;
    }
    let mut i: usize = 0;
    while i < allow.len()
        invariant
            i <= allow@.len(),
            forall|j: int| 0 <= j < i ==> allow@[j] != ip,
        decreases allow@.len() - i,
    {
        let a = allow[i];
        if a[0] == ip[0] && a[1] == ip[1] && a[2] == ip[2] && a[3] == ip[3] {
            assert(a@ =~= ip@);
            assert(allow@[i as int] == ip);
            return true;
        }
        assert(a@[0] != ip@[0] || a@[1] != ip@[1] || a@[2] != ip@[2] || a@[3] != ip@[3]);
        i = i + 1;
    }
    false
}

/// Applies the messages drained from the Art-Net receive thread: DMX packets
/// from allowed sources load the "artnet_in" universes (under the universe
/// cap), ArtPollReplies update the node table. Returns the number of DMX
/// packets taken in.
pub fn artnet_receive(
    source: &mut UniverseSet,
    msgs: Vec<ArtNetRxMsg>,
    allowlist: &Vec<[u8; 4]>,
    node_table: &mut ArtNetNodeTable,
) -> (count: u64)
    requires
        old(node_table).version + msgs@.len() <= u64::MAX,
    ensures
        contents(final(source)@) == ingest_all(contents(old(source)@), allowed_dmx(msgs@, allowlist@)),
        count == ingest_count(contents(old(source)@), allowed_dmx(msgs@, allowlist@)),
        final(node_table).nodes@ == nodes_after(old(node_table).nodes@, msgs@),
        final(node_table).version == old(node_table).version + node_msgs(msgs@),
{
    let ghost start = contents(source@);
    let mut count: u64 = 0;
    let mut i: usize = 0;
    while i < msgs.len()
        invariant
            i <= msgs@.len(),
            old(node_table).version + msgs@.len() <= u64::MAX,
            count <= i,
            contents(source@) == ingest_all(start, allowed_dmx(msgs@.take(i as int), allowlist@)),
            count == ingest_count(start, allowed_dmx(msgs@.take(i as int), allowlist@)),
            node_table.nodes@ == nodes_after(old(node_table).nodes@, msgs@.take(i as int)),
            node_table.version == old(node_table).version + node_msgs(msgs@.take(i as int)),
        decreases msgs@.len() - i,
    {
        let ghost pre = msgs@.take(i as int);
        proof {
            assert(msgs@.take(i + 1).drop_last() =~= pre);
            lemma_node_msgs_le(pre);
        }
        match &msgs[i] {
            ArtNetRxMsg::Dmx(pkt) => {
                let ghost prev_pkts = allowed_dmx(pre, allowlist@);
                assert(msgs@.take(i + 1).last() == msgs@[i as int]);
                if ip_allowed(allowlist, pkt.source) {
                    let taken = ingest_universe(source, pkt.universe, &pkt.data);
                    proof {
                        let np = prev_pkts.push((pkt.universe, pkt.data@));
                        assert(allowed_dmx(msgs@.take(i + 1), allowlist@) == np);
                        assert(np.drop_last() =~= prev_pkts);
                    }
                    if taken {
                        count = count + 1;
                    }
                } else {
                    assert(allowed_dmx(msgs@.take(i + 1), allowlist@) == prev_pkts);
                }
            },
            ArtNetRxMsg::Node(node) => {
                assert(msgs@.take(i + 1).last() == msgs@[i as int]);
                assert(allowed_dmx(msgs@.take(i + 1), allowlist@) == allowed_dmx(pre, allowlist@));
                let key = ip_key_of(node.ip);
                node_table.nodes.insert(key, node.duplicate());
                node_table.version = node_table.version + 1;
            },
        }
        i = i + 1;
    }
    assert(msgs@.take(msgs@.len() as int) =~= msgs@);
    count
}

/// The receive sources never hold more than 64 universes: starting from at
/// most 64, no sequence of packets takes them past the cap.
pub proof fn law_rx_universe_cap(m: Map<u16, Seq<u8>>, pkts: Seq<(u16, Seq<u8>)>)
    requires
        m.dom().finite(),
        m.dom().len() <= 64,
    ensures
        ingest_all(m, pkts).dom().finite(),
        ingest_all(m, pkts).dom().len() <= 64,
    decreases pkts.len(),
{
    if pkts.len() > 0 {
        law_rx_universe_cap(m, pkts.drop_last());
        let prev = ingest_all(m, pkts.drop_last());
        let (u, d) = pkts.last();
        if rx_accepts(prev, u) {
            if prev.contains_key(u) {
                assert(prev.insert(u, d).dom() =~= prev.dom());
            } else {
                assert(prev.insert(u, d).dom() =~= prev.dom().insert(u));
            }
        }
    }
}

/// Decoding an ArtDMX packet that was built for `universe` gives back the
/// universe (reduced to its 15-bit Port-Address) and all 512 data bytes.
pub proof fn law_artdmx_round_trip(universe: u16, data: Seq<u8>)
    requires
        data.len() == 512,
    ensures
        artdmx_fields(artdmx_packet(universe, data)) == Some(((universe % 32768) as u16, data)),
{
    let p = artdmx_packet(universe, data);
    assert(p.subrange(0, 8) =~= artnet_id());
    assert(p[8] == 0x00 && p[9] == 0x50);
    assert(p[14] == (universe % 256) as u8);
    assert(p[15] == ((universe / 256) % 128) as u8);
    assert(p[16] == 2 && p[17] == 0);
    let u = universe as int;
    assert((u % 256) + ((u / 256) % 128 % 128) * 256 == u % 32768) by (nonlinear_arith)
        requires
            0 <= u < 65536,
    ;
    assert(p.subrange(18, 530) =~= data);
}

/// The byte layout of a built ArtDMX packet (530 bytes): `"Art-Net\0"`,
/// OpCode 0x5000 low byte first, protocol version 14 high byte first,
/// sequence and physical 0, the 15-bit Port-Address low byte first (byte 14
/// the SubUni, byte 15 the Net), the data length 512 high byte first, then
/// the 512 data bytes.
pub proof fn law_artdmx_layout(universe: u16, data: Seq<u8>)
    requires
        data.len() == 512,
    ensures
        ({
            let p = artdmx_packet(universe, data);
            &&& p.len() == 530
            &&& p[0] == 0x41 && p[1] == 0x72 && p[2] == 0x74 && p[3] == 0x2D
            &&& p[4] == 0x4E && p[5] == 0x65 && p[6] == 0x74 && p[7] == 0x00
            &&& p[8] == 0x00 && p[9] == 0x50
            &&& p[10] == 0 && p[11] == 14
            &&& p[12] == 0 && p[13] == 0
            &&& p[14] as int == universe as int % 256
            &&& p[15] as int == (universe as int / 256) % 128
            &&& p[16] == 2 && p[17] == 0
            &&& forall|i: int| 0 <= i < 512 ==> #[trigger] p[18 + i] == data[i]
        }),
{
    let p = artdmx_packet(universe, data);
    assert forall|i: int| 0 <= i < 512 implies #[trigger] p[18 + i] == data[i] by {}
}

/// Decoding reads the Port-Address from bytes 14 (low) and 15 (high, top
/// bit ignored), and the data length from bytes 16 (high) and 17 (low);
/// the data are the bytes that follow the 18-byte header.
pub proof fn law_artdmx_decode_positions(buf: Seq<u8>)
    ensures
        artdmx_fields(buf) matches Some((u, d)) ==> {
            &&& u as int == buf[14] as int + (buf[15] as int % 128) * 256
            &&& d.len() == buf[16] as int * 256 + buf[17] as int
            &&& forall|i: int| 0 <= i < d.len() ==> #[trigger] d[i] == buf[18 + i]
        },
{
}

/// An ArtPoll packet is `"Art-Net\0"`, OpCode 0x2000 low byte first,
/// protocol version 14 high byte first, TalkToMe 0x06 and priority 0.
pub proof fn law_artpoll_layout()
    ensures
        ({
            let p = artpoll_packet();
            &&& p.len() == 14
            &&& p[0] == 0x41 && p[1] == 0x72 && p[2] == 0x74 && p[3] == 0x2D
            &&& p[4] == 0x4E && p[5] == 0x65 && p[6] == 0x74 && p[7] == 0x00
            &&& p[8] == 0x00 && p[9] == 0x20
            &&& p[10] == 0 && p[11] == 14
            &&& p[12] == 0x06 && p[13] == 0
        }),
{
}

/// An ArtPollReply is recognised by its identifier and OpCode 0x2100 (low
/// byte first) in a packet of at least 239 bytes; its node has the IP of
/// bytes 10-13, the status of byte 23, the port count of byte 173 and the
/// port types of bytes 174-177.
pub proof fn law_artpoll_reply_positions(buf: Seq<u8>, node: ArtNetNode)
    ensures
        is_artpoll_reply(buf) <==> (buf.len() >= 239 && buf[0] == 0x41 && buf[1] == 0x72 && buf[2] == 0x74
            && buf[3] == 0x2D && buf[4] == 0x4E && buf[5] == 0x65 && buf[6] == 0x74 && buf[7] == 0x00
            && buf[8] == 0x00 && buf[9] == 0x21),
        is_artpoll_reply(buf) && artpoll_reply_fields(buf, node) ==> {
            &&& node.ip@.len() == 4
            &&& forall|k: int| 0 <= k < 4 ==> #[trigger] node.ip@[k] == buf[10 + k]
            &&& node.status == buf[23]
            &&& node.num_ports as int == buf[173] as int
            &&& forall|k: int| 0 <= k < 4 ==> #[trigger] node.port_types@[k] == buf[174 + k]
        },
{
    if buf.len() >= 239 {
        let t = buf.subrange(0, 8);
        if buf[0] == 0x41 && buf[1] == 0x72 && buf[2] == 0x74 && buf[3] == 0x2D && buf[4] == 0x4E && buf[5]
            == 0x65 && buf[6] == 0x74 && buf[7] == 0x00 {
            assert(t =~= artnet_id());
        }
        if t == artnet_id() {
            assert(t[0] == buf[0] && t[1] == buf[1] && t[2] == buf[2] && t[3] == buf[3]);
            assert(t[4] == buf[4] && t[5] == buf[5] && t[6] == buf[6] && t[7] == buf[7]);
        }
    }
}

/// The receive path never drops a universe it holds; a packet for a held
/// universe always replaces that universe's data; a packet for a new
/// universe is taken while fewer than 64 are held and ignored once 64 are.
pub proof fn law_rx_ingest(m: Map<u16, Seq<u8>>, pkts: Seq<(u16, Seq<u8>)>, u: u16, d: Seq<u8>)
    ensures
        forall|v: u16| m.contains_key(v) ==> #[trigger] ingest_all(m, pkts).contains_key(v),
        ingest_all(m, pkts).contains_key(u) ==> ingest_all(m, pkts.push((u, d))) == ingest_all(m, pkts).insert(u, d),
        !ingest_all(m, pkts).contains_key(u) && ingest_all(m, pkts).dom().len() < 64 ==> ingest_all(m, pkts.push((u, d)))
            == ingest_all(m, pkts).insert(u, d),
        !ingest_all(m, pkts).contains_key(u) && ingest_all(m, pkts).dom().len() >= 64 ==> ingest_all(m, pkts.push((u, d)))
            == ingest_all(m, pkts),
    decreases pkts.len(),
{
    assert(pkts.push((u, d)).drop_last() =~= pkts);
    if pkts.len() > 0 {
        law_rx_ingest(m, pkts.drop_last(), u, d);
    }
}

/// Whether `msg` is a DMX message from a source the allowlist admits (any
/// source where the list is empty).
pub open spec fn admitted(msg: ArtNetRxMsg, allow: Seq<[u8; 4]>) -> bool {
    match msg {
        ArtNetRxMsg::Dmx(p) => allow.len() == 0 || allow.contains(p.source),
        ArtNetRxMsg::Node(_) => false,
    }
}

/// The universe and data a DMX message carries.
pub open spec fn carried(msg: ArtNetRxMsg) -> (u16, Seq<u8>) {
    match msg {
        ArtNetRxMsg::Dmx(p) => (p.universe, p.data@),
        ArtNetRxMsg::Node(_) => (0u16, Seq::empty()),
    }
}

/// Every universe packet that the allowlist lets through is carried by an
/// admitted DMX message of the input, and every admitted DMX message is let
/// through.
pub proof fn law_rx_allowlist(msgs: Seq<ArtNetRxMsg>, allow: Seq<[u8; 4]>)
    ensures
        forall|k: int|
            0 <= k < allowed_dmx(msgs, allow).len() ==> exists|i: int|
                0 <= i < msgs.len() && admitted(#[trigger] msgs[i], allow) && carried(msgs[i]) == #[trigger] allowed_dmx(
                    msgs,
                    allow,
                )[k],
        forall|i: int|
            0 <= i < msgs.len() && admitted(#[trigger] msgs[i], allow) ==> exists|k: int|
                0 <= k < allowed_dmx(msgs, allow).len() && allowed_dmx(msgs, allow)[k] == carried(msgs[i]),
    decreases msgs.len(),
{
    if msgs.len() > 0 {
        let q = msgs.drop_last();
        law_rx_allowlist(q, allow);
        let prev = allowed_dmx(q, allow);
        let cur = allowed_dmx(msgs, allow);
        assert forall|k: int| 0 <= k < cur.len() implies exists|i: int|
            0 <= i < msgs.len() && admitted(#[trigger] msgs[i], allow) && carried(msgs[i]) == #[trigger] cur[k] by {
            if k < prev.len() {
                assert(cur[k] == prev[k]);
                let i = choose|i: int|
                    0 <= i < q.len() && admitted(#[trigger] q[i], allow) && carried(q[i]) == #[trigger] prev[k];
                assert(msgs[i] == q[i]);
            } else {
                assert(msgs[msgs.len() - 1] == msgs.last());
            }
        }
        assert forall|i: int| 0 <= i < msgs.len() && admitted(#[trigger] msgs[i], allow) implies exists|k: int|
            0 <= k < cur.len() && cur[k] == carried(msgs[i]) by {
            if i < q.len() {
                assert(msgs[i] == q[i]);
                let k = choose|k: int| 0 <= k < prev.len() && prev[k] == carried(q[i]);
                assert(cur[k] == prev[k]);
            } else {
                assert(cur[prev.len() as int] == carried(msgs[i]));
            }
        }
    }
}

} // verus!
