//! sACN / E1.31 (ANSI E1.31-2016): Data Packets, their decoding, universe
//! multicast addresses, and what the receive path does with packets.
use vstd::prelude::*;
use crate::artnet::{ingest_all, ingest_count, ingest_universe};
use crate::universe::{contents, UniverseSet};

verus! {

pub const SACN_PORT: u16 = 5568;

/// Total length of an E1.31 Data Packet with 512 slots.
pub const SACN_PACKET_LEN: usize = 638;

/// ACN Packet Identifier per ANSI E1.17: `"ASC-E1.17\0\0\0"`.
pub open spec fn acn_id() -> Seq<u8> {
    seq![0x41u8, 0x53, 0x43, 0x2D, 0x45, 0x31, 0x2E, 0x31, 0x37, 0x00, 0x00, 0x00]
}

/// The fixed Component Identifier of this source: `"stageLX"`, zero padding, 0x01.
pub open spec fn cid() -> Seq<u8> {
    seq![0x73u8, 0x74, 0x61, 0x67, 0x65, 0x4C, 0x58, 0, 0, 0, 0, 0, 0, 0, 0, 0x01]
}

/// The 64-byte Source Name field: `"stageLX"` followed by zeros.
pub open spec fn source_name() -> Seq<u8> {
    seq![0x73u8, 0x74, 0x61, 0x67, 0x65, 0x4C, 0x58] + Seq::new(57, |i: int| 0u8)
}

/// PDU Flags & Length: top 4 bits 0x7, low 12 bits the PDU length
/// `total - pdu_start`.
pub open spec fn flags_length(pdu_start: int, total: int) -> Seq<u8> {
    let len = total - pdu_start;
    seq![(0x70 + (len / 256) % 16) as u8, (len % 256) as u8]
}

/// Encodes PDU Flags & Length for a PDU starting at `pdu_start` in a packet of `total` bytes.
pub fn fl(pdu_start: usize, total: usize) -> (r: [u8; 2])
    requires
        pdu_start <= total,
    ensures
        r@ == flags_length(pdu_start as int, total as int),
{
    let len = total - pdu_start;
    let h = 0x70 | (((len >> 8) as u8) & 0x0F);
    let l = (len & 0xFF) as u8;
    assert(h == (0x70 + (len / 256) % 16) as u8 && l == (len % 256) as u8) by (bit_vector)
        requires
            h == 0x70 | (((len >> 8) as u8) & 0x0F),
            l == (len & 0xFF) as u8,
    ;
    let r = [h, l];
    assert(r@ =~= flags_length(pdu_start as int, total as int));
    r
}

/// The 126 bytes that precede the DMX slots in a Data Packet.
pub open spec fn sacn_header(universe: u16, priority: u8, sequence: u8) -> Seq<u8> {
    seq![0x00u8, 0x10, 0x00, 0x00] + acn_id()
        // Root PDU
        + flags_length(0x10, 638) + seq![0x00u8, 0x00, 0x00, 0x04] + cid()
        // Framing PDU
        + flags_length(0x26, 638) + seq![0x00u8, 0x00, 0x00, 0x02] + source_name() + seq![
        priority,
        0x00,
        0x00,
        sequence,
        0x00,
        (universe / 256) as u8,
        (universe % 256) as u8,
    ]
        // DMP PDU
        + flags_length(0x73, 638) + seq![0x02u8, 0xA1, 0x00, 0x00, 0x00, 0x01, 0x02, 0x01, 0x00]
}

/// An E1.31 Data Packet for `universe` carrying the 512 slots `data`.
pub open spec fn sacn_packet(universe: u16, priority: u8, sequence: u8, data: Seq<u8>) -> Seq<u8> {
    sacn_header(universe, priority, sequence) + data
}

fn push_slice(v: &mut Vec<u8>, s: &[u8])
    ensures
        final(v)@ == old(v)@ + s@,
{
    let mut i: usize = 0;
    while i < s.len()
        invariant
            i <= s@.len(),
            v@ == old(v)@ + s@.subrange(0, i as int),
        decreases s@.len() - i,
    {
        v.push(s[i]);
        assert(s@.subrange(0, i + 1) =~= s@.subrange(0, i as int).push(s@[i as int]));
        i = i + 1;
    }
    assert(s@.subrange(0, s@.len() as int) =~= s@);
}

/// Builds a 638-byte E1.31 Data Packet.
pub fn build_sacn(universe: u16, priority: u8, sequence: u8, data: &[u8; 512]) -> (p: Vec<u8>)
    ensures
        p@ == sacn_packet(universe, priority, sequence, data@),
{
    let mut p: Vec<u8> = Vec::with_capacity(SACN_PACKET_LEN);
    let pre: [u8; 4] = [0x00, 0x10, 0x00, 0x00];
    push_slice(&mut p, &pre);
    let id: [u8; 12] = [0x41, 0x53, 0x43, 0x2D, 0x45, 0x31, 0x2E, 0x31, 0x37, 0x00, 0x00, 0x00];
    push_slice(&mut p, &id);
    push_slice(&mut p, &fl(0x10, SACN_PACKET_LEN));
    let root_vec: [u8; 4] = [0x00, 0x00, 0x00, 0x04];
    push_slice(&mut p, &root_vec);
    let cid_bytes: [u8; 16] = [0x73, 0x74, 0x61, 0x67, 0x65, 0x4C, 0x58, 0, 0, 0, 0, 0, 0, 0, 0, 0x01];
    push_slice(&mut p, &cid_bytes);
    push_slice(&mut p, &fl(0x26, SACN_PACKET_LEN));
    let frame_vec: [u8; 4] = [0x00, 0x00, 0x00, 0x02];
    push_slice(&mut p, &frame_vec);
    let name: [u8; 7] = [0x73, 0x74, 0x61, 0x67, 0x65, 0x4C, 0x58];
    push_slice(&mut p, &name);
    let pad = [0u8; 57];
    push_slice(&mut p, &pad);
    let hi = (universe >> 8) as u8;
    let lo = (universe & 0xFF) as u8;
    assert(hi == (universe / 256) as u8 && lo == (universe % 256) as u8) by (bit_vector)
        requires
            hi == (universe >> 8) as u8,
            lo == (universe & 0xFF) as u8,
    ;
    let framing_tail: [u8; 7] = [priority, 0x00, 0x00, sequence, 0x00, hi, lo];
    push_slice(&mut p, &framing_tail);
    push_slice(&mut p, &fl(0x73, SACN_PACKET_LEN));
    let dmp: [u8; 9] = [0x02, 0xA1, 0x00, 0x00, 0x00, 0x01, 0x02, 0x01, 0x00];
    push_slice(&mut p, &dmp);
    proof {
        assert(pre@ =~= seq![0x00u8, 0x10, 0x00, 0x00]);
        assert(id@ =~= acn_id());
        assert(root_vec@ =~= seq![0x00u8, 0x00, 0x00, 0x04]);
        assert(cid_bytes@ =~= cid());
        assert(frame_vec@ =~= seq![0x00u8, 0x00, 0x00, 0x02]);
        assert(name@ + pad@ =~= source_name());
        assert(framing_tail@ =~= seq![priority, 0x00, 0x00, sequence, 0x00, (universe / 256) as u8, (universe % 256) as u8]);
        assert(dmp@ =~= seq![0x02u8, 0xA1, 0x00, 0x00, 0x00, 0x01, 0x02, 0x01, 0x00]);
        assert(p@ =~= sacn_header(universe, priority, sequence));
    }
    push_slice(&mut p, data);
    p
}

/// What decoding `buf` as a Data Packet yields: universe, priority and the
/// DMX slots (at most 512) after a null start code.
pub open spec fn sacn_fields(buf: Seq<u8>) -> Option<(u16, u8, Seq<u8>)> {
    if buf.len() < 0x7E {
        None
    } else if buf.subrange(4, 16) != acn_id() {
        None
    } else if buf.subrange(0x12, 0x16) != seq![0x00u8, 0x00, 0x00, 0x04] {
        None
    } else if buf.subrange(0x28, 0x2C) != seq![0x00u8, 0x00, 0x00, 0x02] {
        None
    } else if buf[0x75] != 0x02 || buf[0x7D] != 0x00 {
        None
    } else {
        let universe = buf[0x71] as int * 256 + buf[0x72] as int;
        if universe == 0 || universe > 63999 {
            None
        } else {
            let end = if buf.len() < 0x7E + 512 { buf.len() as int } else { 638int };
            Some((universe as u16, buf[0x6C], buf.subrange(0x7E, end)))
        }
    }
}

fn slice_matches(buf: &[u8], start: usize, expect: &[u8]) -> (r: bool)
    requires
        start + expect@.len() <= buf@.len(),
    ensures
        r == (buf@.subrange(start as int, start + expect@.len()) == expect@),
{
    let n = buf.len();
    let mut i: usize = 0;
    while i < expect.len()
        invariant
            i <= expect@.len(),
            start + expect@.len() <= buf@.len(),
            n == buf@.len(),
            forall|j: int| 0 <= j < i ==> buf@[start + j] == expect@[j],
        decreases expect@.len() - i,
    {
        if buf[start + i] != expect[i] {
            proof {
                let t = buf@.subrange(start as int, start + expect@.len());
                assert(t[i as int] == buf@[start + i]);
            }
            return false;
        }
        i = i + 1;
    }
    assert(buf@.subrange(start as int, start + expect@.len()) =~= expect@);
    true
}

/// Decodes an E1.31 Data Packet into `(universe, priority, dmx_data)`.
pub fn parse_sacn(buf: &[u8]) -> (r: Option<(u16, u8, &[u8])>)
    ensures
        match r {
            Some((u, p, d)) => sacn_fields(buf@) == Some((u, p, d@)),
            None => sacn_fields(buf@) is None,
        },
{
    if buf.len() < 0x7E {
        return None;
    }
    let id: [u8; 12] = [0x41, 0x53, 0x43, 0x2D, 0x45, 0x31, 0x2E, 0x31, 0x37, 0x00, 0x00, 0x00];
    assert(id@ =~= acn_id());
    if !slice_matches(buf, 4, &id) {
        return None;
    }
    let root_vec: [u8; 4] = [0x00, 0x00, 0x00, 0x04];
    assert(root_vec@ =~= seq![0x00u8, 0x00, 0x00, 0x04]);
    if !slice_matches(buf, 0x12, &root_vec) {
        return None;
    }
    let frame_vec: [u8; 4] = [0x00, 0x00, 0x00, 0x02];
    assert(frame_vec@ =~= seq![0x00u8, 0x00, 0x00, 0x02]);
    if !slice_matches(buf, 0x28, &frame_vec) {
        return None;
    }
    if buf[0x75] != 0x02 {
        return None;
    }
    if buf[0x7D] != 0x00 {
        return None;
    }
    let priority = buf[0x6C];
    let universe = ((buf[0x71] as u16) << 8) | (buf[0x72] as u16);
    let b71 = buf[0x71];
    let b72 = buf[0x72];
    assert(universe == b71 as int * 256 + b72 as int) by (bit_vector)
        requires
            universe == ((b71 as u16) << 8) | (b72 as u16),
    ;
    if universe == 0 || universe > 63999 {
        return None;
    }
    let end = if buf.len() < 0x7E + 512 { buf.len() } else { 0x7E + 512 };
    Some((universe, priority, &buf[0x7E..end]))
}

/// Multicast group of a sACN universe: 239.255.(universe >> 8).(universe & 0xFF).
pub fn multicast_addr(universe: u16) -> (a: [u8; 4])
    ensures
        a@ == seq![239u8, 255u8, (universe / 256) as u8, (universe % 256) as u8],
{
    let hi = (universe >> 8) as u8;
    let lo = (universe & 0xFF) as u8;
    assert(hi == (universe / 256) as u8 && lo == (universe % 256) as u8) by (bit_vector)
        requires
            hi == (universe >> 8) as u8,
            lo == (universe & 0xFF) as u8,
    ;
    let a = [239, 255, hi, lo];
    assert(a@ =~= seq![239u8, 255u8, (universe / 256) as u8, (universe % 256) as u8]);
    a
}

/// A received E1.31 packet.
#[derive(Debug, Clone)]
pub struct ReceivedSacnPacket {
    pub universe: u16,
    pub priority: u8,
    /// Sender's IPv4 address, most significant octet first.
    pub source: [u8; 4],
    /// Fixed-size DMX data — avoids heap allocation on the UDP hot path.
    pub data: [u8; 512],
}

/// A frame for the sACN transmit thread.
#[derive(Debug, Clone)]
pub struct SacnTxCmd {
    pub universe: u16,
    pub priority: u8,
    pub sequence: u8,
    pub data: [u8; 512],
}

/// The (universe, data) pairs of received packets.
pub open spec fn packet_slots(pkts: Seq<ReceivedSacnPacket>) -> Seq<(u16, Seq<u8>)> {
    pkts.map_values(|p: ReceivedSacnPacket| (p.universe, p.data@))
}

/// Applies packets drained from the sACN receive thread to the "sacn_in"
/// universes, under the universe cap. Returns the number taken in.
pub fn sacn_receive(source: &mut UniverseSet, pkts: Vec<ReceivedSacnPacket>) -> (count: u64)
    ensures
        contents(final(source)@) == ingest_all(contents(old(source)@), packet_slots(pkts@)),
        count == ingest_count(contents(old(source)@), packet_slots(pkts@)),
{
    let ghost start = contents(source@);
    let mut count: u64 = 0;
    let mut i: usize = 0;
    while i < pkts.len()
        invariant
            i <= pkts@.len(),
            count <= i,
            contents(source@) == ingest_all(start, packet_slots(pkts@.take(i as int))),
            count == ingest_count(start, packet_slots(pkts@.take(i as int))),
        decreases pkts@.len() - i,
    {
        proof {
            let prev = packet_slots(pkts@.take(i as int));
            let next = packet_slots(pkts@.take(i + 1));
            assert(next =~= prev.push((pkts@[i as int].universe, pkts@[i as int].data@)));
            assert(next.drop_last() =~= prev);
        }
        let taken = ingest_universe(source, pkts[i].universe, &pkts[i].data);
        if taken {
            count = count + 1;
        }
        i = i + 1;
    }
    assert(pkts@.take(pkts@.len() as int) =~= pkts@);
    count
}

/// The sequence number to send now and the one to keep for the next frame
/// (E1.31 sequence numbers wrap from 255 to 0).
pub fn next_sequence(current: u8) -> (r: (u8, u8))
    ensures
        r.0 == current,
        r.1 == (current as int + 1) % 256,
{
    (current, current.wrapping_add(1))
}

/// Decoding a Data Packet built for a universe in 1–63999 gives back its
/// universe, priority and all 512 slots.
pub proof fn law_sacn_round_trip(universe: u16, priority: u8, sequence: u8, data: Seq<u8>)
    requires
        data.len() == 512,
        1 <= universe <= 63999,
    ensures
        sacn_fields(sacn_packet(universe, priority, sequence, data)) == Some((universe, priority, data)),
{
    let p = sacn_packet(universe, priority, sequence, data);
    let h = sacn_header(universe, priority, sequence);
    assert(h.len() == 126);
    assert(p.subrange(4, 16) =~= acn_id());
    assert(p.subrange(0x12, 0x16) =~= seq![0x00u8, 0x00, 0x00, 0x04]);
    assert(p.subrange(0x28, 0x2C) =~= seq![0x00u8, 0x00, 0x00, 0x02]);
    assert(p[0x75] == 0x02 && p[0x7D] == 0x00);
    assert(p[0x6C] == priority);
    assert(p[0x71] == (universe / 256) as u8 && p[0x72] == (universe % 256) as u8);
    assert(p.subrange(0x7E, 638) =~= data);
}

/// A built Data Packet always has the E1.31 length of 638 bytes.
pub proof fn law_sacn_length(universe: u16, priority: u8, sequence: u8, data: Seq<u8>)
    requires
        data.len() == 512,
    ensures
        sacn_packet(universe, priority, sequence, data).len() == 638,
{
}

/// The byte layout of a built E1.31 Data Packet (638 bytes), at the offsets
/// ANSI E1.31 fixes: preamble size 0x0010 and post-amble 0, the ACN packet
/// identifier, root flags/length 0x726E and vector 4, the framing
/// flags/length 0x7258 and vector 2, priority at 0x6C, sequence at 0x6F,
/// options 0, the universe high byte first at 0x71-0x72, DMP flags/length
/// 0x720B, vector 2, address type 0xA1, property count 513, start code 0
/// at 0x7D, then the 512 slots.
pub proof fn law_sacn_layout(universe: u16, priority: u8, sequence: u8, data: Seq<u8>)
    requires
        data.len() == 512,
    ensures
        ({
            let p = sacn_packet(universe, priority, sequence, data);
            &&& p.len() == 638
            &&& p[0] == 0x00 && p[1] == 0x10 && p[2] == 0x00 && p[3] == 0x00
            &&& p[4] == 0x41 && p[5] == 0x53 && p[6] == 0x43 && p[7] == 0x2D && p[8] == 0x45
            &&& p[9] == 0x31 && p[10] == 0x2E && p[11] == 0x31 && p[12] == 0x37
            &&& p[13] == 0 && p[14] == 0 && p[15] == 0
            &&& p[0x10] == 0x72 && p[0x11] == 0x6E
            &&& p[0x12] == 0 && p[0x13] == 0 && p[0x14] == 0 && p[0x15] == 0x04
            &&& p[0x26] == 0x72 && p[0x27] == 0x58
            &&& p[0x28] == 0 && p[0x29] == 0 && p[0x2A] == 0 && p[0x2B] == 0x02
            &&& p[0x6C] == priority
            &&& p[0x6D] == 0 && p[0x6E] == 0
            &&& p[0x6F] == sequence
            &&& p[0x70] == 0
            &&& p[0x71] as int == universe as int / 256
            &&& p[0x72] as int == universe as int % 256
            &&& p[0x73] == 0x72 && p[0x74] == 0x0B
            &&& p[0x75] == 0x02 && p[0x76] == 0xA1
            &&& p[0x77] == 0 && p[0x78] == 0 && p[0x79] == 0 && p[0x7A] == 0x01
            &&& p[0x7B] == 0x02 && p[0x7C] == 0x01
            &&& p[0x7D] == 0
            &&& forall|i: int| 0 <= i < 512 ==> #[trigger] p[0x7E + i] == data[i]
        }),
{
    let p = sacn_packet(universe, priority, sequence, data);
    let h = sacn_header(universe, priority, sequence);
    assert(h.len() == 126);
    assert(h[0x10] == 0x72 && h[0x11] == 0x6E);
    assert(h[0x26] == 0x72 && h[0x27] == 0x58);
    assert(h[0x73] == 0x72 && h[0x74] == 0x0B);
    assert forall|i: int| 0 <= i < 512 implies #[trigger] p[0x7E + i] == data[i] by {}
}

/// Decoding reads the priority from byte 0x6C and the universe from bytes
/// 0x71 (high) and 0x72 (low), and takes the slots after the start code
/// at 0x7D, at most 512 of them.
pub proof fn law_sacn_decode_positions(buf: Seq<u8>)
    ensures
        sacn_fields(buf) matches Some((u, pr, d)) ==> {
            &&& u as int == buf[0x71] as int * 256 + buf[0x72] as int
            &&& 1 <= u <= 63999
            &&& pr == buf[0x6C]
            &&& d.len() == (if buf.len() < 638 { buf.len() - 0x7E } else { 512 })
            &&& forall|i: int| 0 <= i < d.len() ==> #[trigger] d[i] == buf[0x7E + i]
        },
{
}

} // verus!
