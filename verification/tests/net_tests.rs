use stagelx::artnet::{
    artnet_receive, build_artdmx, build_artpoll, cstr_trim, ingest_universe, parse_artdmx,
    parse_artpoll_reply, ArtNetNode, ArtNetNodeTable, ArtNetRxMsg, ReceivedPacket,
};
use stagelx::gdtf::DmxChannelMap;
use stagelx::io::{
    allowlist_tokens, apply_osc_color, apply_osc_level, artnet_plan, drops_to_publish, link_action,
    midi_wants_open, overflow_warning, record_send, route_midi, route_osc, sacn_plan,
    sacn_rx_universe, should_bind, status_after_open, status_to_dot, usb_plan, DotState, LinkAction,
    MidiCcMap, MidiTarget, OscAttr, OscRoute, PollAction, ProtocolStatus, SendOutcome, TxStats,
    UsbPlan,
};
use stagelx::sacn::{build_sacn, multicast_addr, next_sequence, parse_sacn, sacn_receive, ReceivedSacnPacket};
use stagelx::universe::{DmxBuffer, UniverseSet};
use stagelx::usb::build_enttec_frame;

fn ramp() -> [u8; 512] {
    let mut d = [0u8; 512];
    for (i, b) in d.iter_mut().enumerate() {
        *b = (i % 251) as u8;
    }
    d
}

#[test]
fn artdmx_round_trip() {
    let data = ramp();
    let pkt = build_artdmx(0x8123, &data);
    assert_eq!(pkt.len(), 530);
    assert_eq!(&pkt[0..8], b"Art-Net\0");
    let (u, d) = parse_artdmx(&pkt).unwrap();
    assert_eq!(u, 0x0123);
    assert_eq!(d, &data[..]);
    assert!(parse_artdmx(&pkt[..17]).is_none());
}

#[test]
fn artpoll_packet() {
    let p = build_artpoll();
    assert_eq!(&p[0..8], b"Art-Net\0");
    assert_eq!(p[8], 0x00);
    assert_eq!(p[9], 0x20);
}

#[test]
fn artpoll_reply_decoding() {
    let mut buf = vec![0u8; 239];
    buf[0..8].copy_from_slice(b"Art-Net\0");
    buf[8] = 0x00;
    buf[9] = 0x21;
    buf[10..14].copy_from_slice(&[10, 0, 0, 7]);
    buf[23] = 0x42;
    buf[26..30].copy_from_slice(b"Node");
    buf[44..49].copy_from_slice(b"Long!");
    buf[173] = 2;
    buf[174..178].copy_from_slice(&[1, 2, 3, 4]);
    let n = parse_artpoll_reply(&buf).unwrap();
    assert_eq!(n.ip, [10, 0, 0, 7]);
    assert_eq!(n.short_name, "Node");
    assert_eq!(n.long_name, "Long!");
    assert_eq!(n.status, 0x42);
    assert_eq!(n.num_ports, 2);
    assert_eq!(n.port_types, [1, 2, 3, 4]);
    buf[9] = 0x50;
    assert!(parse_artpoll_reply(&buf).is_none());
    assert_eq!(cstr_trim(b"ab\0cd"), "ab");
}

#[test]
fn artnet_receive_applies_allowlist_and_nodes() {
    let mut src = UniverseSet::new();
    let mut table = ArtNetNodeTable { nodes: Default::default(), version: 0 };
    let data = ramp();
    let msgs = vec![
        ArtNetRxMsg::Dmx(ReceivedPacket { universe: 1, source: [10, 0, 0, 1], data }),
        ArtNetRxMsg::Dmx(ReceivedPacket { universe: 2, source: [10, 0, 0, 9], data }),
        ArtNetRxMsg::Node(ArtNetNode {
            ip: [10, 0, 0, 5],
            short_name: "n".to_string(),
            long_name: "node".to_string(),
            status: 0,
            num_ports: 1,
            port_types: [0; 4],
        }),
    ];
    let count = artnet_receive(&mut src, msgs, &vec![[10, 0, 0, 1]], &mut table);
    assert_eq!(count, 1);
    assert!(src.get(1).is_some());
    assert!(src.get(2).is_none());
    assert_eq!(table.version, 1);
    assert_eq!(table.nodes.len(), 1);
}

#[test]
fn universe_cap_refuses_new_universes() {
    let mut set = UniverseSet::new();
    let data = [1u8; 512];
    for u in 0..64u16 {
        assert!(ingest_universe(&mut set, u, &data));
    }
    assert!(!ingest_universe(&mut set, 64, &data));
    assert!(ingest_universe(&mut set, 3, &data));
    assert_eq!(set.len(), 64);
}

#[test]
fn sacn_round_trip() {
    let data = ramp();
    let pkt = build_sacn(7, 150, 9, &data);
    assert_eq!(pkt.len(), 638);
    let (u, prio, d) = parse_sacn(&pkt).unwrap();
    assert_eq!((u, prio), (7, 150));
    assert_eq!(d, &data[..]);
    assert_eq!(multicast_addr(0x0102), [239, 255, 1, 2]);
    assert_eq!(next_sequence(255), (255, 0));
    assert_eq!(next_sequence(3), (3, 4));
    let mut set = UniverseSet::new();
    let n = sacn_receive(&mut set, vec![ReceivedSacnPacket { universe: 7, priority: 100, source: [10, 0, 0, 2], data }]);
    assert_eq!(n, 1);
    assert_eq!(set.get(7).unwrap().get(2), 1);
}

#[test]
fn enttec_frame_layout() {
    let data = ramp();
    let f = build_enttec_frame(&data);
    assert_eq!(&f[0..5], &[0x7E, 6, 0x01, 0x02, 0x00]);
    assert_eq!(&f[5..517], &data[..]);
    assert_eq!(f[517], 0xE7);
}

#[test]
fn link_plans() {
    assert_eq!(link_action(true, false), LinkAction::Open);
    assert_eq!(link_action(false, true), LinkAction::Close);
    assert_eq!(link_action(true, true), LinkAction::Keep);
    assert_eq!(status_after_open(true), ProtocolStatus::Live);
    assert_eq!(status_after_open(false), ProtocolStatus::Error);
    assert!(should_bind(true, false, true));
    assert!(!should_bind(true, false, false));
    assert_eq!(drops_to_publish(5, 3), Some(5));
    assert_eq!(drops_to_publish(3, 3), None);
    assert_eq!(overflow_warning(4, 2), Some(4));
    assert_eq!(overflow_warning(2, 2), None);
    assert_eq!(status_to_dot(ProtocolStatus::Warn), DotState::Warn);
    assert!(DotState::Tx.glows());
    assert!(!DotState::Idle.glows());
}

#[test]
fn artnet_and_sacn_plans() {
    let p = artnet_plan(true, false, false, true, true, true);
    assert!(p.start_rx && p.start_tx && !p.stop_rx && !p.stop_tx);
    assert_eq!(p.poll, PollAction::MarkAndSend);
    let q = artnet_plan(false, true, true, false, true, true);
    assert!(q.stop_rx && q.stop_tx && !q.start_tx);
    assert_eq!(q.poll, PollAction::MarkOnly);
    assert_eq!(artnet_plan(true, true, true, true, false, true).poll, PollAction::Skip);

    assert_eq!(sacn_rx_universe(0, 4), 4);
    assert_eq!(sacn_rx_universe(2, 4), 2);
    let s = sacn_plan(true, false, false, true, true, 0, 4);
    assert_eq!(s.join_universe, Some(4));
    assert!(s.start_rx && s.start_tx && !s.release);
    let r = sacn_plan(true, true, true, false, false, 0, 4);
    assert!(r.release && r.stop_rx && r.stop_tx);
    assert_eq!(r.join_universe, None);
}

#[test]
fn usb_and_midi_plans() {
    assert_eq!(usb_plan(true, false, "  "), UsbPlan::NoPort);
    assert_eq!(usb_plan(true, false, " /dev/ttyUSB0 "), UsbPlan::Start);
    assert_eq!(usb_plan(false, true, ""), UsbPlan::Stop);
    assert_eq!(usb_plan(true, true, ""), UsbPlan::Keep);
    assert!(midi_wants_open(true, " port "));
    assert!(!midi_wants_open(true, "   "));
    assert!(!midi_wants_open(false, "port"));
}

#[test]
fn send_statistics() {
    let mut s = TxStats { tx_count: u64::MAX - 1, status: ProtocolStatus::Idle };
    record_send(&mut s, SendOutcome::Sent);
    assert_eq!(s.tx_count, u64::MAX);
    assert_eq!(s.status, ProtocolStatus::Live);
    record_send(&mut s, SendOutcome::Sent);
    assert_eq!(s.tx_count, u64::MAX);
    record_send(&mut s, SendOutcome::Full);
    assert_eq!(s.status, ProtocolStatus::Live);
    record_send(&mut s, SendOutcome::Disconnected);
    assert_eq!(s.status, ProtocolStatus::Error);
}

#[test]
fn allowlist_pieces() {
    assert_eq!(allowlist_tokens(" 10.0.0.1 , x,"), vec!["10.0.0.1", "x", ""]);
    assert_eq!(allowlist_tokens(""), vec![""]);
}

#[test]
fn osc_routes() {
    assert_eq!(route_osc("/cue/go"), OscRoute::CueGo);
    assert_eq!(route_osc("//cue/back"), OscRoute::CueBack);
    assert_eq!(route_osc("/cue/stop"), OscRoute::Ignore);
    assert_eq!(route_osc("/fixture/12/dimmer"), OscRoute::Fixture { id: 12, attr: OscAttr::Dimmer });
    assert_eq!(route_osc("fixture/3/color/extra"), OscRoute::Fixture { id: 3, attr: OscAttr::Color });
    assert_eq!(route_osc("/fixture/x/pan"), OscRoute::Ignore);
    assert_eq!(route_osc("/fixture/1"), OscRoute::Ignore);
    assert_eq!(route_osc("/fixture/1/zoom"), OscRoute::Fixture { id: 1, attr: OscAttr::Unknown });
    assert_eq!(route_osc("/light/1/pan"), OscRoute::Ignore);
}

#[test]
fn osc_levels_to_channels() {
    let map = DmxChannelMap {
        dimmer: Some(0),
        pan: Some(1),
        pan_fine: Some(2),
        tilt: None,
        tilt_fine: None,
        red: Some(3),
        green: Some(4),
        blue: None,
        gobo: None,
        gobo_rotation: None,
        color_wheel: None,
    };
    let mut buf = DmxBuffer::default();
    assert!(apply_osc_level(&mut buf, 10, &map, OscAttr::Pan, 0, 0xBEEF));
    assert_eq!(buf.get(11), 0xBE);
    assert_eq!(buf.get(12), 0xEF);
    assert!(apply_osc_level(&mut buf, 10, &map, OscAttr::Dimmer, 77, 0));
    assert_eq!(buf.get(10), 77);
    assert!(apply_osc_level(&mut buf, 10, &map, OscAttr::Tilt, 1, 0xFFFF));
    assert!(!apply_osc_level(&mut buf, 10, &map, OscAttr::Unknown, 1, 1));
    apply_osc_color(&mut buf, 10, &map, 5, 6, 7);
    assert_eq!((buf.get(13), buf.get(14)), (5, 6));
}

#[test]
fn midi_routes() {
    let m = MidiCcMap::default();
    assert_eq!(route_midi([0xB0, 7, 100], &m), Some(MidiTarget::Dimmer));
    assert_eq!(route_midi([0xB3, 16, 1], &m), Some(MidiTarget::Strobe));
    assert_eq!(route_midi([0xB0, 99, 1], &m), Some(MidiTarget::Unmapped));
    assert_eq!(route_midi([0x90, 7, 100], &m), None);
}

#[test]
fn config_defaults() {
    let a = stagelx::config::ArtNetConfig::default();
    assert_eq!((a.ip.as_str(), a.out_universe, a.dest_ip.as_str(), a.rx_enabled, a.allowed_sources.as_str()), ("", 0, "", false, ""));
    let s = stagelx::config::SacnConfig::default();
    assert_eq!((s.tx_enabled, s.rx_enabled, s.out_universe, s.priority, s.dest_ip.as_str()), (false, false, 1, 100, ""));
    let u = stagelx::config::UsbConfig::default();
    assert_eq!((u.tx_enabled, u.port.as_str(), u.universe), (false, "", 1));
    let o = stagelx::config::OscConfig::default();
    assert_eq!((o.enabled, o.port), (false, 8000));
    let m = stagelx::config::MidiConfig::default();
    assert!(!m.enabled && m.port.is_empty());
    assert_eq!(m.cc_map(), MidiCcMap::default());
    let mut m2 = stagelx::config::MidiConfig::default();
    m2.cc_pan = 99;
    assert_eq!(route_midi([0xB0, 99, 5], &m2.cc_map()), Some(MidiTarget::Pan));
}
