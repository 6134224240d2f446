use etherparse::PacketBuilder;
use wirecrab::flow::{Endpoint, Flow, FlowEndpoints, FlowKey, IPAddress, Packet, Protocol, Timestamp};
use wirecrab::format::{format_ip_address, format_protocol, FlowFormatter};
use wirecrab::loader::{FlowLoadController, FlowLoadStatus, LoadStatus};
use wirecrab::names::{add_name_resolution, NameTable};
use wirecrab::blocks::PacketBlock;
use wirecrab::reader::{apply_packet, calculate_ts_unit, parse_pcap_data, CaptureError, CaptureParser, Interface, ParseState, Progress};

fn block(block_type: u32, body: &[u8]) -> Vec<u8> {
    let mut padded = body.to_vec();
    while padded.len() % 4 != 0 {
        padded.push(0);
    }
    let len = (12 + padded.len()) as u32;
    let mut out = Vec::new();
    out.extend_from_slice(&block_type.to_le_bytes());
    out.extend_from_slice(&len.to_le_bytes());
    out.extend_from_slice(&padded);
    out.extend_from_slice(&len.to_le_bytes());
    out
}

fn section_header() -> Vec<u8> {
    let mut body = Vec::new();
    body.extend_from_slice(&0x1A2B_3C4Du32.to_le_bytes());
    body.extend_from_slice(&1u16.to_le_bytes());
    body.extend_from_slice(&0u16.to_le_bytes());
    body.extend_from_slice(&(-1i64).to_le_bytes());
    block(0x0A0D_0D0A, &body)
}

fn interface(linktype: u16) -> Vec<u8> {
    let mut body = Vec::new();
    body.extend_from_slice(&linktype.to_le_bytes());
    body.extend_from_slice(&0u16.to_le_bytes());
    body.extend_from_slice(&65535u32.to_le_bytes());
    block(1, &body)
}

fn enhanced_packet(if_id: u32, ticks: u64, frame: &[u8]) -> Vec<u8> {
    let mut body = Vec::new();
    body.extend_from_slice(&if_id.to_le_bytes());
    body.extend_from_slice(&((ticks >> 32) as u32).to_le_bytes());
    body.extend_from_slice(&(ticks as u32).to_le_bytes());
    body.extend_from_slice(&(frame.len() as u32).to_le_bytes());
    body.extend_from_slice(&(frame.len() as u32).to_le_bytes());
    body.extend_from_slice(frame);
    block(6, &body)
}

fn tcp_frame(src: ([u8; 4], u16), dst: ([u8; 4], u16), syn: bool, ack: bool) -> Vec<u8> {
    let builder = PacketBuilder::ethernet2([1, 2, 3, 4, 5, 6], [6, 5, 4, 3, 2, 1]).ipv4(src.0, dst.0, 64);
    let mut step = builder.tcp(src.1, dst.1, 1, 64240);
    if syn {
        step = step.syn();
    }
    if ack {
        step = step.ack(1);
    }
    let mut packet = Vec::new();
    step.write(&mut packet, &[]).unwrap();
    packet
}

fn udp_frame() -> Vec<u8> {
    let builder = PacketBuilder::ethernet2([1, 2, 3, 4, 5, 6], [6, 5, 4, 3, 2, 1])
        .ipv4([192, 168, 1, 10], [192, 168, 1, 20], 64)
        .udp(5353, 8053);
    let mut packet = Vec::new();
    builder.write(&mut packet, &[1, 2, 3]).unwrap();
    packet
}

fn handshake_capture() -> Vec<u8> {
    let client = ([10, 0, 0, 1], 12345);
    let server = ([10, 0, 0, 2], 80);
    let mut data = section_header();
    data.extend(interface(1));
    data.extend(enhanced_packet(0, 3_000_000, &tcp_frame(client, server, true, false)));
    data.extend(enhanced_packet(0, 3_500_000, &tcp_frame(server, client, true, true)));
    data.extend(enhanced_packet(0, 4_000_000, &tcp_frame(client, server, false, true)));
    data.extend(enhanced_packet(0, 2_250_000, &udp_frame()));
    data
}

fn run(data: Vec<u8>) -> Result<ParseState, CaptureError> {
    parse_pcap_data(data, |_p: Progress| {})
}

#[test]
fn handshake_and_datagram_give_two_flows() {
    let state = run(handshake_capture()).expect("parse");
    assert_eq!(state.flows.len(), 2);
    assert_eq!(state.packet_count, 4);
    let tcp = FlowKey::from_endpoints(
        Endpoint::new(IPAddress::V4([10, 0, 0, 2]), 80),
        Endpoint::new(IPAddress::V4([10, 0, 0, 1]), 12345),
        Protocol::TCP,
    );
    let flow = state.flows.get(&tcp).expect("tcp flow");
    assert_eq!(flow.packets.len(), 3);
    assert!(flow.packets[0].tags.contains(&"SYN".to_string()));
    assert_eq!(flow.packets[1].tags, vec!["SYN-ACK".to_string()]);
    assert_eq!(flow.packets[2].tags, vec!["ACK".to_string()]);
    assert_eq!(flow.source, Endpoint::new(IPAddress::V4([10, 0, 0, 1]), 12345));
    let udp = state.flows.entries().iter().find(|e| e.key.protocol == Protocol::UDP).expect("udp flow");
    assert_eq!(udp.flow.packets.len(), 1);
    assert_eq!(udp.flow.source.port, 5353);
    let start = state.first_packet_ts.expect("start time");
    assert_eq!((start.seconds, start.fraction, start.units_per_second), (2, 250_000, 1_000_000));
}

#[test]
fn syn_makes_its_sender_the_source() {
    let client = ([10, 0, 0, 1], 12345);
    let server = ([10, 0, 0, 2], 80);
    let mut data = section_header();
    data.extend(interface(1));
    data.extend(enhanced_packet(0, 1, &tcp_frame(server, client, true, true)));
    data.extend(enhanced_packet(0, 2, &tcp_frame(client, server, true, false)));
    let state = run(data).unwrap();
    let flow = &state.flows.entries()[0].flow;
    assert_eq!(flow.source.ip, IPAddress::V4([10, 0, 0, 1]));
    assert_eq!(flow.destination.port, 80);
    assert_eq!(flow.packets.len(), 2);
}

#[test]
fn empty_capture_is_an_error() {
    assert_eq!(run(Vec::new()).err(), Some(CaptureError::Truncated));
    assert!(run(Vec::new()).err().unwrap().message().contains("Failed"));
}

#[test]
fn garbage_capture_is_an_error() {
    let garbage: Vec<u8> = (0..200u32).map(|i| (i * 37 % 251) as u8).collect();
    assert_eq!(run(garbage).err(), Some(CaptureError::NotPcapng));
}

#[test]
fn unknown_interfaces_and_other_links_are_skipped() {
    let client = ([10, 0, 0, 1], 1);
    let server = ([10, 0, 0, 2], 2);
    let mut data = section_header();
    data.extend(interface(101));
    data.extend(enhanced_packet(0, 1, &tcp_frame(client, server, true, false)));
    data.extend(enhanced_packet(3, 1, &tcp_frame(client, server, true, false)));
    data.extend(block(0x0BAD_0000, &[1, 2, 3, 4]));
    let state = run(data).unwrap();
    assert_eq!(state.flows.len(), 0);
    assert_eq!(state.packet_count, 0);
    assert!(state.first_packet_ts.is_none());
}

#[test]
fn truncated_last_block_ends_the_parse() {
    let mut data = handshake_capture();
    let extra = enhanced_packet(0, 9, &udp_frame());
    data.extend_from_slice(&extra[..extra.len() - 8]);
    let state = run(data).unwrap();
    assert_eq!(state.packet_count, 4);
}

#[test]
fn malformed_block_is_skipped() {
    let client = ([10, 0, 0, 1], 1);
    let server = ([10, 0, 0, 2], 2);
    let mut data = section_header();
    data.extend(interface(1));
    let mut bad = block(1, &[0u8; 8]);
    let last = bad.len() - 4;
    bad[last] = 0xff;
    data.extend(bad);
    data.extend(enhanced_packet(0, 1, &tcp_frame(client, server, true, false)));
    let state = run(data).unwrap();
    assert_eq!(state.packet_count, 1);
}

#[test]
fn progress_reports_increase() {
    let mut data = section_header();
    data.extend(interface(1));
    for i in 0..200u64 {
        data.extend(enhanced_packet(0, i, &udp_frame()));
    }
    let total = data.len();
    let mut parser = match CaptureParser::new(data) {
        Ok(p) => p,
        Err(_) => panic!("parser"),
    };
    let mut reports = Vec::new();
    while !parser.is_done() {
        if let Some(p) = parser.step() {
            reports.push(p);
        }
    }
    assert!(reports.len() > 2);
    for w in reports.windows(2) {
        assert!(w[1].bytes_read > w[0].bytes_read + 1000);
    }
    assert!(reports.iter().all(|p| p.total == total && p.bytes_read <= total));
    assert_eq!(parser.progress().bytes_read, total);
}

#[test]
fn timestamp_units_follow_resolution_byte() {
    assert_eq!(calculate_ts_unit(6), Some(1_000_000));
    assert_eq!(calculate_ts_unit(9), Some(1_000_000_000));
    assert_eq!(calculate_ts_unit(0x80 | 10), Some(1024));
    assert_eq!(calculate_ts_unit(19), Some(10_000_000_000_000_000_000));
    assert_eq!(calculate_ts_unit(20), None);
    assert_eq!(calculate_ts_unit(0x80 | 63), Some(1 << 63));
    assert_eq!(calculate_ts_unit(0x80 | 64), None);
}

#[test]
fn controller_reports_progress_then_result_then_idle() {
    let mut controller = FlowLoadController::new();
    assert!(matches!(controller.current(), FlowLoadStatus::Loading { .. }));
    let p = Progress { bytes_read: 10, total: 100 };
    assert!(controller.on_message(LoadStatus::Progress(p)).is_none());
    match controller.current() {
        FlowLoadStatus::Loading { progress } => assert_eq!(progress, p),
        _ => panic!("expected loading"),
    }
    let done = controller.on_message(LoadStatus::Error("Failed to open file".to_string()));
    assert!(matches!(done, Some(FlowLoadStatus::Error(ref m)) if m.contains("Failed")));
    assert!(matches!(controller.current(), FlowLoadStatus::Idle));
}

#[test]
fn controller_hands_over_loaded_flows() {
    let mut controller = FlowLoadController::new();
    let state = run(handshake_capture()).unwrap();
    match controller.on_message(LoadStatus::Loaded(state)) {
        Some(FlowLoadStatus::Ready { flows, start_timestamp, name_resolutions }) => {
            assert_eq!(flows.len(), 2);
            assert!(start_timestamp.is_some());
            assert!(name_resolutions.is_empty());
        }
        _ => panic!("expected ready"),
    }
    assert!(!controller.is_active());
}

#[test]
fn total_bytes_sums_packet_lengths() {
    let packets = vec![
        Packet {
            timestamp: Timestamp::from_seconds(0),
            src_ip: IPAddress::V4([10, 0, 0, 1]),
            dst_ip: IPAddress::V4([10, 0, 0, 2]),
            src_port: Some(10),
            dst_port: Some(20),
            length: 64,
            data: vec![],
            tags: vec![],
        },
        Packet {
            timestamp: Timestamp { seconds: 0, fraction: 1, units_per_second: 10 },
            src_ip: IPAddress::V4([10, 0, 0, 1]),
            dst_ip: IPAddress::V4([10, 0, 0, 2]),
            src_port: Some(10),
            dst_port: Some(20),
            length: 128,
            data: vec![],
            tags: vec![],
        },
    ];

    let flow = Flow {
        timestamp: Timestamp::from_seconds(0),
        protocol: Protocol::TCP,
        source: Endpoint::new(IPAddress::V4([10, 0, 0, 1]), 10),
        destination: Endpoint::new(IPAddress::V4([10, 0, 0, 2]), 20),
        packets,
    };

    assert_eq!(flow.total_bytes(), 64 + 128);
}

#[test]
fn flow_key_ignores_endpoint_order() {
    let a = Endpoint::new(IPAddress::V4([10, 0, 0, 1]), 12345);
    let b = Endpoint::new(IPAddress::V6([0xfe, 0x80, 0, 0, 0, 0, 0, 0, 0, 0, 0, 0, 0, 0, 0, 1]), 80);
    let k1 = FlowKey::from_endpoints(a, b, Protocol::UDP);
    let k2 = FlowKey::from_endpoints(b, a, Protocol::UDP);
    assert_eq!(k1, k2);
    assert_eq!(k1.endpoints.first, a);
    let c = Endpoint::new(IPAddress::V4([10, 0, 0, 1]), 80);
    assert_eq!(FlowKey::from_endpoints(a, c, Protocol::TCP).endpoints.first, c);
    assert_ne!(k1, FlowKey::from_endpoints(a, b, Protocol::TCP));
}

#[test]
fn timestamps_compare_exactly_across_units() {
    let a = Timestamp { seconds: 5, fraction: 1, units_per_second: 3 };
    let b = Timestamp { seconds: 5, fraction: 333_334, units_per_second: 1_000_000 };
    assert!(a.before(&b));
    assert!(!b.before(&a));
    assert!(Timestamp::from_seconds(4).before(&a));
}

#[test]
fn addresses_and_protocols_format() {
    let v6 = IPAddress::V6([0xfe, 0x80, 0, 0, 0, 0, 0, 0, 0, 0, 0, 0, 0, 0, 0, 1]);
    assert_eq!(v6.to_text(), "fe80:0:0:0:0:0:0:1");
    assert_eq!(format_ip_address(&v6), "fe80:0000:0000:0000:0000:0000:0000:0001");
    assert_eq!(IPAddress::V4([10, 0, 0, 1]).to_text(), "10.0.0.1");
    assert_eq!(format_protocol(&Protocol::Other(99)), "Proto-99");
    assert_eq!(FlowFormatter::protocol(&Protocol::TCP), "TCP");
    assert_eq!(FlowFormatter::port(8443), "8443");
    let ep = Endpoint::new(IPAddress::V4([192, 168, 0, 42]), 443);
    assert_eq!(FlowFormatter::endpoint(&ep, false, None), "192.168.0.42:443");
    let mut names = NameTable::new();
    add_name_resolution(ep.ip, "host".to_string(), &mut names);
    assert_eq!(FlowFormatter::endpoint(&ep, true, Some(&names)), "host:443");
    assert_eq!(FlowFormatter::ip_address(&ep.ip, false, Some(&names)), "192.168.0.42");
}

#[test]
fn flows_and_endpoints_have_text() {
    let a = Endpoint::new(IPAddress::V4([10, 0, 0, 1]), 12345);
    let b = Endpoint::new(IPAddress::V4([10, 0, 0, 2]), 80);
    let flow = Flow {
        timestamp: Timestamp::from_seconds(5),
        protocol: Protocol::TCP,
        source: a,
        destination: b,
        packets: vec![],
    };
    assert_eq!(flow.to_text(), "10.0.0.1:12345 \u{2194} 10.0.0.2:80 (TCP)");
    assert_eq!(FlowEndpoints::new(b, a).to_text(), "10.0.0.1:12345 \u{2194} 10.0.0.2:80");
    let empty = Flow::default();
    assert_eq!(empty.to_text(), "0.0.0.0:0 \u{2194} 0.0.0.0:0 (Other(0))");
    assert_eq!(empty.total_bytes(), 0);
}

fn name_block(records: &[(u16, Vec<u8>)]) -> Vec<u8> {
    let mut body = Vec::new();
    for (kind, value) in records {
        body.extend_from_slice(&kind.to_le_bytes());
        body.extend_from_slice(&(value.len() as u16).to_le_bytes());
        body.extend_from_slice(value);
        while body.len() % 4 != 0 {
            body.push(0);
        }
    }
    body.extend_from_slice(&[0, 0, 0, 0]);
    block(4, &body)
}

#[test]
fn name_resolution_blocks_fill_the_name_table() {
    let mut data = section_header();
    data.extend(block(4, &[]));
    data.extend(name_block(&[(1, b"\xc0\xa8\x00\x2ahost\x00".to_vec())]));
    data.extend(interface(1));
    data.extend(enhanced_packet(0, 1, &udp_frame()));
    let state = run(data).unwrap();
    let names = state.name_resolutions.get(&IPAddress::V4([192, 168, 0, 42])).expect("name");
    assert_eq!(names, &vec!["host".to_string()]);
    assert_eq!(state.packet_count, 1);
}

#[test]
fn packets_are_applied_only_on_ethernet_interfaces() {
    let ethernet = Interface { linktype: 1, units_per_second: Some(1_000_000), ts_offset: 10 };
    let other = Interface { linktype: 101, units_per_second: Some(1_000_000), ts_offset: 0 };
    let block = |if_id: u32| PacketBlock {
        remaining: 0,
        if_id,
        ts_high: 0,
        ts_low: 2_500_000,
        packet: udp_frame(),
    };
    let mut state = ParseState::new();
    apply_packet(&[other, ethernet], &mut state, block(0));
    assert_eq!(state.packet_count, 0);
    assert!(state.first_packet_ts.is_none());
    apply_packet(&[other, ethernet], &mut state, block(2));
    assert_eq!(state.packet_count, 0);
    apply_packet(&[other, ethernet], &mut state, block(1));
    assert_eq!(state.packet_count, 1);
    let ts = state.first_packet_ts.expect("start");
    assert_eq!((ts.seconds, ts.fraction), (12, 500_000));
}

#[test]
fn many_flows_are_found_again() {
    let mut data = section_header();
    data.extend(interface(1));
    let order: Vec<u16> = (0..60u16).map(|i| (i * 37) % 60).collect();
    for round in 0..2u64 {
        for &i in &order {
            let client = ([10, 0, (i % 3) as u8, (i / 3) as u8], 1000 + i);
            let server = ([10, 0, 9, 9], 80);
            let frame = if round == 0 {
                tcp_frame(client, server, true, false)
            } else {
                tcp_frame(server, client, false, true)
            };
            data.extend(enhanced_packet(0, round * 100 + i as u64, &frame));
        }
    }
    let state = run(data).unwrap();
    assert_eq!(state.flows.len(), 60);
    assert_eq!(state.packet_count, 120);
    for &i in &order {
        let key = FlowKey::from_endpoints(
            Endpoint::new(IPAddress::V4([10, 0, 9, 9]), 80),
            Endpoint::new(IPAddress::V4([10, 0, (i % 3) as u8, (i / 3) as u8]), 1000 + i),
            Protocol::TCP,
        );
        let flow = state.flows.get(&key).expect("flow");
        assert_eq!(flow.packets.len(), 2);
        assert_eq!(flow.source.port, 1000 + i);
    }
    assert_eq!(state.flows.entries()[0].flow.source.port, 1000 + order[0]);
}
