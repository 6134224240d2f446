use etherparse::PacketBuilder;
use wirecrab::context::PacketContext;
use wirecrab::flow::{IPAddress, Protocol, Timestamp};
use wirecrab::layers::decode_headers;
use wirecrab::packets::{add_packet, FlowTable};
use wirecrab::tls::{looks_like_tls, tag_for_record, TlsParser};

fn build_tcp_packet(
    flags: impl FnOnce(
        etherparse::PacketBuilderStep<etherparse::TcpHeader>,
    ) -> etherparse::PacketBuilderStep<etherparse::TcpHeader>,
    payload: &[u8],
) -> Vec<u8> {
    let builder = PacketBuilder::ethernet2([1, 2, 3, 4, 5, 6], [6, 5, 4, 3, 2, 1]).ipv4(
        [10, 0, 0, 1],
        [10, 0, 0, 2],
        64,
    );
    let builder = flags(builder.tcp(12345, 80, 1, 64240));
    let mut packet = Vec::with_capacity(builder.size(payload.len()));
    builder.write(&mut packet, payload).unwrap();
    packet
}

fn build_udp_packet(payload: &[u8]) -> Vec<u8> {
    let builder = PacketBuilder::ethernet2([1, 2, 3, 4, 5, 6], [6, 5, 4, 3, 2, 1])
        .ipv4([192, 168, 1, 10], [192, 168, 1, 20], 64)
        .udp(5353, 8053);
    let mut packet = Vec::with_capacity(builder.size(payload.len()));
    builder.write(&mut packet, payload).unwrap();
    packet
}

fn build_ipv6_tcp_packet(payload: &[u8]) -> Vec<u8> {
    let builder = PacketBuilder::ethernet2([1, 1, 1, 1, 1, 1], [2, 2, 2, 2, 2, 2])
        .ipv6([0u8; 16], [0xfe, 0x80, 0, 0, 0, 0, 0, 0, 0, 0, 0, 0, 0, 0, 0, 1], 32)
        .tcp(40000, 80, 1, 65535)
        .syn();
    let mut packet = Vec::with_capacity(builder.size(payload.len()));
    builder.write(&mut packet, payload).unwrap();
    packet
}

fn build_ipv6_udp_packet(payload: &[u8]) -> Vec<u8> {
    let builder = PacketBuilder::ethernet2([1, 1, 1, 1, 1, 1], [2, 2, 2, 2, 2, 2])
        .ipv6([0u8; 16], [0xfe, 0x80, 0, 0, 0, 0, 0, 0, 0, 0, 0, 0, 0, 0, 0, 1], 32)
        .udp(5353, 8053);
    let mut packet = Vec::with_capacity(builder.size(payload.len()));
    builder.write(&mut packet, payload).unwrap();
    packet
}

fn has_tag(ctx: &PacketContext, tag: &str) -> bool {
    ctx.tags.iter().any(|t| t == tag)
}

#[test]
fn tcp_decode_sets_flags_and_ports() {
    let payload = [];
    let packet = build_tcp_packet(|b| b.syn(), &payload);
    let tls_parser = TlsParser;

    let ctx = decode_headers(&packet, &tls_parser).expect("decode tcp");

    assert_eq!(ctx.src_ip, Some(IPAddress::V4([10, 0, 0, 1])));
    assert_eq!(ctx.dst_ip, Some(IPAddress::V4([10, 0, 0, 2])));
    assert_eq!(ctx.src_port, Some(12345));
    assert_eq!(ctx.dst_port, Some(80));
    assert_eq!(ctx.protocol, Some(Protocol::TCP));
    assert!(ctx.is_syn);
    assert!(!ctx.is_ack);
    assert!(ctx.tags.contains(&"SYN".to_string()));
}

#[test]
fn udp_decode_sets_protocol_and_ports() {
    let packet = build_udp_packet(&[1, 2, 3]);
    let tls_parser = TlsParser;

    let ctx = decode_headers(&packet, &tls_parser).expect("decode udp");

    assert_eq!(ctx.src_port, Some(5353));
    assert_eq!(ctx.dst_port, Some(8053));
    assert_eq!(ctx.protocol, Some(Protocol::UDP));
    assert_eq!(ctx.tags.len(), 0);
    assert_eq!(ctx.udp_payload, Some(vec![1, 2, 3]));
}

#[test]
fn add_packet_creates_flow_and_counts_packets() {
    let packet = build_tcp_packet(|b| b.syn(), &[]);
    let tls_parser = TlsParser;
    let context = decode_headers(&packet, &tls_parser).expect("decode packet");

    let mut flows = FlowTable::new();
    let mut packet_count = 0usize;

    add_packet(&packet, context, Timestamp::from_seconds(1), &mut flows, &mut packet_count);

    assert_eq!(packet_count, 1);
    assert_eq!(flows.len(), 1);

    let flow = &flows.entries()[0].flow;
    assert_eq!(flow.source.ip, IPAddress::V4([10, 0, 0, 1]));
    assert_eq!(flow.destination.ip, IPAddress::V4([10, 0, 0, 2]));
    assert_eq!(flow.protocol, Protocol::TCP);
    assert_eq!(flow.packets.len(), 1);
    assert!(flow.packets[0].tags.contains(&"SYN".to_string()));
}

#[test]
fn tcp_tls_packets_get_tagged() {
    let tls_payload: [u8; 9] = [0x16, 0x03, 0x03, 0x00, 0x05, 0x01, 0x00, 0x00, 0x00];

    let packet = build_tcp_packet(|b| b.syn(), &tls_payload);
    let tls_parser = TlsParser;

    assert!(looks_like_tls(&tls_payload));

    let ctx = decode_headers(&packet, &tls_parser).expect("decode tls-ish tcp");
    assert_eq!(ctx.protocol, Some(Protocol::TCP));
    assert!(!ctx.tags.is_empty(), "expected some tags (e.g., SYN) on TLS-looking packet");

    let mut flows = FlowTable::new();
    let mut packet_count = 0usize;
    add_packet(&packet, ctx, Timestamp::from_seconds(1), &mut flows, &mut packet_count);

    assert_eq!(packet_count, 1);
    let flow = &flows.entries()[0].flow;
    assert!(!flow.packets[0].tags.is_empty(), "expected packet tags to propagate to flow");
}

#[test]
fn decode_ipv6_tcp_and_udp() {
    let tcp_packet = build_ipv6_tcp_packet(&[]);
    let udp_packet = build_ipv6_udp_packet(&[1, 2, 3, 4]);
    let tls_parser = TlsParser;

    let tcp_ctx = decode_headers(&tcp_packet, &tls_parser).expect("decode ipv6 tcp");
    assert_eq!(tcp_ctx.protocol, Some(Protocol::TCP));
    assert!(matches!(tcp_ctx.src_ip, Some(IPAddress::V6(_))));
    assert!(matches!(tcp_ctx.dst_ip, Some(IPAddress::V6(_))));

    let udp_ctx = decode_headers(&udp_packet, &tls_parser).expect("decode ipv6 udp");
    assert_eq!(udp_ctx.protocol, Some(Protocol::UDP));
    assert!(matches!(udp_ctx.src_ip, Some(IPAddress::V6(_))));
    assert!(matches!(udp_ctx.dst_ip, Some(IPAddress::V6(_))));
}

#[test]
fn tls_records_are_tagged_by_type_and_version() {
    let payload: Vec<u8> = vec![
        0x16, 0x03, 0x03, 0x00, 0x04, 0x01, 0x00, 0x00, 0x00, // Client Hello in TLS 1.2
        0x17, 0x03, 0x03, 0x00, 0x02, 0xaa, 0xbb, // Application Data
        0x17, 0x03, 0x03, 0x00, 0x09, 0x01, // incomplete record
    ];
    let packet = build_tcp_packet(|b| b.ack(1), &payload);
    let ctx = decode_headers(&packet, &TlsParser).expect("decode tls");
    assert_eq!(
        ctx.tags,
        vec![
            "Client Hello (TLS 1.2)".to_string(),
            "Application Data (TLS 1.2)".to_string()
        ]
    );
}

#[test]
fn tls_record_tag_names_handshake_and_version() {
    assert_eq!(tag_for_record(22, 0x0303, &[2, 0, 0]), "Server Hello (TLS 1.2)");
    assert_eq!(tag_for_record(20, 0x0301, &[1]), "ChangeCipherSpec (TLS 1.0)");
    assert_eq!(tag_for_record(21, 0x0304, &[2, 40]), "Alert (TLS 1.3)");
    assert_eq!(tag_for_record(22, 0x0303, &[]), "Handshake (TLS 1.2)");
}

#[test]
fn unknown_content_type_stops_tls_tagging() {
    let payload: Vec<u8> = vec![0x18, 0x03, 0x03, 0x00, 0x01, 0x00];
    assert!(!looks_like_tls(&payload));
    let mut ctx = PacketContext::new();
    TlsParser.parse(&payload, &mut ctx);
    assert!(ctx.tags.is_empty());
}

#[test]
fn tcp_flag_tags_follow_priority() {
    let syn = decode_headers(&build_tcp_packet(|b| b.syn(), &[]), &TlsParser).unwrap();
    assert!(has_tag(&syn, "SYN") && !has_tag(&syn, "ACK") && !has_tag(&syn, "FIN") && !has_tag(&syn, "RST"));

    let syn_ack = decode_headers(&build_tcp_packet(|b| b.syn().ack(1), &[]), &TlsParser).unwrap();
    assert_eq!(syn_ack.tags, vec!["SYN-ACK".to_string()]);

    let fin = decode_headers(&build_tcp_packet(|b| b.fin().ack(1), &[]), &TlsParser).unwrap();
    assert_eq!(fin.tags, vec!["FIN".to_string()]);

    let rst = decode_headers(&build_tcp_packet(|b| b.rst(), &[]), &TlsParser).unwrap();
    assert_eq!(rst.tags, vec!["RST".to_string()]);

    let ack = decode_headers(&build_tcp_packet(|b| b.ack(1), &[]), &TlsParser).unwrap();
    assert_eq!(ack.tags, vec!["ACK".to_string()]);

    let ack_data = decode_headers(&build_tcp_packet(|b| b.ack(1), &[1, 2, 3]), &TlsParser).unwrap();
    assert!(ack_data.tags.is_empty());
}

#[test]
fn truncated_frames_are_decode_errors() {
    let packet = build_tcp_packet(|b| b.syn(), &[]);
    assert!(decode_headers(&packet[..10], &TlsParser).is_err());
    assert!(decode_headers(&packet[..20], &TlsParser).is_err());
    assert!(decode_headers(&packet[..40], &TlsParser).is_err());
    assert!(decode_headers(&[], &TlsParser).is_err());
}

#[test]
fn ethernet_padding_is_not_payload() {
    let mut packet = build_tcp_packet(|b| b.ack(1), &[]);
    packet.extend_from_slice(&[0, 0, 0, 0, 0, 0]);
    let ctx = decode_headers(&packet, &TlsParser).unwrap();
    assert_eq!(ctx.tags, vec!["ACK".to_string()]);
}

#[test]
fn non_ip_frames_have_no_addresses() {
    let mut frame = vec![0u8; 14];
    frame[12] = 0x08;
    frame[13] = 0x06; // ARP
    frame.extend_from_slice(&[0u8; 28]);
    let ctx = decode_headers(&frame, &TlsParser).unwrap();
    assert_eq!(ctx.src_ip, None);
    assert_eq!(ctx.protocol, None);
}
