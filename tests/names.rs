use wirecrab::context::PacketContext;
use wirecrab::dns::{handle_dns_response, handle_name_resolution, parse_dns_answers, parse_name_record_value, read_dns_name, NameRecord};
use wirecrab::flow::{IPAddress, Protocol};
use wirecrab::names::{add_name_resolution, NameTable};

fn build_dns_response_payload(v6_ip: [u8; 16]) -> Vec<u8> {
    let mut buf = Vec::new();

    buf.extend_from_slice(&0x0001u16.to_be_bytes());
    buf.extend_from_slice(&0x8180u16.to_be_bytes());
    buf.extend_from_slice(&0x0001u16.to_be_bytes());
    buf.extend_from_slice(&0x0002u16.to_be_bytes());
    buf.extend_from_slice(&0x0000u16.to_be_bytes());
    buf.extend_from_slice(&0x0000u16.to_be_bytes());

    buf.push(7);
    buf.extend_from_slice(b"example");
    buf.push(5);
    buf.extend_from_slice(b"local");
    buf.push(0);

    buf.extend_from_slice(&0x0001u16.to_be_bytes());
    buf.extend_from_slice(&0x0001u16.to_be_bytes());

    buf.push(0xc0);
    buf.push(0x0c);
    buf.extend_from_slice(&0x0001u16.to_be_bytes());
    buf.extend_from_slice(&0x0001u16.to_be_bytes());
    buf.extend_from_slice(&0x0000003cu32.to_be_bytes());
    buf.extend_from_slice(&0x0004u16.to_be_bytes());
    buf.extend_from_slice(&[1, 2, 3, 4]);

    buf.push(0xc0);
    buf.push(0x0c);
    buf.extend_from_slice(&0x001cu16.to_be_bytes());
    buf.extend_from_slice(&0x0001u16.to_be_bytes());
    buf.extend_from_slice(&0x0000003cu32.to_be_bytes());
    buf.extend_from_slice(&0x0010u16.to_be_bytes());
    buf.extend_from_slice(&v6_ip);

    buf
}

fn dns_context(payload: Vec<u8>, src_port: u16, dst_port: u16) -> PacketContext {
    PacketContext {
        src_ip: Some(IPAddress::V4([8, 8, 8, 8])),
        dst_ip: Some(IPAddress::V4([10, 0, 0, 1])),
        src_port: Some(src_port),
        dst_port: Some(dst_port),
        protocol: Some(Protocol::UDP),
        is_syn: false,
        is_ack: false,
        tags: Vec::new(),
        udp_payload: Some(payload),
    }
}

#[test]
fn dns_responses_populate_name_resolutions() {
    let v6_ip = [0x20, 0x01, 0x0d, 0xb8, 0, 0, 0, 0, 0, 0, 0, 0, 0, 0, 0, 1];
    let payload = build_dns_response_payload(v6_ip);

    let context = PacketContext {
        src_ip: Some(IPAddress::V4([8, 8, 8, 8])),
        dst_ip: Some(IPAddress::V4([10, 0, 0, 1])),
        src_port: Some(53),
        dst_port: Some(55555),
        protocol: Some(Protocol::UDP),
        is_syn: false,
        is_ack: false,
        tags: Vec::new(),
        udp_payload: Some(payload.clone()),
    };

    let mut resolutions = NameTable::new();
    handle_dns_response(&context, &mut resolutions);
    handle_dns_response(&context, &mut resolutions);

    let v4_names = resolutions
        .get(&IPAddress::V4([1, 2, 3, 4]))
        .expect("ipv4 answer inserted");
    assert_eq!(v4_names.len(), 1);
    assert!(v4_names.contains(&"example.local".to_string()));

    let v6_names = resolutions
        .get(&IPAddress::V6(v6_ip))
        .expect("ipv6 answer inserted");
    assert_eq!(v6_names.len(), 1);
    assert!(v6_names.contains(&"example.local".to_string()));
}

#[test]
fn name_resolution_records_ipv4_and_ipv6() {
    let ipv4_bytes = [192, 168, 0, 42];
    let ipv4_value = [192, 168, 0, 42, b'h', b'o', b's', b't', 0];

    let ipv6_ip = [0xfe, 0x80, 0, 0, 0, 0, 0, 0, 0, 0, 0, 0, 0, 0, 0, 1];
    let mut ipv6_value = Vec::new();
    ipv6_value.extend_from_slice(&ipv6_ip);
    ipv6_value.extend_from_slice(b"example.local");
    ipv6_value.push(0);

    let nrb = vec![
        NameRecord { record_type: 1, value: ipv4_value.to_vec() },
        NameRecord { record_type: 2, value: ipv6_value },
        NameRecord { record_type: 0, value: Vec::new() },
    ];

    let mut resolutions = NameTable::new();
    handle_name_resolution(&nrb, &mut resolutions);
    handle_name_resolution(&nrb, &mut resolutions);

    let v4_names = resolutions
        .get(&IPAddress::V4(ipv4_bytes))
        .expect("ipv4 name inserted");
    assert_eq!(v4_names.len(), 1);
    assert!(v4_names.contains(&"host".to_string()));

    let v6_names = resolutions
        .get(&IPAddress::V6(ipv6_ip))
        .expect("ipv6 name inserted");
    assert_eq!(v6_names.len(), 1);
    assert!(v6_names.contains(&"example.local".to_string()));
}

#[test]
fn dns_pointer_resolves_to_the_spelled_out_name() {
    let v6_ip = [0x20, 0x01, 0x0d, 0xb8, 0, 0, 0, 0, 0, 0, 0, 0, 0, 0, 0, 1];
    let payload = build_dns_response_payload(v6_ip);
    assert_eq!(read_dns_name(&payload, 12), Some(("example.local".to_string(), 27)));
    assert_eq!(read_dns_name(&payload, 31), Some(("example.local".to_string(), 33)));
    let answers = parse_dns_answers(&payload);
    assert_eq!(
        answers,
        vec![
            (IPAddress::V4([1, 2, 3, 4]), "example.local".to_string()),
            (IPAddress::V6(v6_ip), "example.local".to_string()),
        ]
    );
}

#[test]
fn dns_pointer_loop_is_cut_off() {
    let mut payload = vec![0u8; 12];
    payload.extend_from_slice(&[0xc0, 12]);
    assert_eq!(read_dns_name(&payload, 12), None);
}

#[test]
fn dns_queries_and_short_messages_give_no_answers() {
    let v6_ip = [0u8; 16];
    let mut query = build_dns_response_payload(v6_ip);
    query[2] = 0x01;
    assert!(parse_dns_answers(&query).is_empty());
    assert!(parse_dns_answers(&[0u8; 11]).is_empty());
    let full = build_dns_response_payload(v6_ip);
    let cut = &full[..full.len() - 3];
    assert_eq!(parse_dns_answers(cut), vec![(IPAddress::V4([1, 2, 3, 4]), "example.local".to_string())]);
}

#[test]
fn dns_needs_port_53() {
    let payload = build_dns_response_payload([0u8; 16]);
    let mut table = NameTable::new();
    handle_dns_response(&dns_context(payload.clone(), 5353, 5354), &mut table);
    assert!(table.is_empty());
    handle_dns_response(&dns_context(payload, 40000, 53), &mut table);
    assert_eq!(table.len(), 2);
}

#[test]
fn name_table_keeps_names_distinct_and_in_order() {
    let mut table = NameTable::new();
    let ip = IPAddress::V4([10, 0, 0, 9]);
    add_name_resolution(ip, "a".to_string(), &mut table);
    add_name_resolution(ip, "b".to_string(), &mut table);
    add_name_resolution(ip, "a".to_string(), &mut table);
    assert_eq!(table.len(), 1);
    assert_eq!(table.get(&ip).unwrap(), &vec!["a".to_string(), "b".to_string()]);
    assert!(table.get(&IPAddress::V4([10, 0, 0, 8])).is_none());
}

#[test]
fn name_record_values_are_trimmed_and_checked() {
    let value = [10, 0, 0, 1, b' ', b'h', b'o', b's', b't', b' ', 0, b'x'];
    assert_eq!(parse_name_record_value(&value, 4), Some((IPAddress::V4([10, 0, 0, 1]), "host".to_string())));
    assert_eq!(parse_name_record_value(&[10, 0, 0, 1, 0], 4), None);
    assert_eq!(parse_name_record_value(&[10, 0, 0, 1, b' ', 0], 4), None);
    assert_eq!(parse_name_record_value(&[10, 0, 0, 1], 4), None);
    assert_eq!(parse_name_record_value(&[10, 0, 0, 1, b'h'], 3), None);
}
