//! The layer decoders and the loop that drives them over one frame.

use crate::context::{ContextView, PacketContext, empty_context};
use crate::flow::{IPAddress, Protocol};
use crate::tls::{TlsParser, spec_looks_like_tls, looks_like_tls, tls_tags};
use crate::wire::{
    be16, bit, ipv4_header_ok, ipv4_ihl, read_ethernet_header, read_ipv4_header, read_ipv6_header,
    read_tcp_header, read_udp_header, tcp_header_ok,
};
use vstd::prelude::*;
use vstd::string::*;

verus! {

/// A protocol layer that a decoder may hand the rest of a frame to.
#[derive(Debug, Clone, Copy, PartialEq, Eq, Hash, Structural)]
pub enum LayerType {
    Ethernet,
    IPv4,
    IPv6,
    TCP,
    UDP,
    TLS,
    Unknown(u32),
}

/// The outcome of one decoder on its slice.
#[derive(Debug)]
pub enum ParseResult<'a> {
    NextLayer { next_layer: LayerType, payload: &'a [u8] },
    Final,
    Error(String),
}

/// The outcome of one decoder, as a value.
pub enum LayerStep {
    Next(LayerType, Seq<u8>),
    Final,
    Failed,
}

pub open spec fn step_of(r: ParseResult) -> LayerStep {
    match r {
        ParseResult::NextLayer { next_layer, payload } => LayerStep::Next(next_layer, payload@),
        ParseResult::Final => LayerStep::Final,
        ParseResult::Error(_) => LayerStep::Failed,
    }
}

/// The IPv4 address held by four bytes.
pub open spec fn ipv4_of(bytes: Seq<u8>) -> IPAddress {
    IPAddress::V4(choose|a: [u8; 4]| a@ == bytes)
}

/// The IPv6 address held by sixteen bytes.
pub open spec fn ipv6_of(bytes: Seq<u8>) -> IPAddress {
    IPAddress::V6(choose|a: [u8; 16]| a@ == bytes)
}

pub proof fn lemma_ipv4_of(a: [u8; 4])
    ensures
        ipv4_of(a@) == IPAddress::V4(a),
{
    let c = choose|c: [u8; 4]| c@ == a@;
    assert(c@ == a@);
    assert(c == a);
}

pub proof fn lemma_ipv6_of(a: [u8; 16])
    ensures
        ipv6_of(a@) == IPAddress::V6(a),
{
    let c = choose|c: [u8; 16]| c@ == a@;
    assert(c@ == a@);
    assert(c == a);
}

/// The layer named by an ether type.
pub open spec fn ether_layer(ether_type: int) -> LayerType {
    if ether_type == 0x0800 {
        LayerType::IPv4
    } else if ether_type == 0x86DD {
        LayerType::IPv6
    } else {
        LayerType::Unknown(ether_type as u32)
    }
}

/// The layer named by an IP protocol number.
pub open spec fn ip_layer(protocol: u8) -> LayerType {
    if protocol == 6 {
        LayerType::TCP
    } else if protocol == 17 {
        LayerType::UDP
    } else {
        LayerType::Unknown(protocol as u32)
    }
}

/// The Ethernet II decoder: a 14-byte header, then the frame's payload.
pub open spec fn ethernet_step(data: Seq<u8>, c: ContextView) -> (LayerStep, ContextView) {
    if data.len() < 14 {
        (LayerStep::Failed, c)
    } else {
        (LayerStep::Next(ether_layer(be16(data[12], data[13])), data.skip(14)), c)
    }
}

/// Where the payload of an IP packet ends: at its declared length when that is consistent
/// with the header and the slice, else at the end of the slice.
pub open spec fn payload_end(header_len: int, declared_end: int, len: int) -> int {
    if header_len <= declared_end && declared_end <= len {
        declared_end
    } else {
        len
    }
}

/// The IPv4 decoder: records both addresses and hands over the payload.
pub open spec fn ipv4_step(data: Seq<u8>, c: ContextView) -> (LayerStep, ContextView) {
    if !ipv4_header_ok(data) {
        (LayerStep::Failed, c)
    } else {
        let hl = 4 * ipv4_ihl(data);
        let end = payload_end(hl, be16(data[2], data[3]), data.len() as int);
        (
            LayerStep::Next(ip_layer(data[9]), data.subrange(hl, end)),
            ContextView {
                src_ip: Some(ipv4_of(data.subrange(12, 16))),
                dst_ip: Some(ipv4_of(data.subrange(16, 20))),
                ..c
            },
        )
    }
}

/// The IPv6 decoder: records both addresses and hands over the payload.
pub open spec fn ipv6_step(data: Seq<u8>, c: ContextView) -> (LayerStep, ContextView) {
    if !(data.len() >= 40 && data[0] as int / 16 == 6) {
        (LayerStep::Failed, c)
    } else {
        let end = payload_end(40, 40 + be16(data[4], data[5]), data.len() as int);
        (
            LayerStep::Next(ip_layer(data[6]), data.subrange(40, end)),
            ContextView {
                src_ip: Some(ipv6_of(data.subrange(8, 24))),
                dst_ip: Some(ipv6_of(data.subrange(24, 40))),
                ..c
            },
        )
    }
}

/// The one display tag that the TCP flags give, if any, by priority: SYN-ACK, SYN, FIN, RST,
/// then ACK on a segment without payload.
pub open spec fn tcp_flag_tags(syn: bool, ack: bool, fin: bool, rst: bool, empty: bool) -> Seq<
    Seq<char>,
> {
    if syn {
        if ack {
            seq!["SYN-ACK"@]
        } else {
            seq!["SYN"@]
        }
    } else if fin {
        seq!["FIN"@]
    } else if rst {
        seq!["RST"@]
    } else if ack && empty {
        seq!["ACK"@]
    } else {
        seq![]
    }
}

/// The TCP decoder: ports, flags and their tag; a payload that looks like TLS goes on to the
/// TLS decoder.
pub open spec fn tcp_step(data: Seq<u8>, c: ContextView) -> (LayerStep, ContextView) {
    if !tcp_header_ok(data) {
        (LayerStep::Failed, c)
    } else {
        let rest = data.skip(4 * (data[12] as int / 16));
        let flags = data[13];
        (
            if spec_looks_like_tls(rest) {
                LayerStep::Next(LayerType::TLS, rest)
            } else {
                LayerStep::Final
            },
            ContextView {
                src_port: Some(be16(data[0], data[1]) as u16),
                dst_port: Some(be16(data[2], data[3]) as u16),
                protocol: Some(Protocol::TCP),
                is_syn: bit(flags, 1),
                is_ack: bit(flags, 4),
                tags: c.tags + tcp_flag_tags(
                    bit(flags, 1),
                    bit(flags, 4),
                    bit(flags, 0),
                    bit(flags, 2),
                    rest.len() == 0,
                ),
                ..c
            },
        )
    }
}

/// The UDP decoder: ports, and the payload kept for DNS inspection.
pub open spec fn udp_step(data: Seq<u8>, c: ContextView) -> (LayerStep, ContextView) {
    if data.len() < 8 {
        (LayerStep::Failed, c)
    } else {
        (
            LayerStep::Final,
            ContextView {
                src_port: Some(be16(data[0], data[1]) as u16),
                dst_port: Some(be16(data[2], data[3]) as u16),
                protocol: Some(Protocol::UDP),
                udp_payload: Some(data.skip(8)),
                ..c
            },
        )
    }
}

/// What the decoder of `layer` does on `data`; a layer without a decoder ends decoding.
pub open spec fn layer_step(layer: LayerType, data: Seq<u8>, c: ContextView) -> (
    LayerStep,
    ContextView,
) {
    match layer {
        LayerType::Ethernet => ethernet_step(data, c),
        LayerType::IPv4 => ipv4_step(data, c),
        LayerType::IPv6 => ipv6_step(data, c),
        LayerType::TCP => tcp_step(data, c),
        LayerType::UDP => udp_step(data, c),
        LayerType::TLS => (LayerStep::Final, ContextView { tags: c.tags + tls_tags(data), ..c }),
        LayerType::Unknown(_) => (LayerStep::Final, c),
    }
}

/// Runs the decoders from `layer` on: the context at the end, and whether a decoder failed.
pub open spec fn decode_from(layer: LayerType, data: Seq<u8>, c: ContextView) -> (ContextView, bool)
    decreases data.len(),
{
    let (step, c2) = layer_step(layer, data, c);
    match step {
        LayerStep::Next(next, payload) => if payload.len() < data.len() {
            decode_from(next, payload, c2)
        } else {
            (c2, false)
        },
        LayerStep::Final => (c2, false),
        LayerStep::Failed => (c2, true),
    }
}

/// Everything the decoders learn from one Ethernet frame.
pub open spec fn decode_frame(packet: Seq<u8>) -> (ContextView, bool) {
    decode_from(LayerType::Ethernet, packet, empty_context())
}

/// Decoder of Ethernet II headers.
pub struct EthernetParser;

/// Decoder of IPv4 headers.
pub struct IPv4Parser;

/// Decoder of IPv6 headers.
pub struct IPv6Parser;

/// Decoder of TCP headers.
pub struct TcpParser;

/// Decoder of UDP headers.
pub struct UdpParser;

impl EthernetParser {
    pub fn parse<'a>(&self, data: &'a [u8], context: &mut PacketContext) -> (r: ParseResult<'a>)
        ensures
            (step_of(r), final(context)@) == ethernet_step(data@, old(context)@),
    {
        match read_ethernet_header(data) {
            None => ParseResult::Error(String::from_str("Ethernet header is truncated")),
            Some(ether_type) => {
                let next_layer = if ether_type == 0x0800 {
                    LayerType::IPv4
                } else if ether_type == 0x86DD {
                    LayerType::IPv6
                } else {
                    LayerType::Unknown(ether_type as u32)
                };
                let payload = vstd::slice::slice_subrange(data, 14, data.len());
                proof {
                    assert(payload@ =~= data@.skip(14));
                }
                ParseResult::NextLayer { next_layer, payload }
            },
        }
    }
}

fn ip_next_layer(protocol: u8) -> (r: LayerType)
    ensures
        r == ip_layer(protocol),
{
    if protocol == 6 {
        LayerType::TCP
    } else if protocol == 17 {
        LayerType::UDP
    } else {
        LayerType::Unknown(protocol as u32)
    }
}

impl IPv4Parser {
    pub fn parse<'a>(&self, data: &'a [u8], context: &mut PacketContext) -> (r: ParseResult<'a>)
        ensures
            (step_of(r), final(context)@) == ipv4_step(data@, old(context)@),
    {
        match read_ipv4_header(data) {
            None => ParseResult::Error(String::from_str("IPv4 header is malformed")),
            Some(h) => {
                proof {
                    lemma_ipv4_of(h.source);
                    lemma_ipv4_of(h.destination);
                }
                context.src_ip = Some(IPAddress::V4(h.source));
                context.dst_ip = Some(IPAddress::V4(h.destination));
                let total = h.total_len as usize;
                let end = if h.header_len <= total && total <= data.len() {
                    total
                } else {
                    data.len()
                };
                let payload = vstd::slice::slice_subrange(data, h.header_len, end);
                ParseResult::NextLayer { next_layer: ip_next_layer(h.protocol), payload }
            },
        }
    }
}

impl IPv6Parser {
    pub fn parse<'a>(&self, data: &'a [u8], context: &mut PacketContext) -> (r: ParseResult<'a>)
        ensures
            (step_of(r), final(context)@) == ipv6_step(data@, old(context)@),
    {
        match read_ipv6_header(data) {
            None => ParseResult::Error(String::from_str("IPv6 header is malformed")),
            Some(h) => {
                proof {
                    lemma_ipv6_of(h.source);
                    lemma_ipv6_of(h.destination);
                }
                context.src_ip = Some(IPAddress::V6(h.source));
                context.dst_ip = Some(IPAddress::V6(h.destination));
                let declared = 40 + h.payload_len as usize;
                let end = if declared <= data.len() {
                    declared
                } else {
                    data.len()
                };
                let payload = vstd::slice::slice_subrange(data, 40, end);
                ParseResult::NextLayer { next_layer: ip_next_layer(h.next_header), payload }
            },
        }
    }
}

/// Appends the tag that a segment's TCP flags give, if any.
pub fn tag_tcp(syn: bool, ack: bool, fin: bool, rst: bool, payload_len: usize, context: &mut PacketContext)
    ensures
        final(context)@ == (ContextView {
            tags: old(context)@.tags + tcp_flag_tags(syn, ack, fin, rst, payload_len == 0),
            ..old(context)@
        }),
{
    let ghost before = context@.tags;
    if syn {
        if ack {
            context.push_tag(String::from_str("SYN-ACK"));
        } else {
            context.push_tag(String::from_str("SYN"));
        }
    } else if fin {
        context.push_tag(String::from_str("FIN"));
    } else if rst {
        context.push_tag(String::from_str("RST"));
    } else if ack && payload_len == 0 {
        context.push_tag(String::from_str("ACK"));
    }
    assert(context@.tags =~= before + tcp_flag_tags(syn, ack, fin, rst, payload_len == 0));
}

impl TcpParser {
    pub fn parse<'a>(&self, data: &'a [u8], context: &mut PacketContext) -> (r: ParseResult<'a>)
        ensures
            (step_of(r), final(context)@) == tcp_step(data@, old(context)@),
    {
        match read_tcp_header(data) {
            None => ParseResult::Error(String::from_str("TCP header is malformed")),
            Some(h) => {
                context.src_port = Some(h.source_port);
                context.dst_port = Some(h.destination_port);
                context.protocol = Some(Protocol::TCP);
                context.is_syn = h.syn;
                context.is_ack = h.ack;
                let rest = vstd::slice::slice_subrange(data, h.header_len, data.len());
                proof {
                    assert(rest@ =~= data@.skip(h.header_len as int));
                }
                tag_tcp(h.syn, h.ack, h.fin, h.rst, rest.len(), context);
                if looks_like_tls(rest) {
                    ParseResult::NextLayer { next_layer: LayerType::TLS, payload: rest }
                } else {
                    ParseResult::Final
                }
            },
        }
    }
}

impl UdpParser {
    pub fn parse<'a>(&self, data: &'a [u8], context: &mut PacketContext) -> (r: ParseResult<'a>)
        ensures
            (step_of(r), final(context)@) == udp_step(data@, old(context)@),
    {
        match read_udp_header(data) {
            None => ParseResult::Error(String::from_str("UDP header is truncated")),
            Some(h) => {
                context.src_port = Some(h.source_port);
                context.dst_port = Some(h.destination_port);
                context.protocol = Some(Protocol::UDP);
                let payload = vstd::slice::slice_subrange(data, 8, data.len());
                proof {
                    assert(payload@ =~= data@.skip(8));
                }
                context.udp_payload = Some(vstd::slice::slice_to_vec(payload));
                ParseResult::Final
            },
        }
    }
}

/// Runs the decoder registered for `layer` on `data`.
pub fn decode_layer<'a>(
    layer: LayerType,
    data: &'a [u8],
    context: &mut PacketContext,
    tls_parser: &TlsParser,
) -> (r: ParseResult<'a>)
    ensures
        (step_of(r), final(context)@) == layer_step(layer, data@, old(context)@),
{
    match layer {
        LayerType::Ethernet => EthernetParser.parse(data, context),
        LayerType::IPv4 => IPv4Parser.parse(data, context),
        LayerType::IPv6 => IPv6Parser.parse(data, context),
        LayerType::TCP => TcpParser.parse(data, context),
        LayerType::UDP => UdpParser.parse(data, context),
        LayerType::TLS => {
            tls_parser.parse(data, context);
            ParseResult::Final
        },
        LayerType::Unknown(_) => ParseResult::Final,
    }
}

/// Decodes one Ethernet frame, layer by layer, into a packet context; a decoder that fails
/// gives the error.
pub fn decode_headers(packet: &[u8], tls_parser: &TlsParser) -> (r: Result<PacketContext, String>)
    ensures
        match r {
            Ok(c) => decode_frame(packet@) == (c@, false),
            Err(_) => decode_frame(packet@).1,
        },
{
    let mut context = PacketContext::new();
    let mut layer = LayerType::Ethernet;
    let mut data: &[u8] = packet;
    loop
        invariant
            decode_frame(packet@) == decode_from(layer, data@, context@),
        decreases data@.len(),
    {
        match decode_layer(layer, data, &mut context, tls_parser) {
            ParseResult::NextLayer { next_layer, payload } => {
                if payload.len() >= data.len() {
                    return Ok(context);
                }
                layer = next_layer;
                data = payload;
            },
            ParseResult::Final => {
                return Ok(context);
            },
            ParseResult::Error(e) => {
                return Err(e);
            },
        }
    }
}

/// A segment with SYN and without ACK gets the tag `SYN` from the TCP decoder and no other;
/// one with SYN and ACK gets `SYN-ACK` and no other.
pub proof fn lemma_syn_tags(data: Seq<u8>, c: ContextView)
    requires
        tcp_header_ok(data),
        bit(data[13], 1),
    ensures
        !bit(data[13], 4) ==> tcp_step(data, c).1.tags == c.tags + seq!["SYN"@],
        bit(data[13], 4) ==> tcp_step(data, c).1.tags == c.tags + seq!["SYN-ACK"@],
        tcp_step(data, c).1.is_syn,
{
}

/// Every tag of the TLS decoder ends with `)`, so none of them is a TCP flag tag.
pub proof fn lemma_tls_tags_are_not_flags(data: Seq<u8>)
    ensures
        forall|k: int| 0 <= k < tls_tags(data).len() ==> {
            &&& (#[trigger] tls_tags(data)[k]).len() > 0
            &&& tls_tags(data)[k].last() == ')'
            &&& tls_tags(data)[k] != "SYN"@
            &&& tls_tags(data)[k] != "SYN-ACK"@
            &&& tls_tags(data)[k] != "ACK"@
            &&& tls_tags(data)[k] != "FIN"@
            &&& tls_tags(data)[k] != "RST"@
        },
    decreases data.len(),
{
    reveal_strlit(")");
    reveal_strlit("SYN");
    reveal_strlit("SYN-ACK");
    reveal_strlit("ACK");
    reveal_strlit("FIN");
    reveal_strlit("RST");
    if crate::wire::tls_record_ok(data) && crate::tls::is_tagged_content_type(data[0]) {
        let n = crate::tls::record_len(data);
        lemma_tls_tags_are_not_flags(data.skip(n));
        let head = crate::tls::record_tag(data[0], be16(data[1], data[2]) as u16, data.subrange(5, n));
        assert(head.last() == ')');
        assert forall|k: int| 0 <= k < tls_tags(data).len() implies {
            &&& (#[trigger] tls_tags(data)[k]).len() > 0
            &&& tls_tags(data)[k].last() == ')'
            &&& tls_tags(data)[k] != "SYN"@
            &&& tls_tags(data)[k] != "SYN-ACK"@
            &&& tls_tags(data)[k] != "ACK"@
            &&& tls_tags(data)[k] != "FIN"@
            &&& tls_tags(data)[k] != "RST"@
        } by {
            if k == 0 {
                assert(tls_tags(data)[k] == head);
            } else {
                assert(tls_tags(data)[k] == tls_tags(data.skip(n))[k - 1]);
            }
        }
    }
}

} // verus!
