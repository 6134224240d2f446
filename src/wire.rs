//! Header readers of the etherparse and tls-parser crates, with what they return.

use vstd::prelude::*;

verus! {

/// A big-endian 16-bit number from two bytes.
pub open spec fn be16(hi: u8, lo: u8) -> int {
    hi as int * 256 + lo as int
}

/// Bit `k` (0 = least significant) of a byte.
pub open spec fn bit(b: u8, k: nat) -> bool {
    (b as int / vstd::arithmetic::power2::pow2(k) as int) % 2 == 1
}

/// The fields of an IPv4 header that the decoder reads.
pub struct Ipv4Fields {
    pub source: [u8; 4],
    pub destination: [u8; 4],
    pub protocol: u8,
    pub header_len: usize,
    pub total_len: u16,
}

/// The fields of an IPv6 header that the decoder reads.
pub struct Ipv6Fields {
    pub source: [u8; 16],
    pub destination: [u8; 16],
    pub next_header: u8,
    pub payload_len: u16,
}

/// The fields of a TCP header that the decoder reads.
pub struct TcpFields {
    pub source_port: u16,
    pub destination_port: u16,
    pub header_len: usize,
    pub syn: bool,
    pub ack: bool,
    pub fin: bool,
    pub rst: bool,
}

/// The fields of a UDP header that the decoder reads.
pub struct UdpFields {
    pub source_port: u16,
    pub destination_port: u16,
}

/// The header of one TLS record.
pub struct TlsRecordHeader {
    pub content_type: u8,
    pub version: u16,
    pub body_len: usize,
}

/// The IPv4 header length field (in 32-bit words).
pub open spec fn ipv4_ihl(data: Seq<u8>) -> int {
    data[0] as int % 16
}

/// Whether an IPv4 header can be read from the start of `data`.
pub open spec fn ipv4_header_ok(data: Seq<u8>) -> bool {
    &&& data.len() >= 20
    &&& data[0] as int / 16 == 4
    &&& ipv4_ihl(data) >= 5
    &&& data.len() >= 4 * ipv4_ihl(data)
}

/// Whether a TCP header can be read from the start of `data`.
pub open spec fn tcp_header_ok(data: Seq<u8>) -> bool {
    &&& data.len() >= 20
    &&& data[12] as int / 16 >= 5
    &&& data.len() >= 4 * (data[12] as int / 16)
}

/// The largest TLS record body that tls-parser accepts.
pub const MAX_TLS_RECORD_LEN: usize = 16640;

/// Whether a complete TLS record envelope stands at the start of `data`.
pub open spec fn tls_record_ok(data: Seq<u8>) -> bool {
    &&& data.len() >= 5
    &&& be16(data[3], data[4]) <= MAX_TLS_RECORD_LEN
    &&& 5 + be16(data[3], data[4]) <= data.len()
}

/// Relies on etherparse::Ethernet2Header::from_slice: it needs the 14 header bytes and reads
/// the ether type from bytes 12 and 13, big-endian.
#[verifier::external_body]
pub(crate) fn read_ethernet_header(data: &[u8]) -> (r: Option<u16>)
    ensures
        r.is_some() == (data@.len() >= 14),
        r matches Some(t) ==> t as int == be16(data@[12], data@[13]),
{
    match etherparse::Ethernet2Header::from_slice(data) {
        Ok((header, _)) => Some(header.ether_type.0),
        Err(_) => None,
    }
}

/// Relies on etherparse::Ipv4Header::from_slice: version 4, a header length of at least five
/// words that fits in `data`; addresses at bytes 12..20, protocol at byte 9, total length at
/// bytes 2 and 3.
#[verifier::external_body]
pub(crate) fn read_ipv4_header(data: &[u8]) -> (r: Option<Ipv4Fields>)
    ensures
        r.is_some() == ipv4_header_ok(data@),
        r matches Some(h) ==> {
            &&& h.source@ == data@.subrange(12, 16)
            &&& h.destination@ == data@.subrange(16, 20)
            &&& h.protocol == data@[9]
            &&& h.header_len == 4 * ipv4_ihl(data@)
            &&& h.total_len as int == be16(data@[2], data@[3])
        },
{
    match etherparse::Ipv4Header::from_slice(data) {
        Ok((h, _)) => Some(Ipv4Fields {
            source: h.source,
            destination: h.destination,
            protocol: h.protocol.0,
            header_len: h.header_len(),
            total_len: h.total_len,
        }),
        Err(_) => None,
    }
}

/// Relies on etherparse::Ipv6Header::from_slice: 40 bytes with version 6; payload length at
/// bytes 4 and 5, next header at byte 6, addresses at bytes 8..40.
#[verifier::external_body]
pub(crate) fn read_ipv6_header(data: &[u8]) -> (r: Option<Ipv6Fields>)
    ensures
        r.is_some() == (data@.len() >= 40 && data@[0] as int / 16 == 6),
        r matches Some(h) ==> {
            &&& h.source@ == data@.subrange(8, 24)
            &&& h.destination@ == data@.subrange(24, 40)
            &&& h.next_header == data@[6]
            &&& h.payload_len as int == be16(data@[4], data@[5])
        },
{
    match etherparse::Ipv6Header::from_slice(data) {
        Ok((h, _)) => Some(Ipv6Fields {
            source: h.source,
            destination: h.destination,
            next_header: h.next_header.0,
            payload_len: h.payload_length,
        }),
        Err(_) => None,
    }
}

/// Relies on etherparse::TcpHeader::from_slice: a data offset of at least five words that fits
/// in `data`; ports at bytes 0..4, flags in byte 13 (FIN bit 0, SYN bit 1, RST bit 2, ACK bit 4).
#[verifier::external_body]
pub(crate) fn read_tcp_header(data: &[u8]) -> (r: Option<TcpFields>)
    ensures
        r.is_some() == tcp_header_ok(data@),
        r matches Some(h) ==> {
            &&& h.source_port as int == be16(data@[0], data@[1])
            &&& h.destination_port as int == be16(data@[2], data@[3])
            &&& h.header_len == 4 * (data@[12] as int / 16)
            &&& h.fin == bit(data@[13], 0)
            &&& h.syn == bit(data@[13], 1)
            &&& h.rst == bit(data@[13], 2)
            &&& h.ack == bit(data@[13], 4)
        },
{
    match etherparse::TcpHeader::from_slice(data) {
        Ok((h, _)) => Some(TcpFields {
            source_port: h.source_port,
            destination_port: h.destination_port,
            header_len: h.header_len(),
            syn: h.syn,
            ack: h.ack,
            fin: h.fin,
            rst: h.rst,
        }),
        Err(_) => None,
    }
}

/// Relies on etherparse::UdpHeader::from_slice: it needs the 8 header bytes; ports at bytes 0..4.
#[verifier::external_body]
pub(crate) fn read_udp_header(data: &[u8]) -> (r: Option<UdpFields>)
    ensures
        r.is_some() == (data@.len() >= 8),
        r matches Some(h) ==> {
            &&& h.source_port as int == be16(data@[0], data@[1])
            &&& h.destination_port as int == be16(data@[2], data@[3])
        },
{
    match etherparse::UdpHeader::from_slice(data) {
        Ok((h, _)) => Some(UdpFields {
            source_port: h.source_port,
            destination_port: h.destination_port,
        }),
        Err(_) => None,
    }
}

/// Relies on tls_parser::parse_tls_raw_record: a 5-byte header (type, version, length, all
/// big-endian) followed by the whole body, whose length is at most `MAX_TLS_RECORD_LEN`.
#[verifier::external_body]
pub(crate) fn read_tls_record(data: &[u8]) -> (r: Option<TlsRecordHeader>)
    ensures
        r.is_some() == tls_record_ok(data@),
        r matches Some(h) ==> {
            &&& h.content_type == data@[0]
            &&& h.version as int == be16(data@[1], data@[2])
            &&& h.body_len as int == be16(data@[3], data@[4])
        },
{
    match tls_parser::parse_tls_raw_record(data) {
        Ok((_, rec)) => Some(TlsRecordHeader {
            content_type: rec.hdr.record_type.0,
            version: rec.hdr.version.0,
            body_len: rec.data.len(),
        }),
        Err(_) => None,
    }
}

} // verus!
