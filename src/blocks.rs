//! Block readers of the pcap-parser crate, with what they return.

use crate::dns::NameRecord;
use pcap_parser::pcapng::{
    parse_block_be, parse_block_le, parse_enhancedpacketblock_be, parse_enhancedpacketblock_le,
    parse_interfacedescriptionblock_be, parse_interfacedescriptionblock_le,
    parse_nameresolutionblock_be, parse_nameresolutionblock_le,
};
use pcap_parser::traits::PcapNGPacketBlock;
use vstd::prelude::*;

verus! {

/// Why a block could not be read.
#[derive(Debug, Clone, Copy, PartialEq, Eq, Structural)]
pub enum BlockError {
    /// The block runs past the end of the data.
    Incomplete,
    /// The block is malformed.
    Invalid,
}

/// What a section header block holds: its byte order.
#[derive(Debug, Clone, Copy)]
pub struct SectionHeader {
    pub remaining: usize,
    pub big_endian: bool,
}

/// What an interface description block holds.
#[derive(Debug, Clone, Copy)]
pub struct InterfaceBlock {
    pub remaining: usize,
    pub linktype: i32,
    pub ts_resolution: u8,
    pub ts_offset: i64,
}

/// What an enhanced packet block holds.
#[derive(Debug, Clone)]
pub struct PacketBlock {
    pub remaining: usize,
    pub if_id: u32,
    pub ts_high: u32,
    pub ts_low: u32,
    pub packet: Vec<u8>,
}

/// What a name resolution block holds.
#[derive(Debug, Clone)]
pub struct NameBlock {
    pub remaining: usize,
    pub records: Vec<NameRecord>,
}

/// The result of pcap-parser's section header reader on some bytes.
pub uninterp spec fn section_header_of(data: Seq<u8>) -> Result<SectionHeader, BlockError>;

/// The result of pcap-parser's interface description reader on some bytes.
pub uninterp spec fn interface_block_of(data: Seq<u8>, big_endian: bool) -> Result<InterfaceBlock, BlockError>;

/// The result of pcap-parser's enhanced packet reader on some bytes.
pub uninterp spec fn packet_block_of(data: Seq<u8>, big_endian: bool) -> Result<PacketBlock, BlockError>;

/// The result of pcap-parser's name resolution reader on some bytes.
pub uninterp spec fn name_block_of(data: Seq<u8>, big_endian: bool) -> Result<NameBlock, BlockError>;

/// The result of pcap-parser's generic block reader on some bytes: what is left after it.
pub uninterp spec fn other_block_of(data: Seq<u8>, big_endian: bool) -> Result<usize, BlockError>;

/// A 32-bit number from four bytes in the given byte order.
pub open spec fn u32_at(data: Seq<u8>, i: int, big_endian: bool) -> int {
    if big_endian {
        ((data[i] as int * 256 + data[i + 1] as int) * 256 + data[i + 2] as int) * 256 + data[i + 3] as int
    } else {
        ((data[i + 3] as int * 256 + data[i + 2] as int) * 256 + data[i + 1] as int) * 256 + data[i] as int
    }
}

/// The block type of a process information block.
pub const PROCESS_INFORMATION_BLOCK: u32 = 0x8000_0001;

/// Relies on pcap_parser::pcapng::parse_sectionheaderblock: the byte order comes from the
/// byte-order magic, and a block consumes its total length, at least 12 bytes.
#[verifier::external_body]
pub(crate) fn read_section_header(data: &[u8]) -> (r: Result<SectionHeader, BlockError>)
    ensures
        r == section_header_of(data@),
        r matches Ok(b) ==> b.remaining + 12 <= data@.len(),
{
    match pcap_parser::pcapng::parse_sectionheaderblock(data) {
        Ok((rest, b)) => Ok(SectionHeader { remaining: rest.len(), big_endian: b.big_endian() }),
        Err(pcap_parser::nom::Err::Incomplete(_)) => Err(BlockError::Incomplete),
        Err(_) => Err(BlockError::Invalid),
    }
}

/// Relies on pcap_parser::pcapng::parse_interfacedescriptionblock_le and _be: link type and
/// time options of the interface; a block consumes its total length, at least 12 bytes.
#[verifier::external_body]
pub(crate) fn read_interface_block(data: &[u8], big_endian: bool) -> (r: Result<InterfaceBlock, BlockError>)
    ensures
        r == interface_block_of(data@, big_endian),
        r matches Ok(b) ==> b.remaining + 12 <= data@.len(),
{
    let parsed = if big_endian { parse_interfacedescriptionblock_be(data) } else { parse_interfacedescriptionblock_le(data) };
    match parsed {
        Ok((rest, b)) => Ok(InterfaceBlock {
            remaining: rest.len(),
            linktype: b.linktype.0,
            ts_resolution: b.if_tsresol,
            ts_offset: b.if_tsoffset,
        }),
        Err(pcap_parser::nom::Err::Incomplete(_)) => Err(BlockError::Incomplete),
        Err(_) => Err(BlockError::Invalid),
    }
}

/// Relies on pcap_parser::pcapng::parse_enhancedpacketblock_le and _be, and on
/// PcapNGPacketBlock::packet_data for the captured bytes; a block consumes its total length,
/// at least 12 bytes.
#[verifier::external_body]
pub(crate) fn read_packet_block(data: &[u8], big_endian: bool) -> (r: Result<PacketBlock, BlockError>)
    ensures
        r == packet_block_of(data@, big_endian),
        r matches Ok(b) ==> b.remaining + 12 <= data@.len(),
{
    let parsed = if big_endian { parse_enhancedpacketblock_be(data) } else { parse_enhancedpacketblock_le(data) };
    match parsed {
        Ok((rest, b)) => Ok(PacketBlock {
            remaining: rest.len(),
            if_id: b.if_id,
            ts_high: b.ts_high,
            ts_low: b.ts_low,
            packet: b.packet_data().to_vec(),
        }),
        Err(pcap_parser::nom::Err::Incomplete(_)) => Err(BlockError::Incomplete),
        Err(_) => Err(BlockError::Invalid),
    }
}

/// Relies on pcap_parser::pcapng::parse_nameresolutionblock_le and _be: the name records in
/// block order; a block consumes its total length, at least 12 bytes.
#[verifier::external_body]
pub(crate) fn read_name_block(data: &[u8], big_endian: bool) -> (r: Result<NameBlock, BlockError>)
    ensures
        r == name_block_of(data@, big_endian),
        r matches Ok(b) ==> b.remaining + 12 <= data@.len(),
{
    let parsed = if big_endian { parse_nameresolutionblock_be(data) } else { parse_nameresolutionblock_le(data) };
    match parsed {
        Ok((rest, b)) => Ok(NameBlock {
            remaining: rest.len(),
            records: b.nr.iter().map(|n| NameRecord { record_type: n.record_type.0, value: n.record_value.to_vec() }).collect(),
        }),
        Err(pcap_parser::nom::Err::Incomplete(_)) => Err(BlockError::Incomplete),
        Err(_) => Err(BlockError::Invalid),
    }
}

/// Relies on pcap_parser::pcapng::parse_block_le and _be: a block consumes its total length,
/// at least 12 bytes. A process information block whose length field is below 12 makes that
/// reader panic, so such input is left out.
#[verifier::external_body]
pub(crate) fn read_other_block(data: &[u8], big_endian: bool) -> (r: Result<usize, BlockError>)
    requires
        data@.len() >= 8,
        u32_at(data@, 0, big_endian) == PROCESS_INFORMATION_BLOCK ==> u32_at(data@, 4, big_endian) >= 12,
    ensures
        r == other_block_of(data@, big_endian),
        r matches Ok(rem) ==> rem + 12 <= data@.len(),
{
    let parsed = if big_endian { parse_block_be(data) } else { parse_block_le(data) };
    match parsed {
        Ok((rest, _)) => Ok(rest.len()),
        Err(pcap_parser::nom::Err::Incomplete(_)) => Err(BlockError::Incomplete),
        Err(_) => Err(BlockError::Invalid),
    }
}

} // verus!
