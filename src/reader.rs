//! The pcapng block reader: it walks a capture's blocks and folds its packets into flows.

use crate::blocks::{
    BlockError, PROCESS_INFORMATION_BLOCK, PacketBlock, interface_block_of, name_block_of,
    other_block_of, packet_block_of, read_interface_block, read_name_block, read_other_block,
    read_packet_block, read_section_header, section_header_of, u32_at,
};
use crate::dns::{dns_answers, handle_dns_response, handle_name_resolution, is_dns_datagram, record_pairs};
use crate::layers::decode_frame;
use crate::names::with_names;
use crate::packets::{five_tuple, table_after};
use crate::flow::Timestamp;
use crate::layers::decode_headers;
use crate::names::NameTable;
use crate::packets::{FlowTable, add_packet, packets_in, update_first_timestamp};
use crate::tls::TlsParser;
use vstd::arithmetic::power::pow;
use vstd::prelude::*;

verus! {

/// Block type of a section header block.
pub const SECTION_HEADER_BLOCK: u32 = 0x0A0D_0D0A;

/// Block type of an interface description block.
pub const INTERFACE_DESCRIPTION_BLOCK: u32 = 1;

/// Block type of a name resolution block.
pub const NAME_RESOLUTION_BLOCK: u32 = 4;

/// Block type of an enhanced packet block.
pub const ENHANCED_PACKET_BLOCK: u32 = 6;

/// Link type of Ethernet interfaces.
pub const LINKTYPE_ETHERNET: i32 = 1;

/// Bytes read between two progress reports, at least.
pub const PROGRESS_STEP: usize = 1000;

/// Timestamp units per second that an interface's resolution byte gives: `2^(b & 0x7F)` when
/// the high bit is set, else `10^b`; none when that does not fit in 64 bits.
pub open spec fn ts_units(resolution: u8) -> Option<u64> {
    let (base, exp) = if resolution >= 128 {
        (2int, (resolution - 128) as nat)
    } else {
        (10int, resolution as nat)
    };
    if pow(base, exp) <= u64::MAX {
        Some(pow(base, exp) as u64)
    } else {
        None
    }
}

/// The number of timestamp units per second of an interface.
pub fn calculate_ts_unit(resolution: u8) -> (r: Option<u64>)
    ensures
        r == ts_units(resolution),
{
    let (base, exp): (u64, u8) = if resolution >= 128 {
        (2, resolution - 128)
    } else {
        (10, resolution)
    };
    let mut unit: u64 = 1;
    let mut i: u8 = 0;
    proof {
        reveal(pow);
    }
    while i < exp
        invariant
            i <= exp,
            base == (if resolution >= 128 { 2u64 } else { 10u64 }),
            exp == (if resolution >= 128 { (resolution - 128) as u8 } else { resolution }),
            unit as int == pow(base as int, i as nat),
        decreases exp - i,
    {
        proof {
            assert(pow(base as int, (i + 1) as nat) == base * pow(base as int, i as nat)) by {
                reveal(pow);
            }
        }
        match unit.checked_mul(base) {
            Some(next) => {
                unit = next;
                i = i + 1;
            },
            None => {
                proof {
                    vstd::arithmetic::power::lemma_pow_increases(base as nat, (i + 1) as nat, exp as nat);
                }
                return None;
            },
        }
    }
    Some(unit)
}

/// The time of a packet: the 64-bit tick count `ts_high:ts_low` in units of the interface,
/// shifted by its offset in seconds.
pub open spec fn packet_time(ts_high: u32, ts_low: u32, units: u64, offset: i64) -> Timestamp {
    let ticks = ts_high as int * 0x1_0000_0000 + ts_low as int;
    Timestamp {
        seconds: (offset as int + ticks / units as int) as i128,
        fraction: (ticks % units as int) as u64,
        units_per_second: units,
    }
}

/// Decodes the time of a packet.
pub fn parse_timestamp(ts_high: u32, ts_low: u32, units: u64, offset: i64) -> (r: Timestamp)
    requires
        units >= 1,
    ensures
        r == packet_time(ts_high, ts_low, units, offset),
        r.wf(),
{
    let ticks: u64 = (ts_high as u64) * 0x1_0000_0000 + ts_low as u64;
    Timestamp {
        seconds: offset as i128 + (ticks / units) as i128,
        fraction: ticks % units,
        units_per_second: units,
    }
}

/// What the reader keeps of an interface description.
#[derive(Debug, Clone, Copy)]
pub struct Interface {
    pub linktype: i32,
    pub units_per_second: Option<u64>,
    pub ts_offset: i64,
}

/// How much of the capture has been read.
#[derive(Debug, Clone, Copy, PartialEq, Eq, Structural)]
pub struct Progress {
    pub bytes_read: usize,
    pub total: usize,
}

/// What a capture parse gathers.
#[derive(Debug, Clone)]
pub struct ParseState {
    pub flows: FlowTable,
    pub first_packet_ts: Option<Timestamp>,
    pub packet_count: usize,
    pub name_resolutions: NameTable,
}

impl ParseState {
    /// Both tables are well formed, the count is the number of packets in the flows, and a
    /// start time is known once there is a flow.
    pub open spec fn wf(&self) -> bool {
        &&& self.flows.wf()
        &&& self.name_resolutions.wf()
        &&& self.packet_count == packets_in(self.flows@)
        &&& self.first_packet_ts is None ==> self.flows@.len() == 0
    }

    pub fn new() -> (r: ParseState)
        ensures
            r.wf(),
            r.flows@.len() == 0,
            r.first_packet_ts is None,
            r.packet_count == 0,
            r.name_resolutions@.len() == 0,
    {
        ParseState {
            flows: FlowTable::new(),
            first_packet_ts: None,
            packet_count: 0,
            name_resolutions: NameTable::new(),
        }
    }
}

/// Why a capture cannot be read at all.
#[derive(Debug, Clone, Copy, PartialEq, Eq, Structural)]
pub enum CaptureError {
    /// The data is too short to hold a section header block.
    Truncated,
    /// The data does not start with a section header block.
    NotPcapng,
}

impl CaptureError {
    pub fn message(&self) -> (r: String)
        ensures
            r@ == match self {
                CaptureError::Truncated => "Failed to create reader: capture is truncated"@,
                CaptureError::NotPcapng => "Failed to create reader: not a pcapng capture"@,
            },
    {
        match self {
            CaptureError::Truncated => String::from_str("Failed to create reader: capture is truncated"),
            CaptureError::NotPcapng => String::from_str("Failed to create reader: not a pcapng capture"),
        }
    }
}

/// The error that the start of a capture gives, if any.
pub open spec fn start_error(data: Seq<u8>) -> Option<CaptureError> {
    match section_header_of(data) {
        Ok(_) => None,
        Err(BlockError::Incomplete) => Some(CaptureError::Truncated),
        Err(BlockError::Invalid) => Some(CaptureError::NotPcapng),
    }
}

/// The earliest of a known start time and a new packet time.
pub open spec fn earliest(first: Option<Timestamp>, ts: Timestamp) -> Option<Timestamp> {
    match first {
        None => Some(ts),
        Some(current) => if ts.spec_before(current) {
            Some(ts)
        } else {
            Some(current)
        },
    }
}

/// Whether `s2` is `s` after the enhanced packet block `b` is handled: a packet on a known
/// Ethernet interface with a usable time resolution moves the start time, and, when it
/// decodes, feeds the name table (DNS answers) and the flow table.
pub open spec fn packet_applied(ifaces: Seq<Interface>, s: ParseState, s2: ParseState, b: PacketBlock) -> bool {
    if b.if_id < ifaces.len() && ifaces[b.if_id as int].linktype == LINKTYPE_ETHERNET
        && ifaces[b.if_id as int].units_per_second is Some {
        let iface = ifaces[b.if_id as int];
        let ts = packet_time(b.ts_high, b.ts_low, iface.units_per_second.unwrap(), iface.ts_offset);
        let (c, failed) = decode_frame(b.packet@);
        &&& s2.first_packet_ts == earliest(s.first_packet_ts, ts)
        &&& if failed {
            s2.flows == s.flows && s2.packet_count == s.packet_count && s2.name_resolutions
                == s.name_resolutions
        } else {
            &&& s2.name_resolutions@ == if is_dns_datagram(c) {
                with_names(s.name_resolutions@, dns_answers(c.udp_payload.unwrap()))
            } else {
                s.name_resolutions@
            }
            &&& table_after(s.flows@, s2.flows@, b.packet@, c, ts)
            &&& s2.packet_count == s.packet_count + if five_tuple(c) is Some {
                1int
            } else {
                0int
            }
        }
    } else {
        s2 == s
    }
}

/// What the block reader of a block type gives on `rest`: the number of bytes left after
/// the block, or why it could not be read.
pub open spec fn block_outcome(rest: Seq<u8>, big_endian: bool) -> Result<int, BlockError> {
    let block_type = u32_at(rest, 0, big_endian);
    if block_type == SECTION_HEADER_BLOCK {
        match section_header_of(rest) {
            Ok(h) => Ok(h.remaining as int),
            Err(e) => Err(e),
        }
    } else if block_type == INTERFACE_DESCRIPTION_BLOCK {
        match interface_block_of(rest, big_endian) {
            Ok(b) => Ok(b.remaining as int),
            Err(e) => Err(e),
        }
    } else if block_type == ENHANCED_PACKET_BLOCK {
        match packet_block_of(rest, big_endian) {
            Ok(b) => Ok(b.remaining as int),
            Err(e) => Err(e),
        }
    } else if block_type == NAME_RESOLUTION_BLOCK {
        match name_block_of(rest, big_endian) {
            Ok(b) => Ok(b.remaining as int),
            Err(e) => Err(e),
        }
    } else if block_type == PROCESS_INFORMATION_BLOCK && u32_at(rest, 4, big_endian) < 12 {
        Err(BlockError::Invalid)
    } else {
        match other_block_of(rest, big_endian) {
            Ok(r) => Ok(r as int),
            Err(e) => Err(e),
        }
    }
}

/// How many bytes the block at the start of `rest` takes: what its reader consumed when it
/// reads; else its declared length, when that is at least 12 and within the data (a malformed
/// block is skipped); else none, and the parse ends (the data stops inside the block).
pub open spec fn block_advance(rest: Seq<u8>, big_endian: bool) -> Option<int> {
    match block_outcome(rest, big_endian) {
        Ok(remaining) => Some(rest.len() - remaining),
        Err(_) => {
            let len = u32_at(rest, 4, big_endian);
            if 12 <= len <= rest.len() {
                Some(len)
            } else {
                None
            }
        },
    }
}

/// Whether `p2` is `p` after the block at the start of `rest` was read: a section header sets
/// the byte order and forgets the interfaces; an interface description adds an interface; a
/// name resolution block adds its names; an enhanced packet block is handled as a packet;
/// anything else changes nothing.
pub open spec fn block_applied(p: CaptureParser, p2: CaptureParser, rest: Seq<u8>) -> bool {
    let be = p.section_big_endian();
    let block_type = u32_at(rest, 0, be);
    let unchanged = p2.section_big_endian() == be && p2.interfaces_view() == p.interfaces_view()
        && p2.gathered() == p.gathered();
    if block_type == SECTION_HEADER_BLOCK {
        match section_header_of(rest) {
            Ok(h) => p2.section_big_endian() == h.big_endian && p2.interfaces_view() == Seq::<
                Interface,
            >::empty() && p2.gathered() == p.gathered(),
            Err(_) => unchanged,
        }
    } else if block_type == INTERFACE_DESCRIPTION_BLOCK {
        match interface_block_of(rest, be) {
            Ok(b) => p2.section_big_endian() == be && p2.interfaces_view() == p.interfaces_view().push(
                Interface {
                    linktype: b.linktype,
                    units_per_second: ts_units(b.ts_resolution),
                    ts_offset: b.ts_offset,
                },
            ) && p2.gathered() == p.gathered(),
            Err(_) => unchanged,
        }
    } else if block_type == ENHANCED_PACKET_BLOCK {
        match packet_block_of(rest, be) {
            Ok(b) => p2.section_big_endian() == be && p2.interfaces_view() == p.interfaces_view()
                && packet_applied(p.interfaces_view(), p.gathered(), p2.gathered(), b),
            Err(_) => unchanged,
        }
    } else if block_type == NAME_RESOLUTION_BLOCK {
        match name_block_of(rest, be) {
            Ok(b) => {
                &&& p2.section_big_endian() == be
                &&& p2.interfaces_view() == p.interfaces_view()
                &&& p2.gathered().flows == p.gathered().flows
                &&& p2.gathered().first_packet_ts == p.gathered().first_packet_ts
                &&& p2.gathered().packet_count == p.gathered().packet_count
                &&& p2.gathered().name_resolutions@ == with_names(
                    p.gathered().name_resolutions@,
                    record_pairs(b.records@),
                )
            },
            Err(_) => unchanged,
        }
    } else {
        unchanged
    }
}

/// Whether `p2` is `p` after one step: the block at the current position is read and
/// applied, and the position moves past it; at the end of the data, or at a block that
/// cannot be read or skipped, the parse ends with nothing changed.
pub open spec fn stepped(p: CaptureParser, p2: CaptureParser) -> bool {
    let rest = p.bytes().skip(p.bytes_read() as int);
    &&& !p.finished()
    &&& p2.bytes() == p.bytes()
    &&& p2.total() == p.total()
    &&& if rest.len() < 12 {
        p2.finished() && p2.bytes_read() == p.bytes_read() && p2.gathered() == p.gathered()
    } else {
        match block_advance(rest, p.section_big_endian()) {
            None => p2.finished() && p2.bytes_read() == p.bytes_read() && p2.gathered() == p.gathered(),
            Some(n) => !p2.finished() && p2.bytes_read() == p.bytes_read() + n && block_applied(p, p2, rest),
        }
    }
}

/// Whether `trace` is a sequence of parser states, each one step after the previous one.
pub open spec fn steps_through(trace: Seq<CaptureParser>) -> bool {
    &&& trace.len() >= 1
    &&& forall|i: int| 0 <= i < trace.len() - 1 ==> stepped(#[trigger] trace[i], trace[i + 1])
}

/// Whether `p` is a parser that has just started on `data`.
pub open spec fn starts_on(p: CaptureParser, data: Seq<u8>) -> bool {
    &&& p.bytes() == data
    &&& p.total() == data.len()
    &&& p.bytes_read() == 0
    &&& !p.finished()
    &&& p.interfaces_view() == Seq::<Interface>::empty()
    &&& section_header_of(data) matches Ok(h) && p.section_big_endian() == h.big_endian
    &&& p.gathered().flows@.len() == 0
    &&& p.gathered().name_resolutions@.len() == 0
    &&& p.gathered().packet_count == 0
    &&& p.gathered().first_packet_ts is None
}

/// Handles the packet of an enhanced packet block: on a known Ethernet interface with a
/// usable time resolution, it moves the start time and, when it decodes, feeds the name table
/// and the flow table. Packets on other interfaces change nothing.
pub fn apply_packet(interfaces: &[Interface], state: &mut ParseState, block: PacketBlock)
    requires
        old(state).wf(),
        old(state).packet_count < usize::MAX,
        forall|i: int| 0 <= i < interfaces@.len() ==> ((#[trigger] interfaces@[i]).units_per_second matches Some(u) ==> u >= 1),
    ensures
        final(state).wf(),
        final(state).packet_count <= old(state).packet_count + 1,
        packet_applied(interfaces@, *old(state), *final(state), block),
{
    let if_id = block.if_id as usize;
    if if_id >= interfaces.len() {
        return;
    }
    let interface = interfaces[if_id];
    if interface.linktype != LINKTYPE_ETHERNET {
        return;
    }
    let units = match interface.units_per_second {
        Some(u) => u,
        None => return,
    };
    let timestamp = parse_timestamp(block.ts_high, block.ts_low, units, interface.ts_offset);
    update_first_timestamp(&mut state.first_packet_ts, timestamp);
    let tls_parser = TlsParser;
    match decode_headers(block.packet.as_slice(), &tls_parser) {
        Ok(context) => {
            handle_dns_response(&context, &mut state.name_resolutions);
            add_packet(
                block.packet.as_slice(),
                context,
                timestamp,
                &mut state.flows,
                &mut state.packet_count,
            );
        },
        Err(_) => {},
    }
}

/// Reads a capture block by block.
pub struct CaptureParser {
    data: Vec<u8>,
    offset: usize,
    big_endian: bool,
    interfaces: Vec<Interface>,
    state: ParseState,
    last_report: usize,
    done: bool,
}

fn read_u32(data: &[u8], i: usize, big_endian: bool) -> (r: u32)
    requires
        i + 4 <= data@.len(),
    ensures
        r as int == u32_at(data@, i as int, big_endian),
{
    let n = data.len();
    assert(i + 3 < n);
    let b0 = data[i];
    let b1 = data[i + 1];
    let b2 = data[i + 2];
    let b3 = data[i + 3];
    let (a, b, c, d) = if big_endian {
        (b0, b1, b2, b3)
    } else {
        (b3, b2, b1, b0)
    };
    ((a as u32 * 256 + b as u32) * 256 + c as u32) * 256 + d as u32
}

impl CaptureParser {
    pub closed spec fn wf(&self) -> bool {
        &&& self.offset <= self.data@.len()
        &&& self.last_report <= self.offset
        &&& self.state.packet_count <= self.offset
        &&& self.state.wf()
        &&& forall|i: int| 0 <= i < self.interfaces@.len() ==> ((#[trigger] self.interfaces@[i]).units_per_second matches Some(u) ==> u >= 1)
    }

    /// The number of bytes of the capture.
    pub open spec fn total(&self) -> nat {
        self.bytes().len()
    }

    /// The number of bytes read so far.
    pub closed spec fn bytes_read(&self) -> nat {
        self.offset as nat
    }

    /// The number of bytes read at the last progress report.
    pub closed spec fn last_reported(&self) -> nat {
        self.last_report as nat
    }

    /// Whether all blocks have been read.
    pub closed spec fn finished(&self) -> bool {
        self.done
    }

    /// The bytes of the capture.
    pub closed spec fn bytes(&self) -> Seq<u8> {
        self.data@
    }

    /// Whether the current section is big-endian.
    pub closed spec fn section_big_endian(&self) -> bool {
        self.big_endian
    }

    /// The interfaces of the current section, by interface id.
    pub closed spec fn interfaces_view(&self) -> Seq<Interface> {
        self.interfaces@
    }

    /// What the parse has gathered so far.
    pub closed spec fn gathered(&self) -> ParseState {
        self.state
    }

    /// What is left to do: the unread bytes, and one more step until the end is noticed.
    pub open spec fn work_left(&self) -> nat {
        if self.finished() {
            0
        } else {
            (self.total() - self.bytes_read() + 1) as nat
        }
    }

    /// Starts reading a capture; fails when it does not begin with a section header block.
    pub fn new(data: Vec<u8>) -> (r: Result<CaptureParser, CaptureError>)
        ensures
            match r {
                Ok(p) => start_error(data@) is None && p.wf() && starts_on(p, data@)
                    && p.last_reported() == 0,
                Err(e) => start_error(data@) == Some(e),
            },
    {
        match read_section_header(data.as_slice()) {
            Err(BlockError::Incomplete) => Err(CaptureError::Truncated),
            Err(BlockError::Invalid) => Err(CaptureError::NotPcapng),
            Ok(header) => Ok(CaptureParser {
                data,
                offset: 0,
                big_endian: header.big_endian,
                interfaces: Vec::new(),
                state: ParseState::new(),
                last_report: 0,
                done: false,
            }),
        }
    }

    pub fn is_done(&self) -> (r: bool)
        ensures
            r == self.finished(),
    {
        self.done
    }

    /// How much has been read so far.
    pub fn progress(&self) -> (r: Progress)
        ensures
            r.bytes_read == self.bytes_read(),
            r.total == self.total(),
    {
        Progress { bytes_read: self.offset, total: self.data.len() }
    }

    /// Ends the parse and hands over what it gathered.
    pub fn finish(self) -> (r: ParseState)
        requires
            self.wf(),
        ensures
            r.wf(),
            r == self.gathered(),
    {
        self.state
    }

    /// Reads the next block. Returns a progress report when at least `PROGRESS_STEP` bytes
    /// were read since the last one.
    pub fn step(&mut self) -> (r: Option<Progress>)
        requires
            old(self).wf(),
        ensures
            final(self).wf(),
            final(self).total() == old(self).total(),
            final(self).bytes_read() >= old(self).bytes_read(),
            !old(self).finished() ==> final(self).work_left() < old(self).work_left(),
            old(self).finished() ==> *final(self) == *old(self),
            !old(self).finished() ==> stepped(*old(self), *final(self)),
            match r {
                Some(p) => {
                    &&& p.bytes_read == final(self).bytes_read()
                    &&& p.total == final(self).total()
                    &&& p.bytes_read > old(self).last_reported() + PROGRESS_STEP
                    &&& final(self).last_reported() == p.bytes_read
                },
                None => final(self).last_reported() == old(self).last_reported(),
            },
    {
        if self.done {
            return None;
        }
        let len = self.data.len();
        if len - self.offset < 12 {
            self.done = true;
            return None;
        }
        let mut packet: Option<PacketBlock> = None;
        let consumed: Option<usize> = {
            let rest = vstd::slice::slice_subrange(self.data.as_slice(), self.offset, len);
            let block_type = read_u32(rest, 0, self.big_endian);
            let block_len = read_u32(rest, 4, self.big_endian) as usize;
            let outcome: Result<usize, BlockError> = if block_type == SECTION_HEADER_BLOCK {
                match read_section_header(rest) {
                    Ok(h) => {
                        self.big_endian = h.big_endian;
                        self.interfaces = Vec::new();
                        Ok(h.remaining)
                    },
                    Err(e) => Err(e),
                }
            } else if block_type == INTERFACE_DESCRIPTION_BLOCK {
                match read_interface_block(rest, self.big_endian) {
                    Ok(b) => {
                        let units = calculate_ts_unit(b.ts_resolution);
                        assert(units matches Some(u) ==> u >= 1) by {
                            vstd::arithmetic::power::lemma_pow_positive(2, (b.ts_resolution as int - 128) as nat);
                            vstd::arithmetic::power::lemma_pow_positive(10, b.ts_resolution as nat);
                        }
                        self.interfaces.push(
                            Interface { linktype: b.linktype, units_per_second: units, ts_offset: b.ts_offset },
                        );
                        Ok(b.remaining)
                    },
                    Err(e) => Err(e),
                }
            } else if block_type == ENHANCED_PACKET_BLOCK {
                match read_packet_block(rest, self.big_endian) {
                    Ok(b) => {
                        let remaining = b.remaining;
                        packet = Some(b);
                        Ok(remaining)
                    },
                    Err(e) => Err(e),
                }
            } else if block_type == NAME_RESOLUTION_BLOCK {
                match read_name_block(rest, self.big_endian) {
                    Ok(b) => {
                        handle_name_resolution(b.records.as_slice(), &mut self.state.name_resolutions);
                        Ok(b.remaining)
                    },
                    Err(e) => Err(e),
                }
            } else if block_type == PROCESS_INFORMATION_BLOCK && block_len < 12 {
                Err(BlockError::Invalid)
            } else {
                read_other_block(rest, self.big_endian)
            };
            match outcome {
                Ok(remaining) => Some(len - self.offset - remaining),
                Err(_) => if 12 <= block_len && block_len <= len - self.offset {
                    Some(block_len)
                } else {
                    None
                },
            }
        };
        match consumed {
            None => {
                self.done = true;
                None
            },
            Some(n) => {
                self.offset = self.offset + n;
                if let Some(b) = packet {
                    apply_packet(self.interfaces.as_slice(), &mut self.state, b);
                }
                if self.offset - self.last_report > PROGRESS_STEP {
                    self.last_report = self.offset;
                    Some(Progress { bytes_read: self.offset, total: len })
                } else {
                    None
                }
            },
        }
    }
}

/// Parses a whole pcapng capture held in memory into flows, a start time and names,
/// reporting progress on the way. Fails only when the capture does not begin with a section
/// header block; malformed blocks and packets after that are skipped.
pub fn parse_pcap_data<F: Fn(Progress)>(data: Vec<u8>, on_progress: F) -> (r: Result<ParseState, CaptureError>)
    requires
        forall|p: Progress| on_progress.requires((p,)),
    ensures
        match r {
            Ok(state) => {
                &&& start_error(data@) is None
                &&& state.wf()
                &&& exists|trace: Seq<CaptureParser>|
                    starts_on(trace[0], data@) && steps_through(trace) && trace.last().finished()
                        && #[trigger] trace.last().gathered() == state
            },
            Err(e) => start_error(data@) == Some(e),
        },
{
    let ghost d = data@;
    let mut parser = match CaptureParser::new(data) {
        Ok(p) => p,
        Err(e) => return Err(e),
    };
    let ghost mut trace: Seq<CaptureParser> = seq![parser];
    while !parser.is_done()
        invariant
            parser.wf(),
            starts_on(trace[0], d),
            steps_through(trace),
            trace.last() == parser,
            forall|p: Progress| on_progress.requires((p,)),
        decreases parser.work_left(),
    {
        let ghost before = trace;
        match parser.step() {
            Some(progress) => on_progress(progress),
            None => {},
        }
        proof {
            trace = trace.push(parser);
            assert forall|i: int| 0 <= i < trace.len() - 1 implies stepped(#[trigger] trace[i], trace[i + 1]) by {
                if i < before.len() - 1 {
                    assert(trace[i] == before[i] && trace[i + 1] == before[i + 1]);
                }
            }
        }
    }
    let state = parser.finish();
    Ok(state)
}

} // verus!
