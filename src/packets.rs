//! Folding decoded packets into the flow table.

use crate::context::{ContextView, PacketContext, tag_texts};
use crate::flow::{
    Endpoint, Flow, FlowKey, IPAddress, Packet, Protocol, Timestamp, flow_key_of, key_lt,
    lemma_key_lt_total, lemma_key_lt_trans,
};
use vstd::prelude::*;

verus! {

/// A flow together with its key.
#[derive(Debug, Clone)]
pub struct FlowEntry {
    pub key: FlowKey,
    pub flow: Flow,
}

/// The flows of a capture, in order of first packet; each key appears once.
#[derive(Debug, Clone)]
pub struct FlowTable {
    entries: Vec<FlowEntry>,
    /// Positions of the entries, sorted by key.
    order: Vec<usize>,
}

/// Whether an entry with `key` is present.
pub open spec fn has_key(t: Seq<FlowEntry>, key: FlowKey) -> bool {
    exists|j: int| 0 <= j < t.len() && t[j].key == key
}

/// The position of the entry with `key`.
pub open spec fn key_index(t: Seq<FlowEntry>, key: FlowKey) -> int {
    choose|j: int| 0 <= j < t.len() && t[j].key == key
}

pub open spec fn keys_distinct(t: Seq<FlowEntry>) -> bool {
    forall|i: int, j: int| 0 <= i < j < t.len() ==> t[i].key != t[j].key
}

/// The number of packets in all flows of a table.
pub open spec fn packets_in(t: Seq<FlowEntry>) -> nat
    decreases t.len(),
{
    if t.len() == 0 {
        0
    } else {
        packets_in(t.drop_last()) + t.last().flow.packets@.len()
    }
}

proof fn lemma_packets_in_update(t: Seq<FlowEntry>, j: int, e: FlowEntry)
    requires
        0 <= j < t.len(),
    ensures
        packets_in(t.update(j, e)) + t[j].flow.packets@.len() == packets_in(t) + e.flow.packets@.len(),
    decreases t.len(),
{
    if j < t.len() - 1 {
        assert(t.update(j, e).drop_last() =~= t.drop_last().update(j, e));
        lemma_packets_in_update(t.drop_last(), j, e);
    } else {
        assert(t.update(j, e).drop_last() =~= t.drop_last());
    }
}

impl View for FlowTable {
    type V = Seq<FlowEntry>;

    closed spec fn view(&self) -> Seq<FlowEntry> {
        self.entries@
    }
}

impl FlowTable {
    /// Keys are distinct, every flow holds at least one packet, and the index is sorted.
    pub open spec fn wf(&self) -> bool {
        &&& keys_distinct(self@)
        &&& forall|i: int| 0 <= i < self@.len() ==> (#[trigger] self@[i]).flow.packets@.len() >= 1
        &&& self.index_ok()
    }

    /// The key of the entry at position `i` of the sorted index.
    pub closed spec fn sorted_key(&self, i: int) -> FlowKey {
        self.entries@[self.order@[i] as int].key
    }

    /// The index lists every entry once, in key order.
    pub closed spec fn index_ok(&self) -> bool {
        &&& self.order@.len() == self.entries@.len()
        &&& forall|i: int| 0 <= i < self.order@.len() ==> (#[trigger] self.order@[i]) < self.entries@.len()
        &&& forall|i: int, j: int| 0 <= i < j < self.order@.len() ==> key_lt(self.sorted_key(i), self.sorted_key(j))
        &&& forall|e: int| 0 <= e < self.entries@.len() ==> #[trigger] self.indexed(e)
    }

    /// Whether entry `e` appears in the index.
    pub closed spec fn indexed(&self, e: int) -> bool {
        exists|i: int| 0 <= i < self.order@.len() && self.order@[i] == e
    }

    pub fn new() -> (r: FlowTable)
        ensures
            r.wf(),
            r@ == Seq::<FlowEntry>::empty(),
    {
        FlowTable { entries: Vec::new(), order: Vec::new() }
    }

    /// The number of flows.
    pub fn len(&self) -> (r: usize)
        ensures
            r == self@.len(),
    {
        self.entries.len()
    }

    pub fn is_empty(&self) -> (r: bool)
        ensures
            r == (self@.len() == 0),
    {
        self.entries.len() == 0
    }

    /// The flows with their keys, in order of first packet.
    pub fn entries(&self) -> (r: &[FlowEntry])
        ensures
            r@ == self@,
    {
        self.entries.as_slice()
    }

    /// Gives up the table's entries.
    pub fn into_entries(self) -> (r: Vec<FlowEntry>)
        ensures
            r@ == self@,
    {
        self.entries
    }

    /// Searches the sorted index: the entry with `key`, or where in the index it would go.
    fn locate(&self, key: &FlowKey) -> (r: Result<usize, usize>)
        requires
            self.wf(),
        ensures
            r matches Ok(j) ==> j < self@.len() && self@[j as int].key == *key && key_index(self@, *key) == j,
            r matches Err(pos) ==> {
                &&& !has_key(self@, *key)
                &&& pos <= self.order@.len()
                &&& forall|i: int| 0 <= i < pos ==> key_lt(#[trigger] self.sorted_key(i), *key)
                &&& forall|i: int| pos <= i < self.order@.len() ==> key_lt(*key, #[trigger] self.sorted_key(i))
            },
    {
        let n = self.order.len();
        let mut lo: usize = 0;
        let mut hi: usize = n;
        while lo < hi
            invariant
                self.wf(),
                n == self.order@.len(),
                lo <= hi <= n,
                forall|i: int| 0 <= i < lo ==> key_lt(#[trigger] self.sorted_key(i), *key),
                forall|i: int| hi <= i < n ==> key_lt(*key, #[trigger] self.sorted_key(i)),
            decreases hi - lo,
        {
            let mid = lo + (hi - lo) / 2;
            let e = self.order[mid];
            match self.entries[e].key.compare(key) {
                core::cmp::Ordering::Less => {
                    proof {
                        assert forall|i: int| 0 <= i < mid + 1 implies key_lt(#[trigger] self.sorted_key(i), *key) by {
                            if i < mid {
                                lemma_key_lt_trans(self.sorted_key(i), self.sorted_key(mid as int), *key);
                            }
                        }
                    }
                    lo = mid + 1;
                },
                core::cmp::Ordering::Greater => {
                    proof {
                        assert forall|i: int| mid <= i < n implies key_lt(*key, #[trigger] self.sorted_key(i)) by {
                            if i > mid {
                                lemma_key_lt_trans(*key, self.sorted_key(mid as int), self.sorted_key(i));
                            }
                        }
                    }
                    hi = mid;
                },
                core::cmp::Ordering::Equal => {
                    proof {
                        assert(has_key(self@, *key));
                        let k = key_index(self@, *key);
                        assert(0 <= k < self@.len() && self@[k].key == *key);
                        if k < e {
                            assert(self@[k].key != self@[e as int].key);
                        } else if k > e {
                            assert(self@[e as int].key != self@[k].key);
                        }
                    }
                    return Ok(e);
                },
            }
        }
        proof {
            assert forall|e: int| 0 <= e < self@.len() implies self@[e].key != *key by {
                assert(self.indexed(e));
                let i = choose|i: int| 0 <= i < self.order@.len() && self.order@[i] == e;
                lemma_key_lt_total(self.sorted_key(i), *key);
                if i < lo {
                    assert(key_lt(self.sorted_key(i), *key));
                } else {
                    assert(key_lt(*key, self.sorted_key(i)));
                }
            }
        }
        Err(lo)
    }

    /// The flow with key `key`, if there is one.
    pub fn get(&self, key: &FlowKey) -> (r: Option<&Flow>)
        requires
            self.wf(),
        ensures
            (r is None) == !has_key(self@, *key),
            r matches Some(f) ==> *f == self@[key_index(self@, *key)].flow,
    {
        match self.locate(key) {
            Ok(j) => Some(&self.entries[j].flow),
            Err(_) => None,
        }
    }
}

proof fn lemma_index_after_insert(t: FlowTable, t2: FlowTable, pos: int, key: FlowKey)
    requires
        t.index_ok(),
        0 <= pos <= t.order@.len(),
        forall|i: int| 0 <= i < pos ==> key_lt(#[trigger] t.sorted_key(i), key),
        forall|i: int| pos <= i < t.order@.len() ==> key_lt(key, #[trigger] t.sorted_key(i)),
        t2.entries@.len() == t.entries@.len() + 1,
        t.entries@.len() <= usize::MAX,
        t2.entries@.subrange(0, t.entries@.len() as int) == t.entries@,
        t2.entries@.last().key == key,
        t2.order@ == t.order@.insert(pos, t.entries@.len() as usize),
    ensures
        t2.index_ok(),
{
    let n = t.entries@.len() as int;
    t.order@.insert_ensures(pos, n as usize);
    assert forall|i: int| 0 <= i < t.entries@.len() implies #[trigger] t2.entries@[i] == t.entries@[i] by {
        assert(t2.entries@.subrange(0, n)[i] == t2.entries@[i]);
    }
    assert(t2.entries@[n] == t2.entries@.last());
    assert forall|i: int| 0 <= i < t2.order@.len() implies #[trigger] t2.sorted_key(i) == if i < pos {
        t.sorted_key(i)
    } else if i == pos {
        key
    } else {
        t.sorted_key(i - 1)
    } by {
        if i < pos {
            assert(t2.order@[i] == t.order@[i]);
        } else if i == pos {
            assert(t2.order@[i] == n);
        } else {
            assert(t2.order@[(i - 1) + 1] == t.order@[i - 1]);
        }
    }
    assert forall|i: int| 0 <= i < t2.order@.len() implies (#[trigger] t2.order@[i]) < t2.entries@.len() by {
        if i < pos {
            assert(t2.order@[i] == t.order@[i]);
        } else if i > pos {
            assert(t2.order@[(i - 1) + 1] == t.order@[i - 1]);
        }
    }
    assert forall|i: int, j: int| 0 <= i < j < t2.order@.len() implies key_lt(t2.sorted_key(i), t2.sorted_key(j)) by {
        if j < pos {
        } else if j == pos {
        } else if i < pos {
            lemma_key_lt_trans(t.sorted_key(i), key, t.sorted_key(j - 1));
        } else if i == pos {
        } else {
        }
    }
    assert forall|e: int| 0 <= e < t2.entries@.len() implies #[trigger] t2.indexed(e) by {
        if e == n {
            assert(t2.order@[pos] == e);
            assert(t2.indexed(e));
        } else {
            assert(t.indexed(e));
            let i = choose|i: int| 0 <= i < t.order@.len() && t.order@[i] == e;
            if i < pos {
                assert(t2.order@[i] == e);
            } else {
                assert(t2.order@[i + 1] == e);
            }
            assert(t2.indexed(e));
        }
    }
}

/// The complete five-tuple of a context, if every part of it was found.
pub open spec fn five_tuple(c: ContextView) -> Option<(IPAddress, IPAddress, u16, u16, Protocol)> {
    match (c.src_ip, c.dst_ip, c.src_port, c.dst_port, c.protocol) {
        (Some(a), Some(b), Some(p), Some(q), Some(r)) => Some((a, b, p, q, r)),
        _ => None,
    }
}

/// The five-tuple of a decoded packet, when the decoders found all of it.
pub fn unpack_context(context: &PacketContext) -> (r: Option<(IPAddress, IPAddress, u16, u16, Protocol)>)
    ensures
        r == five_tuple(context@),
{
    match (context.src_ip, context.dst_ip, context.src_port, context.dst_port, context.protocol) {
        (Some(src_ip), Some(dst_ip), Some(src_port), Some(dst_port), Some(protocol)) => {
            Some((src_ip, dst_ip, src_port, dst_port, protocol))
        },
        _ => None,
    }
}

/// The recorded length of a frame: its byte count, capped at `u32::MAX`.
pub open spec fn frame_length(len: nat) -> u32 {
    if len <= u32::MAX {
        len as u32
    } else {
        u32::MAX
    }
}

/// Whether `p` is the packet made of frame bytes `data` decoded into `c` at time `ts`.
pub open spec fn is_packet_of(p: Packet, data: Seq<u8>, c: ContextView, ts: Timestamp) -> bool {
    match five_tuple(c) {
        Some((src_ip, dst_ip, src_port, dst_port, _)) => {
            &&& p.timestamp == ts
            &&& p.src_ip == src_ip
            &&& p.dst_ip == dst_ip
            &&& p.src_port == Some(src_port)
            &&& p.dst_port == Some(dst_port)
            &&& p.length == frame_length(data.len())
            &&& p.data@ == data
            &&& tag_texts(p.tags@) == c.tags
        },
        None => false,
    }
}

/// Whether a packet opens a TCP connection: SYN without ACK.
pub open spec fn opens_connection(c: ContextView) -> bool {
    c.protocol == Some(Protocol::TCP) && c.is_syn && !c.is_ack
}

/// Whether `f2` is flow `f` after packet `p` with context `c` is added: the packet goes at the
/// end, and a packet that opens a TCP connection makes its sender the source.
pub open spec fn flow_after(f: Flow, f2: Flow, p: Packet, c: ContextView, src: Endpoint, dst: Endpoint) -> bool {
    &&& f2.timestamp == f.timestamp
    &&& f2.protocol == f.protocol
    &&& f2.packets@ == f.packets@.push(p)
    &&& if opens_connection(c) {
        f2.source == src && f2.destination == dst
    } else {
        f2.source == f.source && f2.destination == f.destination
    }
}

/// Whether table `t2` is `t` after the packet of frame `data`, decoded into `c`, is added at
/// time `ts`: packets without a complete five-tuple are dropped; others go to the flow of
/// their canonical key, which is created on first sight.
pub open spec fn table_after(t: Seq<FlowEntry>, t2: Seq<FlowEntry>, data: Seq<u8>, c: ContextView, ts: Timestamp) -> bool {
    match five_tuple(c) {
        None => t2 == t,
        Some((src_ip, dst_ip, src_port, dst_port, protocol)) => {
            let src = Endpoint { ip: src_ip, port: src_port };
            let dst = Endpoint { ip: dst_ip, port: dst_port };
            let key = flow_key_of(src, dst, protocol);
            if has_key(t, key) {
                let j = key_index(t, key);
                &&& t2.len() == t.len()
                &&& forall|i: int| 0 <= i < t.len() && i != j ==> t2[i] == t[i]
                &&& t2[j].key == key
                &&& is_packet_of(t2[j].flow.packets@.last(), data, c, ts)
                &&& flow_after(t[j].flow, t2[j].flow, t2[j].flow.packets@.last(), c, src, dst)
            } else {
                &&& t2.len() == t.len() + 1
                &&& t2.subrange(0, t.len() as int) == t
                &&& t2.last().key == key
                &&& t2.last().flow.timestamp == ts
                &&& t2.last().flow.protocol == protocol
                &&& t2.last().flow.source == src
                &&& t2.last().flow.destination == dst
                &&& t2.last().flow.packets@.len() == 1
                &&& is_packet_of(t2.last().flow.packets@[0], data, c, ts)
            }
        },
    }
}

/// Adds a decoded packet to its flow, creating the flow on first sight, and counts it; a
/// packet without a complete five-tuple is dropped and not counted.
pub fn add_packet(
    epb_packet_data: &[u8],
    context: PacketContext,
    timestamp: Timestamp,
    flows: &mut FlowTable,
    packet_count: &mut usize,
)
    requires
        old(flows).wf(),
        *old(packet_count) < usize::MAX,
    ensures
        final(flows).wf(),
        packets_in(final(flows)@) == packets_in(old(flows)@) + if five_tuple(context@) is Some {
            1int
        } else {
            0int
        },
        table_after(old(flows)@, final(flows)@, epb_packet_data@, context@, timestamp),
        *final(packet_count) == if five_tuple(context@) is Some {
            *old(packet_count) + 1
        } else {
            *old(packet_count) as int
        },
{
    let ghost c = context@;
    match unpack_context(&context) {
        None => {},
        Some((src_ip, dst_ip, src_port, dst_port, protocol)) => {
            let src_ep = Endpoint::new(src_ip, src_port);
            let dst_ep = Endpoint::new(dst_ip, dst_port);
            let key = FlowKey::from_endpoints(src_ep, dst_ep, protocol);
            let len = epb_packet_data.len();
            let packet_length: u32 = if len <= u32::MAX as usize {
                len as u32
            } else {
                u32::MAX
            };
            let opens = matches!(protocol, Protocol::TCP) && context.is_syn && !context.is_ack;
            let packet = Packet {
                timestamp,
                src_ip,
                dst_ip,
                src_port: Some(src_port),
                dst_port: Some(dst_port),
                length: packet_length,
                data: vstd::slice::slice_to_vec(epb_packet_data),
                tags: context.tags,
            };
            assert(is_packet_of(packet, epb_packet_data@, c, timestamp));
            match flows.locate(&key) {
                Ok(j) => {
                    let ghost before = flows.entries@;
                    let mut entry = flows.entries.remove(j);
                    let ghost old_flow = entry.flow;
                    if opens {
                        entry.flow.source = src_ep;
                        entry.flow.destination = dst_ep;
                    }
                    entry.flow.packets.push(packet);
                    flows.entries.insert(j, entry);
                    proof {
                        assert(flows.entries@ =~= before.update(j as int, entry));
                        assert(entry.flow.packets@.last() == packet);
                        assert forall|i: int, k: int| 0 <= i < k < flows@.len() implies flows@[i].key != flows@[k].key by {
                            assert(before[i].key != before[k].key);
                        }
                        assert forall|i: int| 0 <= i < flows@.len() implies (#[trigger] flows@[i]).flow.packets@.len() >= 1 by {
                            if i != j {
                                assert(flows@[i] == before[i]);
                            }
                        }
                        lemma_packets_in_update(before, j as int, entry);
                        assert(before[j as int].flow == old_flow);
                        assert forall|k: int| 0 <= k < flows.entries@.len() implies #[trigger] flows.entries@[k].key == before[k].key by {}
                        assert(flows.index_ok()) by {
                            assert(flows.order@ == old(flows).order@);
                            assert forall|i: int| 0 <= i < flows.order@.len() implies #[trigger] flows.sorted_key(i) == old(flows).sorted_key(i) by {
                                assert(old(flows).order@[i] < old(flows).entries@.len());
                            }
                            assert forall|e: int| 0 <= e < flows.entries@.len() implies #[trigger] flows.indexed(e) by {
                                assert(old(flows).indexed(e));
                            }
                        }
                    }
                },
                Err(pos) => {
                    let mut packets = Vec::new();
                    packets.push(packet);
                    let flow = Flow {
                        timestamp,
                        protocol,
                        source: src_ep,
                        destination: dst_ep,
                        packets,
                    };
                    let ghost before = flows.entries@;
                    let ghost old_table = *flows;
                    let n = flows.entries.len();
                    flows.entries.push(FlowEntry { key, flow });
                    flows.order.insert(pos, n);
                    proof {
                        assert(flows.entries@.subrange(0, before.len() as int) =~= before);
                        assert forall|i: int, k: int| 0 <= i < k < flows@.len() implies flows@[i].key != flows@[k].key by {
                            if k == before.len() {
                                assert(before[i].key != key);
                            } else {
                                assert(before[i].key != before[k].key);
                            }
                        }
                        assert forall|i: int| 0 <= i < flows@.len() implies (#[trigger] flows@[i]).flow.packets@.len() >= 1 by {
                            if i < before.len() {
                                assert(flows@[i] == before[i]);
                            }
                        }
                        assert(flows@.drop_last() =~= before);
                        lemma_index_after_insert(old_table, *flows, pos as int, key);
                    }
                },
            }
            *packet_count = *packet_count + 1;
        },
    }
}

/// Keeps the earliest timestamp seen.
pub fn update_first_timestamp(first_packet_ts: &mut Option<Timestamp>, timestamp: Timestamp)
    ensures
        *final(first_packet_ts) == match *old(first_packet_ts) {
            None => Some(timestamp),
            Some(current) => if timestamp.spec_before(current) {
                Some(timestamp)
            } else {
                Some(current)
            },
        },
{
    match first_packet_ts {
        None => {
            *first_packet_ts = Some(timestamp);
        },
        Some(current) => {
            if timestamp.before(current) {
                *first_packet_ts = Some(timestamp);
            }
        },
    }
}

} // verus!
