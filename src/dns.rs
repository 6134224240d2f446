//! Names from DNS answers and from capture-embedded name records.

use crate::context::PacketContext;
use crate::flow::{IPAddress, Protocol};
use crate::layers::{ipv4_of, ipv6_of};
use crate::names::{NameTable, NameTableView, add_name_resolution, table_wf, with_names};
use crate::text::{joined, join_labels, text_from_bytes, trim_text, trimmed, utf8_lossy};
use crate::wire::be16;
use vstd::prelude::*;
use vstd::string::*;

verus! {

/// The most compression pointers followed before a name is given up.
pub const MAX_POINTER_JUMPS: u32 = 20;

/// The labels of the domain name at `off`, following compression pointers; `depth` counts
/// the pointers followed so far. None when the name runs past the message or the pointers
/// go too deep.
pub open spec fn label_walk(p: Seq<u8>, off: int, depth: int) -> Option<Seq<Seq<u8>>>
    decreases 21 - depth, p.len() - off,
{
    if off < 0 || off >= p.len() || depth < 0 {
        None
    } else if p[off] >= 0xC0 {
        if off + 1 >= p.len() || depth > MAX_POINTER_JUMPS {
            None
        } else {
            label_walk(p, (p[off] - 0xC0) * 256 + p[off + 1], depth + 1)
        }
    } else if p[off] == 0 {
        Some(seq![])
    } else if off + 1 + p[off] > p.len() {
        None
    } else {
        match label_walk(p, off + 1 + p[off], depth) {
            Some(rest) => Some(seq![p.subrange(off + 1, off + 1 + p[off])] + rest),
            None => None,
        }
    }
}

/// Where the name at `off` ends in the message: after its first pointer, or after its
/// terminating zero if it has no pointer.
pub open spec fn name_end(p: Seq<u8>, off: int) -> int
    decreases p.len() - off,
{
    if off < 0 || off >= p.len() {
        off
    } else if p[off] >= 0xC0 {
        off + 2
    } else if p[off] == 0 {
        off + 1
    } else if off + 1 + p[off] > p.len() {
        off
    } else {
        name_end(p, off + 1 + p[off])
    }
}

/// A domain name as text: its labels, each read as UTF-8, joined with dots.
pub open spec fn dotted(labels: Seq<Seq<u8>>) -> Seq<char> {
    joined(labels.map_values(|l: Seq<u8>| utf8_lossy(l)), "."@)
}

pub open spec fn prepend(acc: Seq<Seq<u8>>, rest: Option<Seq<Seq<u8>>>) -> Option<Seq<Seq<u8>>> {
    match rest {
        Some(r) => Some(acc + r),
        None => None,
    }
}

/// Reads the labels of the domain name at `start`, and where the name ends.
pub fn read_dns_labels(p: &[u8], start: usize) -> (r: Option<(Vec<Vec<u8>>, usize)>)
    ensures
        (r is Some) == (label_walk(p@, start as int, 0) is Some),
        r matches Some((labels, end)) ==> {
            &&& label_walk(p@, start as int, 0) == Some(labels@.map_values(|l: Vec<u8>| l@))
            &&& end == name_end(p@, start as int)
        },
{
    let mut labels: Vec<Vec<u8>> = Vec::new();
    let mut offset: usize = start;
    let mut jumped = false;
    let mut next_offset: usize = start;
    let mut depth: u32 = 0;
    proof {
        assert(labels@.map_values(|l: Vec<u8>| l@) =~= seq![]);
        assert(prepend(seq![], label_walk(p@, start as int, 0)) =~= label_walk(p@, start as int, 0));
    }
    loop
        invariant
            depth <= 21,
            label_walk(p@, start as int, 0) == prepend(
                labels@.map_values(|l: Vec<u8>| l@),
                label_walk(p@, offset as int, depth as int),
            ),
            jumped ==> next_offset == name_end(p@, start as int),
            !jumped ==> name_end(p@, start as int) == name_end(p@, offset as int),
            !jumped ==> depth == 0,
        decreases 21 - depth, p@.len() - offset,
    {
        let ghost acc = labels@.map_values(|l: Vec<u8>| l@);
        if offset >= p.len() {
            assert(label_walk(p@, offset as int, depth as int) is None);
            return None;
        }
        let len = p[offset];
        if len >= 0xC0 {
            if offset + 1 >= p.len() {
                assert(label_walk(p@, offset as int, depth as int) is None);
                return None;
            }
            if depth > MAX_POINTER_JUMPS {
                assert(label_walk(p@, offset as int, depth as int) is None);
                return None;
            }
            let pointer = ((len - 0xC0) as usize) * 256 + p[offset + 1] as usize;
            depth = depth + 1;
            if !jumped {
                next_offset = offset + 2;
                jumped = true;
            }
            offset = pointer;
            continue;
        }
        if len == 0 {
            if !jumped {
                next_offset = offset + 1;
            }
            proof {
                assert(acc + seq![] =~= acc);
            }
            return Some((labels, next_offset));
        }
        let label_start = offset + 1;
        if len as usize > p.len() - label_start {
            assert(label_walk(p@, offset as int, depth as int) is None);
            return None;
        }
        let label_end = label_start + len as usize;
        let label = vstd::slice::slice_to_vec(vstd::slice::slice_subrange(p, label_start, label_end));
        labels.push(label);
        proof {
            let rest = label_walk(p@, label_end as int, depth as int);
            assert(labels@.map_values(|l: Vec<u8>| l@) =~= acc.push(label@));
            assert(label@ == p@.subrange(label_start as int, label_end as int));
            if let Some(r) = rest {
                assert(acc + (seq![label@] + r) =~= acc.push(label@) + r);
            }
        }
        offset = label_end;
    }
}

/// Reads the domain name at `start` as text, and where the name ends.
pub fn read_dns_name(packet: &[u8], start: usize) -> (r: Option<(String, usize)>)
    ensures
        (r is Some) == (label_walk(packet@, start as int, 0) is Some),
        r matches Some((name, end)) ==> {
            &&& name@ == dotted(label_walk(packet@, start as int, 0).unwrap())
            &&& end == name_end(packet@, start as int)
        },
{
    match read_dns_labels(packet, start) {
        None => None,
        Some((labels, end)) => {
            let ghost raw = labels@.map_values(|l: Vec<u8>| l@);
            let mut texts: Vec<String> = Vec::new();
            let mut i: usize = 0;
            while i < labels.len()
                invariant
                    i <= labels@.len(),
                    raw == labels@.map_values(|l: Vec<u8>| l@),
                    texts@.map_values(|t: String| t@) =~= raw.subrange(0, i as int).map_values(
                        |l: Seq<u8>| utf8_lossy(l),
                    ),
                decreases labels@.len() - i,
            {
                let t = text_from_bytes(labels[i].as_slice());
                let ghost before = texts@.map_values(|t: String| t@);
                texts.push(t);
                proof {
                    assert(raw.subrange(0, i + 1).map_values(|l: Seq<u8>| utf8_lossy(l)) =~= raw.subrange(
                        0,
                        i as int,
                    ).map_values(|l: Seq<u8>| utf8_lossy(l)).push(utf8_lossy(raw[i as int])));
                    assert(texts@.map_values(|t: String| t@) =~= before.push(t@));
                }
                i = i + 1;
            }
            assert(raw.subrange(0, i as int) =~= raw);
            Some((join_labels(&texts), end))
        },
    }
}

/// Where the question section that starts at `off` with `count` questions ends; None when a
/// question runs past the message.
pub open spec fn skip_questions(p: Seq<u8>, off: int, count: nat) -> Option<int>
    decreases count,
{
    if count == 0 {
        Some(off)
    } else {
        match skip_questions(p, off, (count - 1) as nat) {
            None => None,
            Some(o) => if label_walk(p, o, 0) is None || name_end(p, o) + 4 > p.len() {
                None
            } else {
                Some(name_end(p, o) + 4)
            },
        }
    }
}

/// The address that an answer's record data gives, for an A or AAAA record of class IN.
pub open spec fn answer_address(rtype: int, class: int, rdata: Seq<u8>) -> Option<IPAddress> {
    if class == 1 && rtype == 1 && rdata.len() == 4 {
        Some(ipv4_of(rdata))
    } else if class == 1 && rtype == 28 && rdata.len() == 16 {
        Some(ipv6_of(rdata))
    } else {
        None
    }
}

/// The (address, name) pairs of up to `count` answer records from `off` on, up to the first
/// record that runs past the message.
pub open spec fn answers_from(p: Seq<u8>, off: int, count: nat) -> Seq<(IPAddress, Seq<char>)>
    decreases count,
{
    if count == 0 {
        seq![]
    } else {
        match label_walk(p, off, 0) {
            None => seq![],
            Some(labels) => {
                let o = name_end(p, off);
                if o + 10 > p.len() {
                    seq![]
                } else {
                    let rdlen = be16(p[o + 8], p[o + 9]);
                    let d = o + 10;
                    if d + rdlen > p.len() {
                        seq![]
                    } else {
                        let here = match answer_address(
                            be16(p[o], p[o + 1]),
                            be16(p[o + 2], p[o + 3]),
                            p.subrange(d, d + rdlen),
                        ) {
                            Some(ip) => seq![(ip, dotted(labels))],
                            None => seq![],
                        };
                        here + answers_from(p, d + rdlen, (count - 1) as nat)
                    }
                }
            },
        }
    }
}

/// The A and AAAA answers of a DNS response; none for a query or a message that is too short
/// or whose questions run past its end.
pub open spec fn dns_answers(p: Seq<u8>) -> Seq<(IPAddress, Seq<char>)> {
    if p.len() < 12 || p[2] < 0x80 {
        seq![]
    } else {
        match skip_questions(p, 12, be16(p[4], p[5]) as nat) {
            None => seq![],
            Some(o) => answers_from(p, o, be16(p[6], p[7]) as nat),
        }
    }
}

fn read_be16(p: &[u8], i: usize) -> (r: usize)
    requires
        i + 1 < p@.len(),
    ensures
        r == be16(p@[i as int], p@[i + 1]),
{
    (p[i] as usize) * 256 + p[i + 1] as usize
}

/// Extracts the (address, name) pairs of the A and AAAA answers of a DNS response.
pub fn parse_dns_answers(p: &[u8]) -> (r: Vec<(IPAddress, String)>)
    ensures
        r@.map_values(|a: (IPAddress, String)| (a.0, a.1@)) == dns_answers(p@),
{
    if p.len() < 12 {
        return Vec::new();
    }
    if p[2] < 0x80 {
        return Vec::new();
    }
    let qdcount = read_be16(p, 4);
    let ancount = read_be16(p, 6);
    let mut offset: usize = 12;
    let mut q: usize = 0;
    while q < qdcount
        invariant
            p@.len() >= 12,
            p@[2] >= 0x80,
            qdcount == be16(p@[4], p@[5]),
            q <= qdcount,
            skip_questions(p@, 12, q as nat) == Some(offset as int),
            offset <= p@.len(),
        decreases qdcount - q,
    {
        match read_dns_name(p, offset) {
            None => {
                proof { lemma_skip_questions_none(p@, qdcount as nat, (q + 1) as nat); }
                let none: Vec<(IPAddress, String)> = Vec::new();
                assert(none@.map_values(|x: (IPAddress, String)| (x.0, x.1@)) =~= seq![]);
                return none;
            },
            Some((_, next)) => {
                if next > p.len() || p.len() - next < 4 {
                    proof { lemma_skip_questions_none(p@, qdcount as nat, (q + 1) as nat); }
                    let none: Vec<(IPAddress, String)> = Vec::new();
                    assert(none@.map_values(|x: (IPAddress, String)| (x.0, x.1@)) =~= seq![]);
                    return none;
                }
                offset = next + 4;
            },
        }
        q = q + 1;
    }
    let mut results: Vec<(IPAddress, String)> = Vec::new();
    let ghost all = answers_from(p@, offset as int, ancount as nat);
    let mut a: usize = 0;
    while a < ancount
        invariant
            a <= ancount,
            all == results@.map_values(|x: (IPAddress, String)| (x.0, x.1@)) + answers_from(
                p@,
                offset as int,
                (ancount - a) as nat,
            ),
        decreases ancount - a,
    {
        let ghost before = results@.map_values(|x: (IPAddress, String)| (x.0, x.1@));
        let (name, next) = match read_dns_name(p, offset) {
            Some(n) => n,
            None => {
                assert(answers_from(p@, offset as int, (ancount - a) as nat) =~= seq![]);
                a = ancount;
                continue;
            },
        };
        if next > p.len() || p.len() - next < 10 {
            assert(answers_from(p@, offset as int, (ancount - a) as nat) =~= seq![]);
            a = ancount;
            continue;
        }
        let rtype = read_be16(p, next);
        let class = read_be16(p, next + 2);
        let rdlength = read_be16(p, next + 8);
        let data_start = next + 10;
        if rdlength > p.len() - data_start {
            assert(answers_from(p@, offset as int, (ancount - a) as nat) =~= seq![]);
            a = ancount;
            continue;
        }
        let data_end = data_start + rdlength;
        let rdata = vstd::slice::slice_subrange(p, data_start, data_end);
        let ghost here_ip = answer_address(rtype as int, class as int, rdata@);
        if class == 1 && rtype == 1 && rdlength == 4 {
            let bytes: [u8; 4] = [rdata[0], rdata[1], rdata[2], rdata[3]];
            proof {
                assert(bytes@ =~= rdata@);
                crate::layers::lemma_ipv4_of(bytes);
            }
            results.push((IPAddress::V4(bytes), name));
        } else if class == 1 && rtype == 28 && rdlength == 16 {
            let bytes: [u8; 16] = [
                rdata[0], rdata[1], rdata[2], rdata[3], rdata[4], rdata[5], rdata[6], rdata[7],
                rdata[8], rdata[9], rdata[10], rdata[11], rdata[12], rdata[13], rdata[14], rdata[15],
            ];
            proof {
                assert(bytes@ =~= rdata@);
                crate::layers::lemma_ipv6_of(bytes);
            }
            results.push((IPAddress::V6(bytes), name));
        }
        proof {
            let now = results@.map_values(|x: (IPAddress, String)| (x.0, x.1@));
            let here = match here_ip {
                Some(ip) => seq![(ip, name@)],
                None => seq![],
            };
            assert(now =~= before + here);
            assert(answers_from(p@, offset as int, (ancount - a) as nat) == here + answers_from(
                p@,
                data_end as int,
                (ancount - a - 1) as nat,
            ));
            assert(before + (here + answers_from(p@, data_end as int, (ancount - a - 1) as nat))
                =~= now + answers_from(p@, data_end as int, (ancount - a - 1) as nat));
        }
        offset = data_end;
        a = a + 1;
    }
    proof {
        assert(answers_from(p@, offset as int, 0) =~= seq![]);
        assert(results@.map_values(|x: (IPAddress, String)| (x.0, x.1@)) =~= all);
    }
    results
}

/// Whether a decoded packet is a UDP datagram to or from port 53 with its payload kept.
pub open spec fn is_dns_datagram(c: crate::context::ContextView) -> bool {
    &&& c.protocol == Some(Protocol::UDP)
    &&& c.udp_payload is Some
    &&& (c.src_port == Some(53u16) || c.dst_port == Some(53u16))
}

/// Adds each (address, name) pair in turn to the table.
pub fn add_name_resolutions(pairs: &[(IPAddress, String)], name_resolutions: &mut NameTable)
    requires
        old(name_resolutions).wf(),
    ensures
        final(name_resolutions).wf(),
        final(name_resolutions)@ == with_names(
            old(name_resolutions)@,
            pairs@.map_values(|x: (IPAddress, String)| (x.0, x.1@)),
        ),
{
    let ghost all = pairs@.map_values(|x: (IPAddress, String)| (x.0, x.1@));
    let mut i: usize = 0;
    proof {
        assert(all.subrange(0, 0) =~= seq![]);
    }
    while i < pairs.len()
        invariant
            name_resolutions.wf(),
            i <= pairs@.len(),
            all == pairs@.map_values(|x: (IPAddress, String)| (x.0, x.1@)),
            name_resolutions@ == with_names(old(name_resolutions)@, all.subrange(0, i as int)),
        decreases pairs@.len() - i,
    {
        let ip = pairs[i].0;
        let name = pairs[i].1.clone();
        proof {
            assert((ip, name@) == all[i as int]);
            assert(all.subrange(0, i + 1).drop_last() =~= all.subrange(0, i as int));
        }
        add_name_resolution(ip, name, name_resolutions);
        i = i + 1;
    }
    assert(all.subrange(0, i as int) =~= all);
}

/// Adds the A and AAAA answers of a DNS response to the table, when the packet is a UDP
/// datagram to or from port 53; other packets leave the table as it is.
pub fn handle_dns_response(context: &PacketContext, name_resolutions: &mut NameTable)
    requires
        old(name_resolutions).wf(),
    ensures
        final(name_resolutions).wf(),
        final(name_resolutions)@ == if is_dns_datagram(context@) {
            with_names(old(name_resolutions)@, dns_answers(context@.udp_payload.unwrap()))
        } else {
            old(name_resolutions)@
        },
{
    let payload = match (&context.protocol, &context.udp_payload) {
        (Some(Protocol::UDP), Some(data)) => data.as_slice(),
        _ => return,
    };
    let from_dns_port = matches!(context.src_port, Some(53)) || matches!(context.dst_port, Some(53));
    if !from_dns_port {
        return;
    }
    let answers = parse_dns_answers(payload);
    add_name_resolutions(answers.as_slice(), name_resolutions);
}

/// A capture-embedded name record: its type (1 for IPv4, 2 for IPv6) and its value.
#[derive(Debug, Clone)]
pub struct NameRecord {
    pub record_type: u16,
    pub value: Vec<u8>,
}

/// The bytes before the first zero byte (all of them if there is none).
pub open spec fn before_zero(s: Seq<u8>) -> Seq<u8> {
    if exists|i: int| 0 <= i < s.len() && s[i] == 0 {
        s.subrange(
            0,
            choose|i: int| 0 <= i < s.len() && s[i] == 0 && forall|j: int| 0 <= j < i ==> s[j] != 0,
        )
    } else {
        s
    }
}

/// The name of a name record's value after its `ip_len` address bytes: the text up to the
/// first zero byte, trimmed.
pub open spec fn record_name(value: Seq<u8>, ip_len: int) -> Seq<char> {
    trimmed(utf8_lossy(before_zero(value.skip(ip_len))))
}

/// The (address, name) pair that a name record's value gives: None when the value is too
/// short, the address length is not 4 or 16, or the name is empty.
pub open spec fn record_pair(value: Seq<u8>, ip_len: int) -> Option<(IPAddress, Seq<char>)> {
    if value.len() < ip_len + 1 || before_zero(value.skip(ip_len)).len() == 0 || record_name(
        value,
        ip_len,
    ).len() == 0 {
        None
    } else if ip_len == 4 {
        Some((ipv4_of(value.subrange(0, 4)), record_name(value, ip_len)))
    } else if ip_len == 16 {
        Some((ipv6_of(value.subrange(0, 16)), record_name(value, ip_len)))
    } else {
        None
    }
}

fn split_at_zero(s: &[u8]) -> (r: &[u8])
    ensures
        r@ == before_zero(s@),
{
    let mut i: usize = 0;
    while i < s.len()
        invariant
            i <= s@.len(),
            forall|j: int| 0 <= j < i ==> s@[j] != 0,
        decreases s@.len() - i,
    {
        if s[i] == 0 {
            proof {
                let k = choose|k: int| 0 <= k < s@.len() && s@[k] == 0 && forall|j: int| 0 <= j < k ==> s@[j] != 0;
                assert(0 <= i < s@.len() && s@[i as int] == 0 && forall|j: int| 0 <= j < i ==> s@[j] != 0);
                if k < i {
                    assert(s@[k] != 0);
                } else if k > i {
                    assert(s@[i as int] != 0);
                }
            }
            return vstd::slice::slice_subrange(s, 0, i);
        }
        i = i + 1;
    }
    assert(s@.subrange(0, i as int) =~= s@);
    s
}

/// Reads the address and the name held by the value of a name record.
pub fn parse_name_record_value(record_value: &[u8], ip_len: usize) -> (r: Option<(IPAddress, String)>)
    ensures
        r matches Some((ip, name)) ==> record_pair(record_value@, ip_len as int) == Some((ip, name@)),
        r is None ==> record_pair(record_value@, ip_len as int) is None,
{
    if ip_len >= record_value.len() {
        return None;
    }
    let rest = vstd::slice::slice_subrange(record_value, ip_len, record_value.len());
    assert(rest@ =~= record_value@.skip(ip_len as int));
    let name_bytes = split_at_zero(rest);
    if name_bytes.len() == 0 {
        return None;
    }
    let text = text_from_bytes(name_bytes);
    let name = trim_text(text.as_str());
    if name.as_str().unicode_len() == 0 {
        return None;
    }
    if ip_len == 4 {
        let bytes: [u8; 4] = [record_value[0], record_value[1], record_value[2], record_value[3]];
        proof {
            assert(bytes@ =~= record_value@.subrange(0, 4));
            crate::layers::lemma_ipv4_of(bytes);
        }
        Some((IPAddress::V4(bytes), name))
    } else if ip_len == 16 {
        let bytes: [u8; 16] = [
            record_value[0], record_value[1], record_value[2], record_value[3], record_value[4],
            record_value[5], record_value[6], record_value[7], record_value[8], record_value[9],
            record_value[10], record_value[11], record_value[12], record_value[13],
            record_value[14], record_value[15],
        ];
        proof {
            assert(bytes@ =~= record_value@.subrange(0, 16));
            crate::layers::lemma_ipv6_of(bytes);
        }
        Some((IPAddress::V6(bytes), name))
    } else {
        None
    }
}

/// The address length that a name record type carries: 4 for IPv4, 16 for IPv6, else none.
pub open spec fn record_ip_len(record_type: u16) -> int {
    if record_type == 1 {
        4
    } else if record_type == 2 {
        16
    } else {
        0
    }
}

/// The (address, name) pairs that a block of name records gives, in order.
pub open spec fn record_pairs(records: Seq<NameRecord>) -> Seq<(IPAddress, Seq<char>)>
    decreases records.len(),
{
    if records.len() == 0 {
        seq![]
    } else {
        let last = records.last();
        let here = if record_ip_len(last.record_type) == 0 {
            seq![]
        } else {
            match record_pair(last.value@, record_ip_len(last.record_type)) {
                Some(pair) => seq![pair],
                None => seq![],
            }
        };
        record_pairs(records.drop_last()) + here
    }
}

/// Adds the names of a name resolution block's IPv4 and IPv6 records to the table.
pub fn handle_name_resolution(records: &[NameRecord], name_resolutions: &mut NameTable)
    requires
        old(name_resolutions).wf(),
    ensures
        final(name_resolutions).wf(),
        final(name_resolutions)@ == with_names(old(name_resolutions)@, record_pairs(records@)),
{
    let mut i: usize = 0;
    proof {
        assert(records@.subrange(0, 0) =~= seq![]);
    }
    while i < records.len()
        invariant
            i <= records@.len(),
            name_resolutions.wf(),
            name_resolutions@ == with_names(
                old(name_resolutions)@,
                record_pairs(records@.subrange(0, i as int)),
            ),
        decreases records@.len() - i,
    {
        let record = &records[i];
        let ip_len: usize = if record.record_type == 1 {
            4
        } else if record.record_type == 2 {
            16
        } else {
            0
        };
        let ghost prefix = records@.subrange(0, i as int);
        proof {
            assert(records@.subrange(0, i + 1).drop_last() =~= prefix);
        }
        if ip_len > 0 {
            match parse_name_record_value(record.value.as_slice(), ip_len) {
                Some((ip, name)) => {
                    let ghost text = name@;
                    add_name_resolution(ip, name, name_resolutions);
                    proof {
                        let pairs = record_pairs(prefix);
                        assert(record_pairs(records@.subrange(0, i + 1)) =~= pairs.push((ip, text)));
                        assert(pairs.push((ip, text)).drop_last() =~= pairs);
                    }
                },
                None => {
                    assert(record_pairs(records@.subrange(0, i + 1)) =~= record_pairs(prefix));
                },
            }
        } else {
            assert(record_pairs(records@.subrange(0, i + 1)) =~= record_pairs(prefix));
        }
        i = i + 1;
    }
    assert(records@.subrange(0, i as int) =~= records@);
}

proof fn lemma_skip_questions_none(p: Seq<u8>, total: nat, k: nat)
    requires
        k <= total,
        skip_questions(p, 12, k) is None,
    ensures
        skip_questions(p, 12, total) is None,
    decreases total - k,
{
    if k < total {
        lemma_skip_questions_none(p, total, k + 1);
    }
}

/// Whether the name at `off` is spelled out in full: labels up to a zero byte, no pointer.
pub open spec fn spelled_out(p: Seq<u8>, off: int) -> bool
    decreases p.len() - off,
{
    0 <= off < p.len() && (p[off] == 0 || (p[off] < 0xC0 && off + 1 + p[off] <= p.len()
        && spelled_out(p, off + 1 + p[off])))
}

proof fn lemma_spelled_out_depth(p: Seq<u8>, off: int, depth: int)
    requires
        spelled_out(p, off),
        0 <= depth <= 21,
    ensures
        label_walk(p, off, depth) == label_walk(p, off, 0),
        label_walk(p, off, 0) is Some,
    decreases p.len() - off,
{
    if p[off] != 0 {
        lemma_spelled_out_depth(p, off + 1 + p[off], depth);
    }
}

/// A compression pointer to a spelled-out name reads as that same name.
pub proof fn lemma_pointer_reads_as_target(p: Seq<u8>, at: int, target: int)
    requires
        0 <= at,
        at + 1 < p.len(),
        p[at] >= 0xC0,
        (p[at] - 0xC0) * 256 + p[at + 1] == target,
        spelled_out(p, target),
    ensures
        label_walk(p, at, 0) == label_walk(p, target, 0),
        label_walk(p, at, 0) is Some,
        dotted(label_walk(p, at, 0).unwrap()) == dotted(label_walk(p, target, 0).unwrap()),
{
    lemma_spelled_out_depth(p, target, 1);
}

/// Handling the same DNS response twice leaves the table as handling it once did, and no
/// address lists a name twice.
pub proof fn lemma_dns_response_idempotent(t: NameTableView, payload: Seq<u8>)
    requires
        table_wf(t),
    ensures
        with_names(with_names(t, dns_answers(payload)), dns_answers(payload)) == with_names(
            t,
            dns_answers(payload),
        ),
        table_wf(with_names(t, dns_answers(payload))),
{
    crate::names::lemma_with_names_idempotent(t, dns_answers(payload));
}

} // verus!
