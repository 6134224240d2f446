//! Addresses, endpoints, canonical flow keys, packets and flows.

use vstd::prelude::*;

verus! {

/// An IP address; all IPv4 values order before all IPv6 values.
#[derive(Debug, Clone, Copy, Eq, Hash, PartialOrd, Ord)]
pub enum IPAddress {
    V4([u8; 4]),
    V6([u8; 16]),
}

/// Transport protocol of a flow.
#[derive(Debug, Clone, Copy, PartialEq, Eq, Hash, Structural)]
pub enum Protocol {
    TCP,
    UDP,
    Other(u8),
}

/// An (address, port) pair, ordered by address, then port.
#[derive(Debug, Clone, Copy, Eq, Hash, PartialOrd, Ord)]
pub struct Endpoint {
    pub ip: IPAddress,
    pub port: u16,
}

/// The two endpoints of a flow, sorted so that `first` never orders after `second`.
#[derive(Debug, Clone, Copy, Eq, Hash)]
pub struct FlowEndpoints {
    pub first: Endpoint,
    pub second: Endpoint,
}

/// The identity of a flow: an unordered endpoint pair and a protocol.
#[derive(Debug, Clone, Copy, Eq, Hash)]
pub struct FlowKey {
    pub endpoints: FlowEndpoints,
    pub protocol: Protocol,
}

/// Lexicographic order on byte strings.
pub open spec fn bytes_lt(a: Seq<u8>, b: Seq<u8>) -> bool
    decreases a.len(),
{
    if a.len() == 0 || b.len() == 0 {
        a.len() < b.len()
    } else if a[0] != b[0] {
        a[0] < b[0]
    } else {
        bytes_lt(a.drop_first(), b.drop_first())
    }
}

/// The canonical order on addresses.
pub open spec fn ip_lt(a: IPAddress, b: IPAddress) -> bool {
    match (a, b) {
        (IPAddress::V4(x), IPAddress::V4(y)) => bytes_lt(x@, y@),
        (IPAddress::V4(_), IPAddress::V6(_)) => true,
        (IPAddress::V6(_), IPAddress::V4(_)) => false,
        (IPAddress::V6(x), IPAddress::V6(y)) => bytes_lt(x@, y@),
    }
}

/// The canonical order on endpoints: by address, then by port.
pub open spec fn endpoint_lt(a: Endpoint, b: Endpoint) -> bool {
    ip_lt(a.ip, b.ip) || (a.ip == b.ip && a.port < b.port)
}

proof fn lemma_bytes_lt_total(a: Seq<u8>, b: Seq<u8>)
    requires
        a.len() == b.len(),
    ensures
        a =~= b || bytes_lt(a, b) || bytes_lt(b, a),
        !(bytes_lt(a, b) && bytes_lt(b, a)),
        bytes_lt(a, b) ==> a != b,
    decreases a.len(),
{
    if a.len() > 0 && a[0] == b[0] {
        lemma_bytes_lt_total(a.drop_first(), b.drop_first());
        if a.drop_first() =~= b.drop_first() {
            assert(a =~= b) by {
                assert forall|i: int| 0 <= i < a.len() implies a[i] == b[i] by {
                    if i > 0 {
                        assert(a[i] == a.drop_first()[i - 1]);
                        assert(b[i] == b.drop_first()[i - 1]);
                    }
                }
            }
        }
        if bytes_lt(a, b) {
            assert(a.drop_first() != b.drop_first());
        }
    }
}

/// Compares two byte arrays of equal length lexicographically.
fn cmp_byte_seq(a: &[u8], b: &[u8]) -> (r: core::cmp::Ordering)
    requires
        a@.len() == b@.len(),
    ensures
        (r == core::cmp::Ordering::Less) == bytes_lt(a@, b@),
        (r == core::cmp::Ordering::Greater) == bytes_lt(b@, a@),
        (r == core::cmp::Ordering::Equal) == (a@ == b@),
{
    let n = a.len();
    let mut i: usize = 0;
    proof {
        assert(a@.skip(0) =~= a@);
        assert(b@.skip(0) =~= b@);
    }
    while i < n
        invariant
            n == a@.len(),
            n == b@.len(),
            i <= n,
            forall|j: int| 0 <= j < i ==> a@[j] == b@[j],
            bytes_lt(a@, b@) == bytes_lt(a@.skip(i as int), b@.skip(i as int)),
            bytes_lt(b@, a@) == bytes_lt(b@.skip(i as int), a@.skip(i as int)),
        decreases n - i,
    {
        let x = a[i];
        let y = b[i];
        if x != y {
            proof {
                lemma_bytes_lt_total(a@, b@);
                assert(a@[i as int] != b@[i as int]);
            }
            if x < y {
                return core::cmp::Ordering::Less;
            } else {
                return core::cmp::Ordering::Greater;
            }
        }
        proof {
            assert(a@.skip(i as int).drop_first() =~= a@.skip(i + 1));
            assert(b@.skip(i as int).drop_first() =~= b@.skip(i + 1));
        }
        i = i + 1;
    }
    proof {
        assert(a@ =~= b@);
        lemma_bytes_lt_total(a@, b@);
    }
    core::cmp::Ordering::Equal
}

impl IPAddress {
    /// Compares two addresses in the canonical order.
    pub fn cmp_bytes(&self, other: &Self) -> (r: core::cmp::Ordering)
        ensures
            (r == core::cmp::Ordering::Less) == ip_lt(*self, *other),
            (r == core::cmp::Ordering::Greater) == ip_lt(*other, *self),
            (r == core::cmp::Ordering::Equal) == (*self == *other),
    {
        match (self, other) {
            (IPAddress::V4(a), IPAddress::V4(b)) => {
                let r = cmp_byte_seq(a.as_slice(), b.as_slice());
                proof {
                    if a@ == b@ {
                        assert(*a == *b);
                    }
                }
                r
            },
            (IPAddress::V4(_), IPAddress::V6(_)) => core::cmp::Ordering::Less,
            (IPAddress::V6(_), IPAddress::V4(_)) => core::cmp::Ordering::Greater,
            (IPAddress::V6(a), IPAddress::V6(b)) => {
                let r = cmp_byte_seq(a.as_slice(), b.as_slice());
                proof {
                    if a@ == b@ {
                        assert(*a == *b);
                    }
                }
                r
            },
        }
    }
}

proof fn lemma_ip_lt_total(a: IPAddress, b: IPAddress)
    ensures
        a == b || ip_lt(a, b) || ip_lt(b, a),
        !(ip_lt(a, b) && ip_lt(b, a)),
        ip_lt(a, b) ==> a != b,
{
    match (a, b) {
        (IPAddress::V4(x), IPAddress::V4(y)) => {
            lemma_bytes_lt_total(x@, y@);
            if x@ == y@ {
                assert(x == y);
            }
        },
        (IPAddress::V6(x), IPAddress::V6(y)) => {
            lemma_bytes_lt_total(x@, y@);
            if x@ == y@ {
                assert(x == y);
            }
        },
        _ => {},
    }
}

/// Exactly one of `a < b`, `a == b`, `b < a` holds in the endpoint order.
pub proof fn lemma_endpoint_lt_total(a: Endpoint, b: Endpoint)
    ensures
        a == b || endpoint_lt(a, b) || endpoint_lt(b, a),
        !(endpoint_lt(a, b) && endpoint_lt(b, a)),
        endpoint_lt(a, b) ==> a != b,
{
    lemma_ip_lt_total(a.ip, b.ip);
}

impl Endpoint {
    pub fn new(ip: IPAddress, port: u16) -> (r: Self)
        ensures
            r.ip == ip,
            r.port == port,
    {
        Endpoint { ip, port }
    }

    /// Whether `self` orders strictly before `other`.
    pub fn less_than(&self, other: &Endpoint) -> (r: bool)
        ensures
            r == endpoint_lt(*self, *other),
    {
        match self.ip.cmp_bytes(&other.ip) {
            core::cmp::Ordering::Less => true,
            core::cmp::Ordering::Greater => false,
            core::cmp::Ordering::Equal => self.port < other.port,
        }
    }
}

/// The sorted pair of two endpoints: the smaller one first.
pub open spec fn sorted_endpoints(a: Endpoint, b: Endpoint) -> FlowEndpoints {
    if endpoint_lt(b, a) {
        FlowEndpoints { first: b, second: a }
    } else {
        FlowEndpoints { first: a, second: b }
    }
}

/// The key under which packets between `a` and `b` over `protocol` are grouped.
pub open spec fn flow_key_of(a: Endpoint, b: Endpoint, protocol: Protocol) -> FlowKey {
    FlowKey { endpoints: sorted_endpoints(a, b), protocol }
}

impl FlowEndpoints {
    pub fn new(a: Endpoint, b: Endpoint) -> (r: Self)
        ensures
            r == sorted_endpoints(a, b),
    {
        if b.less_than(&a) {
            FlowEndpoints { first: b, second: a }
        } else {
            FlowEndpoints { first: a, second: b }
        }
    }
}

impl FlowKey {
    /// Builds the canonical key of the flow between two endpoints.
    pub fn from_endpoints(a: Endpoint, b: Endpoint, protocol: Protocol) -> (r: Self)
        ensures
            r == flow_key_of(a, b, protocol),
    {
        FlowKey { endpoints: FlowEndpoints::new(a, b), protocol }
    }
}

/// A flow key does not depend on the order in which its endpoints are given.
pub proof fn lemma_flow_key_symmetric(a: Endpoint, b: Endpoint, protocol: Protocol)
    ensures
        flow_key_of(a, b, protocol) == flow_key_of(b, a, protocol),
{
    lemma_endpoint_lt_total(a, b);
}

proof fn lemma_bytes_lt_trans(a: Seq<u8>, b: Seq<u8>, c: Seq<u8>)
    requires
        a.len() == b.len(),
        b.len() == c.len(),
        bytes_lt(a, b),
        bytes_lt(b, c),
    ensures
        bytes_lt(a, c),
    decreases a.len(),
{
    if a.len() > 0 && a[0] == b[0] && b[0] == c[0] {
        lemma_bytes_lt_trans(a.drop_first(), b.drop_first(), c.drop_first());
    }
}

proof fn lemma_ip_lt_trans(a: IPAddress, b: IPAddress, c: IPAddress)
    requires
        ip_lt(a, b),
        ip_lt(b, c),
    ensures
        ip_lt(a, c),
{
    match (a, b, c) {
        (IPAddress::V4(x), IPAddress::V4(y), IPAddress::V4(z)) => lemma_bytes_lt_trans(x@, y@, z@),
        (IPAddress::V6(x), IPAddress::V6(y), IPAddress::V6(z)) => lemma_bytes_lt_trans(x@, y@, z@),
        _ => {},
    }
}

/// The endpoint order is transitive.
pub proof fn lemma_endpoint_lt_trans(a: Endpoint, b: Endpoint, c: Endpoint)
    requires
        endpoint_lt(a, b),
        endpoint_lt(b, c),
    ensures
        endpoint_lt(a, c),
{
    if ip_lt(a.ip, b.ip) && ip_lt(b.ip, c.ip) {
        lemma_ip_lt_trans(a.ip, b.ip, c.ip);
    }
}

/// The position of a protocol in the key order: TCP, UDP, then the others by number.
pub open spec fn protocol_rank(p: Protocol) -> int {
    match p {
        Protocol::TCP => 0,
        Protocol::UDP => 1,
        Protocol::Other(n) => 2 + n as int,
    }
}

/// The order of flow keys: by first endpoint, second endpoint, then protocol.
pub open spec fn key_lt(a: FlowKey, b: FlowKey) -> bool {
    let (x, y) = (a.endpoints, b.endpoints);
    endpoint_lt(x.first, y.first) || (x.first == y.first && (endpoint_lt(x.second, y.second) || (
    x.second == y.second && protocol_rank(a.protocol) < protocol_rank(b.protocol))))
}

/// Exactly one of `a < b`, `a == b`, `b < a` holds in the key order.
pub proof fn lemma_key_lt_total(a: FlowKey, b: FlowKey)
    ensures
        a == b || key_lt(a, b) || key_lt(b, a),
        !(key_lt(a, b) && key_lt(b, a)),
        key_lt(a, b) ==> a != b,
{
    lemma_endpoint_lt_total(a.endpoints.first, b.endpoints.first);
    lemma_endpoint_lt_total(a.endpoints.second, b.endpoints.second);
    if a.endpoints == b.endpoints && protocol_rank(a.protocol) == protocol_rank(b.protocol) {
        assert(a.protocol == b.protocol);
    }
}

/// The key order is transitive.
pub proof fn lemma_key_lt_trans(a: FlowKey, b: FlowKey, c: FlowKey)
    requires
        key_lt(a, b),
        key_lt(b, c),
    ensures
        key_lt(a, c),
{
    let (x, y, z) = (a.endpoints, b.endpoints, c.endpoints);
    if endpoint_lt(x.first, y.first) && endpoint_lt(y.first, z.first) {
        lemma_endpoint_lt_trans(x.first, y.first, z.first);
    }
    if endpoint_lt(x.second, y.second) && endpoint_lt(y.second, z.second) {
        lemma_endpoint_lt_trans(x.second, y.second, z.second);
    }
}

impl Protocol {
    fn rank(&self) -> (r: u16)
        ensures
            r as int == protocol_rank(*self),
    {
        match self {
            Protocol::TCP => 0,
            Protocol::UDP => 1,
            Protocol::Other(n) => 2 + *n as u16,
        }
    }
}

impl FlowKey {
    /// Compares two keys in the key order.
    pub fn compare(&self, other: &FlowKey) -> (r: core::cmp::Ordering)
        ensures
            (r == core::cmp::Ordering::Less) == key_lt(*self, *other),
            (r == core::cmp::Ordering::Greater) == key_lt(*other, *self),
            (r == core::cmp::Ordering::Equal) == (*self == *other),
    {
        proof {
            lemma_key_lt_total(*self, *other);
        }
        let (x, y) = (&self.endpoints, &other.endpoints);
        if x.first.less_than(&y.first) {
            return core::cmp::Ordering::Less;
        }
        if y.first.less_than(&x.first) {
            return core::cmp::Ordering::Greater;
        }
        proof {
            lemma_endpoint_lt_total(x.first, y.first);
        }
        if x.second.less_than(&y.second) {
            return core::cmp::Ordering::Less;
        }
        if y.second.less_than(&x.second) {
            return core::cmp::Ordering::Greater;
        }
        proof {
            lemma_endpoint_lt_total(x.second, y.second);
        }
        let (p, q) = (self.protocol.rank(), other.protocol.rank());
        if p < q {
            core::cmp::Ordering::Less
        } else if q < p {
            core::cmp::Ordering::Greater
        } else {
            core::cmp::Ordering::Equal
        }
    }
}

impl PartialEq for IPAddress {
    fn eq(&self, other: &IPAddress) -> (r: bool) {
        matches!(self.cmp_bytes(other), core::cmp::Ordering::Equal)
    }
}

impl vstd::std_specs::cmp::PartialEqSpecImpl for IPAddress {
    open spec fn obeys_eq_spec() -> bool {
        true
    }

    open spec fn eq_spec(&self, other: &IPAddress) -> bool {
        *self == *other
    }
}

impl PartialEq for Endpoint {
    fn eq(&self, other: &Endpoint) -> (r: bool) {
        self.port == other.port && matches!(self.ip.cmp_bytes(&other.ip), core::cmp::Ordering::Equal)
    }
}

impl vstd::std_specs::cmp::PartialEqSpecImpl for Endpoint {
    open spec fn obeys_eq_spec() -> bool {
        true
    }

    open spec fn eq_spec(&self, other: &Endpoint) -> bool {
        *self == *other
    }
}

/// A capture time: `seconds + fraction / units_per_second`, exactly.
#[derive(Debug, Clone, Copy)]
pub struct Timestamp {
    pub seconds: i128,
    pub fraction: u64,
    pub units_per_second: u64,
}

impl Timestamp {
    /// A fraction strictly below one second, in a non-zero unit.
    pub open spec fn wf(&self) -> bool {
        self.units_per_second >= 1 && self.fraction < self.units_per_second
    }

    /// Whether `self` is strictly earlier than `other`.
    pub open spec fn spec_before(&self, other: Timestamp) -> bool {
        self.seconds < other.seconds || (self.seconds == other.seconds
            && (self.fraction as int) * (other.units_per_second as int) < (other.fraction as int)
            * (self.units_per_second as int))
    }

    /// A whole number of seconds.
    pub open spec fn from_seconds_spec(seconds: i64) -> Timestamp {
        Timestamp { seconds: seconds as i128, fraction: 0, units_per_second: 1 }
    }

    /// A whole number of seconds.
    pub fn from_seconds(seconds: i64) -> (r: Timestamp)
        ensures
            r.wf(),
            r == Timestamp::from_seconds_spec(seconds),
    {
        Timestamp { seconds: seconds as i128, fraction: 0, units_per_second: 1 }
    }

    /// Whether `self` is strictly earlier than `other`.
    pub fn before(&self, other: &Timestamp) -> (r: bool)
        ensures
            r == self.spec_before(*other),
    {
        if self.seconds != other.seconds {
            self.seconds < other.seconds
        } else {
            let a = self.fraction as u128;
            let b = other.units_per_second as u128;
            let c = other.fraction as u128;
            let d = self.units_per_second as u128;
            proof {
                lemma_u64_product_fits(a, b);
                lemma_u64_product_fits(c, d);
            }
            a * b < c * d
        }
    }
}

proof fn lemma_u64_product_fits(a: u128, b: u128)
    requires
        a <= u64::MAX,
        b <= u64::MAX,
    ensures
        a * b <= u128::MAX,
{
    assert(a * b <= u64::MAX * u64::MAX) by (nonlinear_arith)
        requires
            a <= u64::MAX,
            b <= u64::MAX,
    ;
}

/// One captured packet that belongs to a flow.
#[derive(Debug, Clone)]
pub struct Packet {
    pub timestamp: Timestamp,
    pub src_ip: IPAddress,
    pub dst_ip: IPAddress,
    pub src_port: Option<u16>,
    pub dst_port: Option<u16>,
    pub length: u32,
    pub data: Vec<u8>,
    pub tags: Vec<String>,
}

/// The packets exchanged between two endpoints over one protocol.
#[derive(Debug, Clone)]
pub struct Flow {
    pub timestamp: Timestamp,
    pub protocol: Protocol,
    pub source: Endpoint,
    pub destination: Endpoint,
    pub packets: Vec<Packet>,
}

impl Default for Flow {
    /// An empty flow of protocol 0 between two unspecified IPv4 endpoints, at time zero.
    fn default() -> (r: Flow)
        ensures
            r.timestamp == Timestamp::from_seconds_spec(0),
            r.protocol == Protocol::Other(0),
            r.source == (Endpoint { ip: IPAddress::V4([0u8, 0u8, 0u8, 0u8]), port: 0 }),
            r.destination == (Endpoint { ip: IPAddress::V4([0u8, 0u8, 0u8, 0u8]), port: 0 }),
            r.packets@.len() == 0,
    {
        Flow {
            timestamp: Timestamp::from_seconds(0),
            protocol: Protocol::Other(0),
            source: Endpoint { ip: IPAddress::V4([0, 0, 0, 0]), port: 0 },
            destination: Endpoint { ip: IPAddress::V4([0, 0, 0, 0]), port: 0 },
            packets: Vec::new(),
        }
    }
}

/// The sum of the lengths of a sequence of packets.
pub open spec fn packet_bytes(packets: Seq<Packet>) -> nat
    decreases packets.len(),
{
    if packets.len() == 0 {
        0
    } else {
        packet_bytes(packets.drop_last()) + packets.last().length as nat
    }
}

impl Flow {
    /// The number of bytes carried by all packets of the flow.
    pub fn total_bytes(&self) -> (r: u64)
        requires
            packet_bytes(self.packets@) <= u64::MAX,
        ensures
            r == packet_bytes(self.packets@),
    {
        let mut total: u64 = 0;
        let mut i: usize = 0;
        while i < self.packets.len()
            invariant
                i <= self.packets@.len(),
                total == packet_bytes(self.packets@.subrange(0, i as int)),
                packet_bytes(self.packets@) <= u64::MAX,
            decreases self.packets@.len() - i,
        {
            proof {
                let s = self.packets@;
                assert(s.subrange(0, i + 1).drop_last() =~= s.subrange(0, i as int));
                lemma_packet_bytes_prefix(s, i + 1);
            }
            total = total + self.packets[i].length as u64;
            i = i + 1;
        }
        proof {
            assert(self.packets@.subrange(0, i as int) =~= self.packets@);
        }
        total
    }
}

proof fn lemma_packet_bytes_prefix(s: Seq<Packet>, n: int)
    requires
        0 <= n <= s.len(),
    ensures
        packet_bytes(s.subrange(0, n)) <= packet_bytes(s),
    decreases s.len(),
{
    if n < s.len() {
        assert(s.drop_last().subrange(0, n) =~= s.subrange(0, n));
        lemma_packet_bytes_prefix(s.drop_last(), n);
    } else {
        assert(s.subrange(0, n) =~= s);
    }
}

impl PartialEq for FlowEndpoints {
    fn eq(&self, other: &FlowEndpoints) -> (r: bool) {
        self.first.eq(&other.first) && self.second.eq(&other.second)
    }
}

impl vstd::std_specs::cmp::PartialEqSpecImpl for FlowEndpoints {
    open spec fn obeys_eq_spec() -> bool {
        true
    }

    open spec fn eq_spec(&self, other: &FlowEndpoints) -> bool {
        *self == *other
    }
}

impl PartialEq for FlowKey {
    fn eq(&self, other: &FlowKey) -> (r: bool) {
        self.endpoints.eq(&other.endpoints) && self.protocol == other.protocol
    }
}

impl vstd::std_specs::cmp::PartialEqSpecImpl for FlowKey {
    open spec fn obeys_eq_spec() -> bool {
        true
    }

    open spec fn eq_spec(&self, other: &FlowKey) -> bool {
        *self == *other
    }
}

} // verus!
