//! Text forms of addresses, endpoints, ports and protocols.

use crate::flow::{Endpoint, Flow, FlowEndpoints, IPAddress, Protocol};
use crate::names::{NameTable, has_ip, names_for};
use crate::wire::be16;
use vstd::prelude::*;
use vstd::string::*;

verus! {

/// The character of a digit below 16 (lower-case for 10 to 15).
pub open spec fn digit_char(d: nat) -> char {
    if d == 0 { '0' } else if d == 1 { '1' } else if d == 2 { '2' } else if d == 3 { '3' }
    else if d == 4 { '4' } else if d == 5 { '5' } else if d == 6 { '6' } else if d == 7 { '7' }
    else if d == 8 { '8' } else if d == 9 { '9' } else if d == 10 { 'a' } else if d == 11 { 'b' }
    else if d == 12 { 'c' } else if d == 13 { 'd' } else if d == 14 { 'e' } else { 'f' }
}

/// A number in decimal, without leading zeros.
pub open spec fn dec_digits(n: nat) -> Seq<char>
    decreases n,
{
    if n < 10 {
        seq![digit_char(n)]
    } else {
        dec_digits(n / 10).push(digit_char(n % 10))
    }
}

/// A number in hexadecimal, without leading zeros.
pub open spec fn hex_digits(n: nat) -> Seq<char>
    decreases n,
{
    if n < 16 {
        seq![digit_char(n)]
    } else {
        hex_digits(n / 16).push(digit_char(n % 16))
    }
}

/// A number in base 16 when `b` is 16, else in base 10.
pub open spec fn digits(n: nat, b: nat) -> Seq<char> {
    if b == 16 {
        hex_digits(n)
    } else {
        dec_digits(n)
    }
}

/// A number in base 16, padded with zeros to two digits.
pub open spec fn hex2(n: nat) -> Seq<char> {
    if n < 16 {
        seq!['0', digit_char(n)]
    } else {
        digits(n, 16)
    }
}

fn digit_text(d: u64) -> (r: &'static str)
    requires
        d < 16,
    ensures
        r@ == seq![digit_char(d as nat)],
{
    proof {
        reveal_strlit("0"); reveal_strlit("1"); reveal_strlit("2"); reveal_strlit("3");
        reveal_strlit("4"); reveal_strlit("5"); reveal_strlit("6"); reveal_strlit("7");
        reveal_strlit("8"); reveal_strlit("9"); reveal_strlit("a"); reveal_strlit("b");
        reveal_strlit("c"); reveal_strlit("d"); reveal_strlit("e"); reveal_strlit("f");
    }
    if d == 0 { "0" } else if d == 1 { "1" } else if d == 2 { "2" } else if d == 3 { "3" }
    else if d == 4 { "4" } else if d == 5 { "5" } else if d == 6 { "6" } else if d == 7 { "7" }
    else if d == 8 { "8" } else if d == 9 { "9" } else if d == 10 { "a" } else if d == 11 { "b" }
    else if d == 12 { "c" } else if d == 13 { "d" } else if d == 14 { "e" } else { "f" }
}

/// Appends `n` in base `b` (10 or 16).
fn append_digits(text: &mut String, n: u64, b: u64)
    requires
        b == 10 || b == 16,
    ensures
        final(text)@ == old(text)@ + digits(n as nat, b as nat),
    decreases n,
{
    if n >= b {
        append_digits(text, n / b, b);
    }
    text.append(digit_text(n % b));
    proof {
        if n >= b {
            assert(digits(n as nat, b as nat) == digits((n / b) as nat, b as nat).push(digit_char((n % b) as nat)));
        }
    }
}

/// A number in decimal.
pub fn decimal(n: u64) -> (r: String)
    ensures
        r@ == digits(n as nat, 10),
{
    let mut text = String::new();
    append_digits(&mut text, n, 10);
    assert(text@ =~= digits(n as nat, 10));
    text
}

/// The text of an address: dotted decimal for IPv4; for IPv6 eight colon-separated groups
/// in lower-case hexadecimal without leading zeros.
pub open spec fn ip_text(ip: IPAddress) -> Seq<char> {
    match ip {
        IPAddress::V4(a) => digits(a[0] as nat, 10) + "."@ + digits(a[1] as nat, 10) + "."@ + digits(
            a[2] as nat,
            10,
        ) + "."@ + digits(a[3] as nat, 10),
        IPAddress::V6(a) => v6_groups(a@, 8),
    }
}

/// The first `k` groups of an IPv6 address, colon-separated.
pub open spec fn v6_groups(a: Seq<u8>, k: nat) -> Seq<char>
    decreases k,
{
    if k == 0 {
        seq![]
    } else if k == 1 {
        digits(be16(a[0], a[1]) as nat, 16)
    } else {
        v6_groups(a, (k - 1) as nat) + ":"@ + digits(
            be16(a[2 * (k - 1)], a[2 * (k - 1) + 1]) as nat,
            16,
        )
    }
}

/// The first `k` byte pairs of an IPv6 address, each as four hexadecimal digits, colon-separated.
pub open spec fn v6_padded(a: Seq<u8>, k: nat) -> Seq<char>
    decreases k,
{
    if k == 0 {
        seq![]
    } else if k == 1 {
        hex2(a[0] as nat) + hex2(a[1] as nat)
    } else {
        v6_padded(a, (k - 1) as nat) + ":"@ + hex2(a[2 * (k - 1)] as nat) + hex2(
            a[2 * (k - 1) + 1] as nat,
        )
    }
}

fn append_hex2(text: &mut String, n: u8)
    ensures
        final(text)@ == old(text)@ + hex2(n as nat),
{
    if n < 16 {
        text.append("0");
        proof {
            reveal_strlit("0");
        }
    }
    append_digits(text, n as u64, 16);
    proof {
        if n < 16 {
            assert(digits(n as nat, 16) == seq![digit_char(n as nat)]);
        }
        assert(final(text)@ =~= old(text)@ + hex2(n as nat)) by {
            if n < 16 {
                assert(hex2(n as nat) =~= seq!['0'] + seq![digit_char(n as nat)]);
            }
        }
    }
}

impl IPAddress {
    /// The text of the address.
    pub fn to_text(&self) -> (r: String)
        ensures
            r@ == ip_text(*self),
    {
        let mut text = String::new();
        match self {
            IPAddress::V4(a) => {
                append_digits(&mut text, a[0] as u64, 10);
                text.append(".");
                append_digits(&mut text, a[1] as u64, 10);
                text.append(".");
                append_digits(&mut text, a[2] as u64, 10);
                text.append(".");
                append_digits(&mut text, a[3] as u64, 10);
                assert(text@ =~= ip_text(*self));
            },
            IPAddress::V6(a) => {
                let mut k: usize = 0;
                proof {
                    assert(text@ =~= v6_groups(a@, 0));
                }
                while k < 8
                    invariant
                        k <= 8,
                        text@ == v6_groups(a@, k as nat),
                    decreases 8 - k,
                {
                    if k > 0 {
                        text.append(":");
                    }
                    let group = (a[2 * k] as u64) * 256 + a[2 * k + 1] as u64;
                    append_digits(&mut text, group, 16);
                    proof {
                        if k == 0 {
                            assert(text@ =~= v6_groups(a@, 1));
                        } else {
                            assert(text@ =~= v6_groups(a@, (k + 1) as nat));
                        }
                    }
                    k = k + 1;
                }
            },
        }
        text
    }
}

/// An address with every IPv6 byte as two hexadecimal digits.
pub open spec fn padded_ip_text(ip: IPAddress) -> Seq<char> {
    match ip {
        IPAddress::V4(_) => ip_text(ip),
        IPAddress::V6(a) => v6_padded(a@, 8),
    }
}

/// Formats an address for a table cell: dotted decimal, or eight groups of four hexadecimal
/// digits.
pub fn format_ip_address(ip: &IPAddress) -> (r: String)
    ensures
        r@ == padded_ip_text(*ip),
{
    match ip {
        IPAddress::V4(_) => ip.to_text(),
        IPAddress::V6(a) => {
            let mut text = String::new();
            let mut k: usize = 0;
            proof {
                assert(text@ =~= v6_padded(a@, 0));
            }
            while k < 8
                invariant
                    k <= 8,
                    text@ == v6_padded(a@, k as nat),
                decreases 8 - k,
            {
                if k > 0 {
                    text.append(":");
                }
                append_hex2(&mut text, a[2 * k]);
                append_hex2(&mut text, a[2 * k + 1]);
                proof {
                    if k == 0 {
                        assert(text@ =~= v6_padded(a@, 1));
                    } else {
                        assert(text@ =~= v6_padded(a@, (k + 1) as nat));
                    }
                }
                k = k + 1;
            }
            text
        },
    }
}

/// The name of a protocol: `TCP`, `UDP`, or `Proto-` and its number.
pub open spec fn protocol_text(protocol: Protocol) -> Seq<char> {
    match protocol {
        Protocol::TCP => "TCP"@,
        Protocol::UDP => "UDP"@,
        Protocol::Other(n) => "Proto-"@ + digits(n as nat, 10),
    }
}

pub fn format_protocol(protocol: &Protocol) -> (r: String)
    ensures
        r@ == protocol_text(*protocol),
{
    match protocol {
        Protocol::TCP => String::from_str("TCP"),
        Protocol::UDP => String::from_str("UDP"),
        Protocol::Other(n) => {
            let mut text = String::from_str("Proto-");
            append_digits(&mut text, *n as u64, 10);
            text
        },
    }
}

/// How an address is shown: its first known name when names are preferred and one is known,
/// else its text.
pub open spec fn shown_ip(ip: IPAddress, prefer_names: bool, names: Option<Seq<(IPAddress, Seq<Seq<char>>)>>) -> Seq<char> {
    match names {
        Some(t) => if prefer_names && has_ip(t, ip) && names_for(t, ip).len() > 0 {
            names_for(t, ip)[0]
        } else {
            ip_text(ip)
        },
        None => ip_text(ip),
    }
}

pub open spec fn table_view(names: Option<&NameTable>) -> Option<Seq<(IPAddress, Seq<Seq<char>>)>> {
    match names {
        Some(t) => Some(t@),
        None => None,
    }
}

/// Text forms of the parts of a flow.
pub struct FlowFormatter;

impl FlowFormatter {
    pub fn ip_address(ip: &IPAddress, prefer_names: bool, name_resolutions: Option<&NameTable>) -> (r: String)
        requires
            name_resolutions matches Some(t) ==> t.wf(),
        ensures
            r@ == shown_ip(*ip, prefer_names, table_view(name_resolutions)),
    {
        if prefer_names {
            if let Some(table) = name_resolutions {
                if let Some(names) = table.get(ip) {
                    if names.len() > 0 {
                        let first = names[0].clone();
                        assert(names@.map_values(|n: String| n@)[0] == names@[0]@);
                        return first;
                    }
                }
            }
        }
        ip.to_text()
    }

    pub fn endpoint(endpoint: &Endpoint, prefer_names: bool, name_resolutions: Option<&NameTable>) -> (r: String)
        requires
            name_resolutions matches Some(t) ==> t.wf(),
        ensures
            r@ == shown_ip(endpoint.ip, prefer_names, table_view(name_resolutions)) + ":"@ + digits(
                endpoint.port as nat,
                10,
            ),
    {
        let mut text = Self::ip_address(&endpoint.ip, prefer_names, name_resolutions);
        text.append(":");
        append_digits(&mut text, endpoint.port as u64, 10);
        text
    }

    pub fn protocol(protocol: &Protocol) -> (r: String)
        ensures
            r@ == protocol_text(*protocol),
    {
        format_protocol(protocol)
    }

    pub fn port(port: u16) -> (r: String)
        ensures
            r@ == digits(port as nat, 10),
    {
        decimal(port as u64)
    }
}

/// The debug name of a protocol: `TCP`, `UDP`, or `Other(n)`.
pub open spec fn protocol_debug_text(protocol: Protocol) -> Seq<char> {
    match protocol {
        Protocol::TCP => "TCP"@,
        Protocol::UDP => "UDP"@,
        Protocol::Other(n) => "Other("@ + digits(n as nat, 10) + ")"@,
    }
}

/// The text of an endpoint: its address, a colon, its port.
pub open spec fn endpoint_text(e: Endpoint) -> Seq<char> {
    ip_text(e.ip) + ":"@ + digits(e.port as nat, 10)
}

impl Endpoint {
    pub fn to_text(&self) -> (r: String)
        ensures
            r@ == endpoint_text(*self),
    {
        let mut text = self.ip.to_text();
        text.append(":");
        append_digits(&mut text, self.port as u64, 10);
        text
    }
}

impl FlowEndpoints {
    /// Both endpoints, joined by a two-way arrow.
    pub fn to_text(&self) -> (r: String)
        ensures
            r@ == endpoint_text(self.first) + " \u{2194} "@ + endpoint_text(self.second),
    {
        let mut text = self.first.to_text();
        text.append(" \u{2194} ");
        let second = self.second.to_text();
        text.append(second.as_str());
        text
    }
}

impl Flow {
    /// Source and destination joined by a two-way arrow, then the protocol in parentheses.
    pub fn to_text(&self) -> (r: String)
        ensures
            r@ == endpoint_text(self.source) + " \u{2194} "@ + endpoint_text(self.destination) + " ("@
                + protocol_debug_text(self.protocol) + ")"@,
    {
        let mut text = self.source.to_text();
        text.append(" \u{2194} ");
        let destination = self.destination.to_text();
        text.append(destination.as_str());
        text.append(" (");
        match self.protocol {
            Protocol::TCP => text.append("TCP"),
            Protocol::UDP => text.append("UDP"),
            Protocol::Other(n) => {
                text.append("Other(");
                append_digits(&mut text, n as u64, 10);
                text.append(")");
            },
        }
        text.append(")");
        text
    }
}

} // verus!
