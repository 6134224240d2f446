//! Tagging of the TLS records carried in a TCP segment.

use crate::context::{ContextView, PacketContext};
use crate::wire::{be16, read_tls_record, tls_record_ok};
use vstd::prelude::*;
use vstd::string::*;

verus! {

/// The name of a TLS protocol version, as found in a record header.
pub open spec fn version_name(version: u16) -> Seq<char> {
    if version == 0x0300 {
        "SSL 3.0"@
    } else if version == 0x0301 {
        "TLS 1.0"@
    } else if version == 0x0302 {
        "TLS 1.1"@
    } else if version == 0x0303 {
        "TLS 1.2"@
    } else if version == 0x0304 {
        "TLS 1.3"@
    } else {
        "unknown version"@
    }
}

/// The name of a handshake message, from its type byte.
pub open spec fn handshake_name(msg_type: u8) -> Seq<char> {
    if msg_type == 0 {
        "Hello Request"@
    } else if msg_type == 1 {
        "Client Hello"@
    } else if msg_type == 2 {
        "Server Hello"@
    } else if msg_type == 4 {
        "New Session Ticket"@
    } else if msg_type == 5 {
        "End Of Early Data"@
    } else if msg_type == 8 {
        "Encrypted Extensions"@
    } else if msg_type == 11 {
        "Certificate"@
    } else if msg_type == 12 {
        "Server Key Exchange"@
    } else if msg_type == 13 {
        "Certificate Request"@
    } else if msg_type == 14 {
        "Server Hello Done"@
    } else if msg_type == 15 {
        "Certificate Verify"@
    } else if msg_type == 16 {
        "Client Key Exchange"@
    } else if msg_type == 20 {
        "Finished"@
    } else if msg_type == 24 {
        "Key Update"@
    } else {
        "Handshake"@
    }
}

/// Whether a content type is one that this decoder tags (20 to 23).
pub open spec fn is_tagged_content_type(content_type: u8) -> bool {
    20 <= content_type <= 23
}

/// What a record of a tagged content type is called.
pub open spec fn record_label(content_type: u8, body: Seq<u8>) -> Seq<char> {
    if content_type == 20 {
        "ChangeCipherSpec"@
    } else if content_type == 21 {
        "Alert"@
    } else if content_type == 22 {
        if body.len() > 0 {
            handshake_name(body[0])
        } else {
            "Handshake"@
        }
    } else {
        "Application Data"@
    }
}

/// The tag of one record: its label and its version, as in `Client Hello (TLS 1.2)`.
pub open spec fn record_tag(content_type: u8, version: u16, body: Seq<u8>) -> Seq<char> {
    record_label(content_type, body) + " ("@ + version_name(version) + ")"@
}

/// The length of the record at the start of `data`, header included.
pub open spec fn record_len(data: Seq<u8>) -> int {
    5 + be16(data[3], data[4])
}

/// The tags of the complete records of tagged content types at the start of `data`, up to the
/// first incomplete record or record of another content type.
pub open spec fn tls_tags(data: Seq<u8>) -> Seq<Seq<char>>
    decreases data.len(),
{
    if tls_record_ok(data) && is_tagged_content_type(data[0]) {
        seq![
            record_tag(data[0], be16(data[1], data[2]) as u16, data.subrange(5, record_len(data))),
        ] + tls_tags(data.skip(record_len(data)))
    } else {
        seq![]
    }
}

/// Whether a TCP payload starts like a TLS record: five bytes or more, a content type from
/// 20 to 23 and a major version of 3.
pub open spec fn spec_looks_like_tls(payload: Seq<u8>) -> bool {
    payload.len() >= 5 && 20 <= payload[0] <= 23 && payload[1] == 3
}

pub fn looks_like_tls(payload: &[u8]) -> (r: bool)
    ensures
        r == spec_looks_like_tls(payload@),
{
    if payload.len() < 5 {
        return false;
    }
    let content_type = payload[0];
    let version_major = payload[1];
    20 <= content_type && content_type <= 23 && version_major == 3
}

fn version_text(version: u16) -> (r: &'static str)
    ensures
        r@ == version_name(version),
{
    if version == 0x0300 {
        "SSL 3.0"
    } else if version == 0x0301 {
        "TLS 1.0"
    } else if version == 0x0302 {
        "TLS 1.1"
    } else if version == 0x0303 {
        "TLS 1.2"
    } else if version == 0x0304 {
        "TLS 1.3"
    } else {
        "unknown version"
    }
}

fn handshake_text(msg_type: u8) -> (r: &'static str)
    ensures
        r@ == handshake_name(msg_type),
{
    if msg_type == 0 {
        "Hello Request"
    } else if msg_type == 1 {
        "Client Hello"
    } else if msg_type == 2 {
        "Server Hello"
    } else if msg_type == 4 {
        "New Session Ticket"
    } else if msg_type == 5 {
        "End Of Early Data"
    } else if msg_type == 8 {
        "Encrypted Extensions"
    } else if msg_type == 11 {
        "Certificate"
    } else if msg_type == 12 {
        "Server Key Exchange"
    } else if msg_type == 13 {
        "Certificate Request"
    } else if msg_type == 14 {
        "Server Hello Done"
    } else if msg_type == 15 {
        "Certificate Verify"
    } else if msg_type == 16 {
        "Client Key Exchange"
    } else if msg_type == 20 {
        "Finished"
    } else if msg_type == 24 {
        "Key Update"
    } else {
        "Handshake"
    }
}

/// Builds the tag of one record of a tagged content type.
pub fn tag_for_record(content_type: u8, version: u16, body: &[u8]) -> (r: String)
    requires
        is_tagged_content_type(content_type),
    ensures
        r@ == record_tag(content_type, version, body@),
{
    let label = if content_type == 20 {
        "ChangeCipherSpec"
    } else if content_type == 21 {
        "Alert"
    } else if content_type == 22 {
        if body.len() > 0 {
            handshake_text(body[0])
        } else {
            "Handshake"
        }
    } else {
        "Application Data"
    };
    let mut tag = String::from_str(label);
    tag.append(" (");
    tag.append(version_text(version));
    tag.append(")");
    tag
}

/// Decoder of the TLS records in a TCP payload.
pub struct TlsParser;

impl TlsParser {
    /// Appends a tag for each complete record at the start of `data`; decoding stops at an
    /// incomplete record or at a content type that is not TLS.
    pub fn parse(&self, data: &[u8], context: &mut PacketContext)
        ensures
            final(context)@ == (ContextView {
                tags: old(context)@.tags + tls_tags(data@),
                ..old(context)@
            }),
    {
        let n = data.len();
        let mut offset: usize = 0;
        proof {
            assert(data@.skip(0) =~= data@);
            assert(old(context)@.tags + tls_tags(data@) =~= context@.tags + tls_tags(data@.skip(0)));
        }
        while offset < n
            invariant
                n == data@.len(),
                offset <= n,
                context@ == (ContextView { tags: context@.tags, ..old(context)@ }),
                old(context)@.tags + tls_tags(data@) == context@.tags + tls_tags(data@.skip(offset as int)),
            decreases n - offset,
        {
            let rest = vstd::slice::slice_subrange(data, offset, n);
            proof {
                assert(rest@ =~= data@.skip(offset as int));
            }
            match read_tls_record(rest) {
                None => {
                    proof {
                        assert(data@.skip(n as int) =~= seq![]);
                        assert(tls_tags(data@.skip(offset as int)) =~= seq![]);
                    }
                    offset = n;
                },
                Some(header) => {
                    if header.content_type < 20 || header.content_type > 23 {
                        proof {
                            assert(data@.skip(n as int) =~= seq![]);
                            assert(tls_tags(data@.skip(offset as int)) =~= seq![]);
                        }
                        offset = n;
                        continue;
                    }
                    let end = 5 + header.body_len;
                    let body = vstd::slice::slice_subrange(rest, 5, end);
                    let tag = tag_for_record(header.content_type, header.version, body);
                    let ghost before = context@.tags;
                    context.push_tag(tag);
                    proof {
                        let r = rest@;
                        assert(r.skip(record_len(r)) =~= data@.skip(offset + end));
                        assert(tls_tags(r) == seq![tag@] + tls_tags(r.skip(record_len(r))));
                        assert(before + tls_tags(r) =~= context@.tags + tls_tags(r.skip(record_len(r))));
                    }
                    offset = offset + end;
                },
            }
        }
        proof {
            let r = data@.skip(offset as int);
            assert(r =~= seq![]);
            assert(tls_tags(r) =~= seq![]);
            assert(context@.tags + tls_tags(r) =~= context@.tags);
        }
    }
}

} // verus!
