//! The per-packet record that the layer decoders fill in.

use crate::flow::{IPAddress, Protocol};
use vstd::prelude::*;

verus! {

/// What the decoders have learned about one packet so far.
#[derive(Debug, Clone)]
pub struct PacketContext {
    pub src_ip: Option<IPAddress>,
    pub dst_ip: Option<IPAddress>,
    pub src_port: Option<u16>,
    pub dst_port: Option<u16>,
    pub protocol: Option<Protocol>,
    pub is_syn: bool,
    pub is_ack: bool,
    pub tags: Vec<String>,
    pub udp_payload: Option<Vec<u8>>,
}

/// The mathematical value of a [`PacketContext`].
pub struct ContextView {
    pub src_ip: Option<IPAddress>,
    pub dst_ip: Option<IPAddress>,
    pub src_port: Option<u16>,
    pub dst_port: Option<u16>,
    pub protocol: Option<Protocol>,
    pub is_syn: bool,
    pub is_ack: bool,
    pub tags: Seq<Seq<char>>,
    pub udp_payload: Option<Seq<u8>>,
}

/// The text of each tag.
pub open spec fn tag_texts(tags: Seq<String>) -> Seq<Seq<char>> {
    tags.map_values(|t: String| t@)
}

impl View for PacketContext {
    type V = ContextView;

    open spec fn view(&self) -> ContextView {
        ContextView {
            src_ip: self.src_ip,
            dst_ip: self.dst_ip,
            src_port: self.src_port,
            dst_port: self.dst_port,
            protocol: self.protocol,
            is_syn: self.is_syn,
            is_ack: self.is_ack,
            tags: tag_texts(self.tags@),
            udp_payload: match self.udp_payload {
                Some(p) => Some(p@),
                None => None,
            },
        }
    }
}

/// The context of a packet that no decoder has looked at yet.
pub open spec fn empty_context() -> ContextView {
    ContextView {
        src_ip: None,
        dst_ip: None,
        src_port: None,
        dst_port: None,
        protocol: None,
        is_syn: false,
        is_ack: false,
        tags: seq![],
        udp_payload: None,
    }
}

impl PacketContext {
    pub fn new() -> (r: PacketContext)
        ensures
            r@ == empty_context(),
    {
        let r = PacketContext {
            src_ip: None,
            dst_ip: None,
            src_port: None,
            dst_port: None,
            protocol: None,
            is_syn: false,
            is_ack: false,
            tags: Vec::new(),
            udp_payload: None,
        };
        assert(r@.tags =~= seq![]);
        r
    }

    /// Appends one tag.
    pub fn push_tag(&mut self, tag: String)
        ensures
            final(self)@ == (ContextView { tags: old(self)@.tags.push(tag@), ..old(self)@ }),
    {
        self.tags.push(tag);
        assert(tag_texts(self.tags@) =~= tag_texts(old(self).tags@).push(tag@));
    }
}

impl Default for PacketContext {
    fn default() -> (r: PacketContext)
        ensures
            r@ == empty_context(),
    {
        PacketContext::new()
    }
}

} // verus!
