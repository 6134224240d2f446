//! Bidirectional flow reconstruction from pcapng captures.
//!
//! - `flow`: addresses, endpoints, canonical flow keys, packets, flows and exact timestamps.
//! - `context`: the per-packet record that the decoders fill in.
//! - `wire`, `layers`, `tls`: the layered decoders (Ethernet, IPv4/IPv6, TCP/UDP, TLS).
//! - `names`, `dns`, `text`: the address-to-names table, DNS answers and name records.
//! - `packets`: folding decoded packets into the flow table.
//! - `blocks`, `reader`: the pcapng block reader and the whole-capture parse.
//! - `loader`: the decisions of the polling side of a background load.
//! - `format`: text forms of addresses, endpoints, ports, protocols and flows.

pub mod blocks;
pub mod context;
pub mod dns;
pub mod flow;
pub mod format;
pub mod layers;
pub mod loader;
pub mod names;
pub mod packets;
pub mod reader;
pub mod text;
pub mod tls;
pub mod wire;
