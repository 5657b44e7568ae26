//! A rendezvous (signaling) service for peer-to-peer NAT traversal.
//!
//! Peers register their reachability information with a well-known server,
//! query other peers' registered information, and ask the server to
//! coordinate a simultaneous address exchange between two peers. This crate
//! holds the protocol core: the wire codec, the peer registry, and the
//! dispatch logic that turns inbound datagrams into registry mutations and
//! outbound notifications. The UDP transport itself lives outside the crate
//! and hands datagram bytes and observed source addresses in.

pub mod addr;
pub mod message;
pub mod wire;
pub mod codec;
pub mod registry;
pub mod server;
pub mod cli;
