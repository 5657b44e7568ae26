//! Plain representations of network addresses.
//!
//! The transport layer converts the operating system's socket address type
//! into these values before handing a datagram to the protocol core, so the
//! core can reason about addresses as ordinary integers.

use vstd::prelude::*;

verus! {

/// An IP address: a v4 address held as its 32-bit value, or a v6 address
/// held as its 128-bit value.
#[derive(Clone, Copy, PartialEq, Eq, Structural, Debug)]
pub enum IpAddr {
    V4(u32),
    V6(u128),
}

/// A network endpoint: an IP address together with a UDP port.
#[derive(Clone, Copy, PartialEq, Eq, Structural, Debug)]
pub struct NetAddr {
    pub ip: IpAddr,
    pub port: u16,
}

} // verus!
