//! Plain-value model of IPv4 socket addresses, and multicast resolution.
//!
//! A datagram listener bound to an address in the IPv4 multicast range
//! 224.0.0.0 through 239.255.255.255 (inclusive) additionally joins that
//! group, with address and port reuse enabled so several listeners may share
//! it.

use vstd::prelude::*;

verus! {

/// First octet of the lowest IPv4 multicast address, 224.0.0.0.
pub const MULTICAST_FIRST_OCTET_LO: u8 = 224;

/// First octet of the highest IPv4 multicast address, 239.255.255.255.
pub const MULTICAST_FIRST_OCTET_HI: u8 = 239;

/// An IPv4 address as its four octets.
#[derive(Clone, Copy, PartialEq, Eq, Hash, Debug, Structural)]
pub struct Ipv4Address {
    pub o0: u8,
    pub o1: u8,
    pub o2: u8,
    pub o3: u8,
}

/// An IPv4 address and port.
#[derive(Clone, Copy, PartialEq, Eq, Hash, Debug, Structural)]
pub struct NetAddr {
    pub ip: Ipv4Address,
    pub port: u16,
}

impl Ipv4Address {
    /// Whether the address lies in 224.0.0.0..=239.255.255.255: exactly the
    /// addresses whose first octet lies in 224..=239, whatever the others.
    pub open spec fn spec_is_multicast(self) -> bool {
        MULTICAST_FIRST_OCTET_LO <= self.o0 && self.o0 <= MULTICAST_FIRST_OCTET_HI
    }

    /// Builds an address from its four octets.
    pub fn new(o0: u8, o1: u8, o2: u8, o3: u8) -> (r: Ipv4Address)
        ensures
            r == (Ipv4Address { o0, o1, o2, o3 }),
    {
        Ipv4Address { o0, o1, o2, o3 }
    }

    /// Whether the address lies in the IPv4 multicast range.
    pub fn is_multicast(self) -> (r: bool)
        ensures
            r == self.spec_is_multicast(),
    {
        MULTICAST_FIRST_OCTET_LO <= self.o0 && self.o0 <= MULTICAST_FIRST_OCTET_HI
    }
}

impl NetAddr {
    /// Builds a socket address from octets and port.
    pub fn new(ip: Ipv4Address, port: u16) -> (r: NetAddr)
        ensures
            r == (NetAddr { ip, port }),
    {
        NetAddr { ip, port }
    }
}

} // verus!
