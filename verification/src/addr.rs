//! IP addresses and endpoints.

use vstd::prelude::*;

verus! {

/// An IPv4 address, as the number that its four octets form in network order.
#[derive(Debug, Clone, Copy, PartialEq, Eq, Structural, Hash)]
pub struct Ipv4Addr {
    pub bits: u32,
}

/// An IPv6 address, as the number that its sixteen octets form in network order.
#[derive(Debug, Clone, Copy, PartialEq, Eq, Structural, Hash)]
pub struct Ipv6Addr {
    pub bits: u128,
}

/// An IP address of either version.
#[derive(Debug, Clone, Copy, PartialEq, Eq, Structural, Hash)]
pub enum IpAddress {
    Ipv4(Ipv4Addr),
    Ipv6(Ipv6Addr),
}

/// An IP address together with a port.
#[derive(Debug, Clone, Copy, PartialEq, Eq, Structural, Hash)]
pub struct IpEndpoint {
    pub addr: IpAddress,
    pub port: u16,
}

impl Ipv4Addr {
    /// 224.0.0.0/4.
    pub open spec fn is_multicast(self) -> bool {
        0xe000_0000 <= self.bits <= 0xefff_ffff
    }

    /// 255.255.255.255.
    pub open spec fn is_broadcast(self) -> bool {
        self.bits == 0xffff_ffff
    }
}

impl Ipv6Addr {
    /// ff00::/8.
    pub open spec fn is_multicast(self) -> bool {
        0xff00_0000_0000_0000_0000_0000_0000_0000 <= self.bits
    }
}

impl IpAddress {
    /// 0.0.0.0 or `::`.
    pub open spec fn is_unspecified(self) -> bool {
        match self {
            IpAddress::Ipv4(a) => a.bits == 0,
            IpAddress::Ipv6(a) => a.bits == 0,
        }
    }

    /// Whether the address may be assigned to an interface: anything but a
    /// multicast or a broadcast address.
    pub open spec fn assignable(self) -> bool {
        match self {
            IpAddress::Ipv4(a) => !a.is_multicast() && !a.is_broadcast(),
            IpAddress::Ipv6(a) => !a.is_multicast(),
        }
    }

    /// The longest prefix that an address of this version can have.
    pub open spec fn max_prefix(self) -> int {
        match self {
            IpAddress::Ipv4(_) => 32,
            IpAddress::Ipv6(_) => 128,
        }
    }
}

} // verus!
