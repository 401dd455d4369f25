//! The protocol side of one interface: its addresses, its routes, its timers.

use smoltcp::iface::{Interface, SocketHandle, SocketSet};
use vstd::prelude::*;

use crate::addr::{IpAddress, Ipv4Addr, Ipv6Addr};
use crate::engine::socket_set::{sockets_of, SocketModel};

verus! {

/// `smoltcp::iface::Interface`.
#[verifier::external_type_specification]
#[verifier::external_body]
pub struct ExInterface(Interface);

/// An address of an interface with the length of its network prefix.
pub struct Cidr {
    pub addr: IpAddress,
    pub prefix: u8,
}

/// A way to a network through a router.
pub struct Route {
    pub network: Cidr,
    pub via: IpAddress,
}

/// What an interface is configured with.
pub struct InterfaceModel {
    pub addrs: Seq<Cidr>,
    pub addr_capacity: nat,
    /// Whether packets for addresses of others are accepted too.
    pub any_ip: bool,
    pub routes: Seq<Route>,
    pub route_capacity: nat,
    /// Whether the medium is Ethernet, where addresses have to be announced.
    pub ethernet: bool,
    /// The size of the largest IP packet that the medium carries.
    pub ip_mtu: nat,
}

impl Cidr {
    /// The network of all IPv4 addresses.
    pub open spec fn all_ipv4() -> Cidr {
        Cidr { addr: IpAddress::Ipv4(Ipv4Addr { bits: 0 }), prefix: 0 }
    }

    /// The network of all IPv6 addresses.
    pub open spec fn all_ipv6() -> Cidr {
        Cidr { addr: IpAddress::Ipv6(Ipv6Addr { bits: 0 }), prefix: 0 }
    }
}

impl InterfaceModel {
    /// The medium carries the headers of a TCP segment: forty octets for IPv6, and
    /// twenty for TCP.
    pub open spec fn carries_segments(self) -> bool {
        self.ip_mtu >= 60
    }

    /// The address can be assigned on this medium.
    pub open spec fn takes(self, addr: IpAddress) -> bool {
        addr.assignable() && !(self.ethernet && addr is Ipv6 && addr.is_unspecified())
    }

    /// The address table has room for one more.
    pub open spec fn has_room(self) -> bool {
        self.addrs.len() < self.addr_capacity
    }

    /// With one more address, if the table has room.
    pub open spec fn with_addr(self, cidr: Cidr) -> InterfaceModel {
        if self.has_room() {
            InterfaceModel { addrs: self.addrs.push(cidr), ..self }
        } else {
            self
        }
    }

    /// With `via` as the only way to the whole of `network`, if the table has room.
    pub open spec fn with_route(self, network: Cidr, via: IpAddress) -> InterfaceModel {
        let others = without_first(self.routes, network);
        InterfaceModel {
            routes: if others.len() < self.route_capacity {
                others.push(Route { network, via })
            } else {
                others
            },
            ..self
        }
    }
}

/// `routes` without the first one to exactly `network`.
pub open spec fn without_first(routes: Seq<Route>, network: Cidr) -> Seq<Route>
    decreases routes.len(),
{
    if routes.len() == 0 {
        routes
    } else if routes[0].network == network {
        routes.skip(1)
    } else {
        seq![routes[0]] + without_first(routes.skip(1), network)
    }
}

/// What an interface is configured with.
pub uninterp spec fn interface_model(iface: Interface) -> InterfaceModel;

/// How many microseconds an interface may wait before it has to be polled again.
pub uninterp spec fn poll_delay_of(
    iface: Interface,
    now: i64,
    sockets: SocketSet<'static>,
) -> Option<u64>;

/// Calls `Interface::set_any_ip`.
#[verifier::external_body]
pub(crate) fn set_any_ip(iface: &mut Interface, any_ip: bool)
    ensures
        interface_model(*final(iface)) == (InterfaceModel {
            any_ip,
            ..interface_model(*old(iface))
        }),
{
    iface.set_any_ip(any_ip)
}

/// Calls `Interface::update_ip_addrs` to push one address to the end of the
/// address table, and tells whether it had room. The call panics if the prefix is
/// longer than the address, or the address cannot be assigned; on Ethernet, `::` is
/// such an address too, since it has no solicited-node group. No interface holds such
/// an address, so that those in the table already do not matter.
#[verifier::external_body]
pub(crate) fn push_ip_addr(iface: &mut Interface, addr: IpAddress, prefix: u8) -> (stored: bool)
    requires
        prefix <= addr.max_prefix(),
        interface_model(*old(iface)).takes(addr),
    ensures
        stored == interface_model(*old(iface)).has_room(),
        interface_model(*final(iface)) == interface_model(*old(iface)).with_addr(
            Cidr { addr, prefix },
        ),
{
    let addr = match addr {
        IpAddress::Ipv4(a) => smoltcp::wire::IpAddress::Ipv4(
            smoltcp::wire::Ipv4Address::from_bits(a.bits),
        ),
        IpAddress::Ipv6(a) => smoltcp::wire::IpAddress::Ipv6(
            smoltcp::wire::Ipv6Address::from_bits(a.bits),
        ),
    };
    let mut stored = false;
    iface.update_ip_addrs(
        |addrs| stored = addrs.push(smoltcp::wire::IpCidr::new(addr, prefix)).is_ok(),
    );
    stored
}

/// Calls `Routes::add_default_ipv4_route` on the routes of the interface. An
/// earlier default route gives way; where the table is full otherwise, the route
/// is not stored.
#[verifier::external_body]
pub(crate) fn add_default_ipv4_route(iface: &mut Interface, gateway: Ipv4Addr)
    ensures
        interface_model(*final(iface)) == interface_model(*old(iface)).with_route(
            Cidr::all_ipv4(),
            IpAddress::Ipv4(gateway),
        ),
{
    let gateway = smoltcp::wire::Ipv4Address::from_bits(gateway.bits);
    let _ = iface.routes_mut().add_default_ipv4_route(gateway);
}

/// Calls `Routes::add_default_ipv6_route` on the routes of the interface. An
/// earlier default route gives way; where the table is full otherwise, the route
/// is not stored.
#[verifier::external_body]
pub(crate) fn add_default_ipv6_route(iface: &mut Interface, gateway: Ipv6Addr)
    ensures
        interface_model(*final(iface)) == interface_model(*old(iface)).with_route(
            Cidr::all_ipv6(),
            IpAddress::Ipv6(gateway),
        ),
{
    let gateway = smoltcp::wire::Ipv6Address::from_bits(gateway.bits);
    let _ = iface.routes_mut().add_default_ipv6_route(gateway);
}

/// Calls `Interface::poll_delay`. What it returns follows from the state of the
/// interface and of its sockets and from the time; the configuration of the
/// interface stays as it is. Points in time are microseconds since an arbitrary
/// start. A medium that cannot carry the headers of a segment makes the call panic
/// where a TCP socket is active. So does a TCP socket that has received more than it
/// announced a window for, and has not announced another since, for the call measures
/// what is left of the window; one that has more to send than sequence numbers can
/// count; and one that gives up at a time that cannot be counted. Sockets that are
/// timeable do none of this.
#[verifier::external_body]
pub(crate) fn poll_delay(iface: &mut Interface, now: i64, sockets: &SocketSet<'static>) -> (delay:
    Option<u64>)
    requires
        now >= 0,
        interface_model(*old(iface)).carries_segments(),
        forall|h: SocketHandle| #[trigger] sockets_of(*sockets).contains_key(h) ==> (
        sockets_of(*sockets)[h] matches SocketModel::Tcp(t) ==> t.timeable()),
    ensures
        delay == poll_delay_of(*old(iface), now, *sockets),
        interface_model(*final(iface)) == interface_model(*old(iface)),
{
    let now = smoltcp::time::Instant::from_micros_const(now);
    match iface.poll_delay(now, sockets) {
        Some(delay) => Some(delay.total_micros()),
        None => None,
    }
}

} // verus!
