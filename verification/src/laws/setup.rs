//! What holds of the configuration and construction of a stack.

use vstd::prelude::*;

use crate::addr::{IpAddress, IpEndpoint, Ipv4Addr, Ipv6Addr};
use crate::builder::{
    all_unassigned, unassigned_ipv4, unassigned_ipv6, with_ipv4_addrs, with_ipv6_addrs,
    InterfaceConfig, NetstackBuilder, NetstackConfig, Unassigned,
};
use crate::engine::clock::whole_micros;
use crate::engine::interface::{interface_model, without_first, Cidr, InterfaceModel, Route};
use crate::engine::payload::octets;
use crate::engine::socket_set::sockets_of;
use crate::log::LogLevel;
use crate::model::{SocketId, StackModel};
use crate::state::{distinct_ids, lemma_socket_in_slot, Core};
use crate::InterfaceId;
use smoltcp::iface::{Interface, SocketHandle};

verus! {

// ---- routes --------------------------------------------------------------------

/// Taking out the way to one network leaves the ways to all others.
proof fn lemma_without_first(routes: Seq<Route>, network: Cidr)
    ensures
        without_first(routes, network).len() <= routes.len(),
        forall|r: Route|
            r.network != network ==> (#[trigger] without_first(routes, network).contains(r)
                <==> routes.contains(r)),
        forall|r: Route| #[trigger]
            without_first(routes, network).contains(r) ==> routes.contains(r),
    decreases routes.len(),
{
    if routes.len() > 0 {
        let first = routes[0];
        let rest = routes.skip(1);
        assert(routes =~= seq![first] + rest);
        assert forall|r: Route| routes.contains(r) <==> r == first || rest.contains(r) by {
            if routes.contains(r) && r != first {
                let i = routes.index_of(r);
                assert(rest[i - 1] == r);
            }
            if rest.contains(r) {
                assert(routes[rest.index_of(r) + 1] == r);
            }
            assert(routes[0] == first);
        }
        if first.network != network {
            lemma_without_first(rest, network);
            let others = without_first(rest, network);
            let all = seq![first] + others;
            assert forall|r: Route| all.contains(r) <==> r == first || others.contains(r) by {
                if all.contains(r) && r != first {
                    assert(others[all.index_of(r) - 1] == r);
                }
                if others.contains(r) {
                    assert(all[others.index_of(r) + 1] == r);
                }
                assert(all[0] == first);
            }
        }
    }
}

/// A way to a network is there once it is added, if the table has room, and the ways to all
/// other networks stay.
proof fn lemma_with_route(iface: InterfaceModel, network: Cidr, via: IpAddress)
    requires
        iface.routes.len() < iface.route_capacity,
    ensures
        ({
            let b = iface.with_route(network, via);
            &&& b == (InterfaceModel { routes: b.routes, ..iface })
            &&& b.routes.len() <= iface.routes.len() + 1
            &&& b.routes.contains(Route { network, via })
            &&& iface.routes.len() == 0 ==> b.routes == seq![Route { network, via }]
            &&& forall|r: Route|
                r.network != network ==> (#[trigger] b.routes.contains(r) <==> iface.routes.contains(
                    r,
                ))
        }),
{
    let others = without_first(iface.routes, network);
    let new = Route { network, via };
    lemma_without_first(iface.routes, network);
    let all = others.push(new);
    assert(all[others.len() as int] == new);
    assert forall|r: Route| r != new implies (all.contains(r) <==> others.contains(r)) by {
        if all.contains(r) {
            assert(others[all.index_of(r)] == r);
        }
        if others.contains(r) {
            assert(all[others.index_of(r)] == r);
        }
    }
    if iface.routes.len() == 0 {
        assert(all =~= seq![new]);
    }
}

/// Each version has a default route of its own, whatever is configured for the other: to its
/// gateway, or else to its first address; so packets for any destination find one. Ways to
/// other networks stay, and a version with neither gateway nor address gets no route.
pub proof fn each_version_has_its_default_route(config: InterfaceConfig, iface: InterfaceModel)
    requires
        iface.routes.len() + 2 <= iface.route_capacity,
    ensures
        ({
            let routes = config.applied_to(iface).routes;
            let ipv4 = Cidr { addr: IpAddress::Ipv4(Ipv4Addr { bits: 0 }), prefix: 0 };
            let ipv6 = Cidr { addr: IpAddress::Ipv6(Ipv6Addr { bits: 0 }), prefix: 0 };
            &&& config.ipv4_gateway matches Some(gw) ==> routes.contains(
                Route { network: ipv4, via: IpAddress::Ipv4(gw) },
            )
            &&& config.ipv4_gateway is None && config.ipv4_addrs@.len() > 0 ==> routes.contains(
                Route { network: ipv4, via: IpAddress::Ipv4(config.ipv4_addrs@[0].0) },
            )
            &&& config.ipv6_gateway matches Some(gw) ==> routes.contains(
                Route { network: ipv6, via: IpAddress::Ipv6(gw) },
            )
            &&& config.ipv6_gateway is None && config.ipv6_addrs@.len() > 0 ==> routes.contains(
                Route { network: ipv6, via: IpAddress::Ipv6(config.ipv6_addrs@[0].0) },
            )
            &&& forall|r: Route|
                {
                    ||| r.network != ipv4 && r.network != ipv6
                    ||| r.network == ipv4 && config.ipv4_gateway is None && config.ipv4_addrs@.len()
                        == 0
                    ||| r.network == ipv6 && config.ipv6_gateway is None && config.ipv6_addrs@.len()
                        == 0
                } ==> (#[trigger] routes.contains(r) <==> iface.routes.contains(r))
        }),
{
    let open = InterfaceModel { any_ip: true, ..iface };
    lemma_addrs(open, config.ipv4_addrs@, config.ipv6_addrs@);
    let addressed = with_ipv6_addrs(
        with_ipv4_addrs(open, config.ipv4_addrs@),
        config.ipv6_addrs@,
    );
    let ipv4 = Cidr { addr: IpAddress::Ipv4(Ipv4Addr { bits: 0 }), prefix: 0 };
    let ipv6 = Cidr { addr: IpAddress::Ipv6(Ipv6Addr { bits: 0 }), prefix: 0 };
    let routed = match config.ipv4_route() {
        Some(gw) => {
            lemma_with_route(addressed, ipv4, IpAddress::Ipv4(gw));
            addressed.with_route(ipv4, IpAddress::Ipv4(gw))
        },
        None => addressed,
    };
    if let Some(gw) = config.ipv6_route() {
        lemma_with_route(routed, ipv6, IpAddress::Ipv6(gw));
    }
}

/// A new interface gets at most the two default routes, and nothing else.
pub proof fn a_new_interface_has_only_default_routes(config: InterfaceConfig, iface: InterfaceModel)
    requires
        iface.routes.len() == 0,
        iface.route_capacity >= 2,
    ensures
        ({
            let routes = config.applied_to(iface).routes;
            let ipv4 = Cidr { addr: IpAddress::Ipv4(Ipv4Addr { bits: 0 }), prefix: 0 };
            let ipv6 = Cidr { addr: IpAddress::Ipv6(Ipv6Addr { bits: 0 }), prefix: 0 };
            &&& routes.len() <= 2
            &&& forall|i: int|
                0 <= i < routes.len() ==> {
                    let r = #[trigger] routes[i];
                    ||| r.network == ipv4 && (r.via matches IpAddress::Ipv4(a) && (
                    config.ipv4_gateway == Some(a) || config.ipv4_gateway is None
                        && config.ipv4_addrs@.len() > 0 && a == config.ipv4_addrs@[0].0))
                    ||| r.network == ipv6 && (r.via matches IpAddress::Ipv6(a) && (
                    config.ipv6_gateway == Some(a) || config.ipv6_gateway is None
                        && config.ipv6_addrs@.len() > 0 && a == config.ipv6_addrs@[0].0))
                }
        }),
{
    let open = InterfaceModel { any_ip: true, ..iface };
    lemma_addrs(open, config.ipv4_addrs@, config.ipv6_addrs@);
    let addressed = with_ipv6_addrs(
        with_ipv4_addrs(open, config.ipv4_addrs@),
        config.ipv6_addrs@,
    );
    let ipv4 = Cidr { addr: IpAddress::Ipv4(Ipv4Addr { bits: 0 }), prefix: 0 };
    let ipv6 = Cidr { addr: IpAddress::Ipv6(Ipv6Addr { bits: 0 }), prefix: 0 };
    let routed = match config.ipv4_route() {
        Some(gw) => {
            lemma_with_route(addressed, ipv4, IpAddress::Ipv4(gw));
            addressed.with_route(ipv4, IpAddress::Ipv4(gw))
        },
        None => addressed,
    };
    reveal_with_fuel(without_first, 3);
    if let Some(gw) = config.ipv6_route() {
        let others = without_first(routed.routes, ipv6);
        lemma_without_first(routed.routes, ipv6);
        assert forall|i: int| 0 <= i < others.len() implies (#[trigger] others[i]).network
            == ipv4 && others[i].via == IpAddress::Ipv4(config.ipv4_route()->0)
            && config.ipv4_route() is Some by {
            assert(others.contains(others[i]));
            assert(routed.routes.contains(others[i]));
        }
    }
}

// ---- addresses -----------------------------------------------------------------

/// The IPv4 addresses with their prefixes, as an interface has them.
pub open spec fn ipv4_cidrs(addrs: Seq<(Ipv4Addr, u8)>) -> Seq<Cidr> {
    addrs.map_values(|a: (Ipv4Addr, u8)| Cidr { addr: IpAddress::Ipv4(a.0), prefix: a.1 })
}

/// The IPv6 addresses with their prefixes, as an interface has them.
pub open spec fn ipv6_cidrs(addrs: Seq<(Ipv6Addr, u8)>) -> Seq<Cidr> {
    addrs.map_values(|a: (Ipv6Addr, u8)| Cidr { addr: IpAddress::Ipv6(a.0), prefix: a.1 })
}

/// How many of `n` addresses an interface has room for.
pub open spec fn fitting(iface: InterfaceModel, n: nat) -> int {
    let room = iface.addr_capacity - iface.addrs.len();
    if room <= 0 {
        0
    } else if room <= n {
        room
    } else {
        n as int
    }
}

/// Addresses and no room for them, one version after the other.
proof fn lemma_addrs(
    iface: InterfaceModel,
    v4: Seq<(Ipv4Addr, u8)>,
    v6: Seq<(Ipv6Addr, u8)>,
)
    ensures
        ({
            let one = with_ipv4_addrs(iface, v4);
            let both = with_ipv6_addrs(one, v6);
            &&& one == (InterfaceModel {
                addrs: iface.addrs + ipv4_cidrs(v4).take(fitting(iface, v4.len())),
                ..iface
            })
            &&& both == (InterfaceModel {
                addrs: one.addrs + ipv6_cidrs(v6).take(fitting(one, v6.len())),
                ..iface
            })
        }),
    decreases v4.len() + v6.len(),
{
    let one = with_ipv4_addrs(iface, v4);
    let both = with_ipv6_addrs(one, v6);
    let (c4, c6) = (ipv4_cidrs(v4), ipv6_cidrs(v6));
    if v6.len() > 0 {
        let fewer = v6.drop_last();
        lemma_addrs(iface, v4, fewer);
        assert(ipv6_cidrs(fewer) =~= c6.drop_last());
        let before = with_ipv6_addrs(one, fewer);
        let n = fitting(one, fewer.len());
        let more = fitting(one, v6.len());
        assert(c6.drop_last().take(n) =~= c6.take(n));
        if before.has_room() {
            assert(more == n + 1 == c6.len());
            assert((one.addrs + c6.take(n)).push(c6.last()) =~= one.addrs + c6.take(more));
        } else {
            assert(more == n);
        }
    } else if v4.len() > 0 {
        let fewer = v4.drop_last();
        lemma_addrs(iface, fewer, v6);
        assert(ipv4_cidrs(fewer) =~= c4.drop_last());
        let before = with_ipv4_addrs(iface, fewer);
        let n = fitting(iface, fewer.len());
        let more = fitting(iface, v4.len());
        assert(c4.drop_last().take(n) =~= c4.take(n));
        if before.has_room() {
            assert(more == n + 1 == c4.len());
            assert((iface.addrs + c4.take(n)).push(c4.last()) =~= iface.addrs + c4.take(more));
        } else {
            assert(more == n);
        }
        assert(both.addrs =~= one.addrs + c6.take(fitting(one, v6.len())));
    } else {
        assert(one.addrs =~= iface.addrs + c4.take(0));
        assert(both.addrs =~= one.addrs + c6.take(0));
    }
}

/// Those that there is no room for are the ones that come last.
proof fn lemma_unassigned(
    id: InterfaceId,
    iface: InterfaceModel,
    v4: Seq<(Ipv4Addr, u8)>,
    v6: Seq<(Ipv6Addr, u8)>,
)
    ensures
        unassigned_ipv4(id, iface, v4) == ipv4_cidrs(v4).skip(
            fitting(iface, v4.len()),
        ).map_values(|c: Cidr| Unassigned { interface: id, addr: c.addr, prefix: c.prefix }),
        unassigned_ipv6(id, iface, v6) == ipv6_cidrs(v6).skip(
            fitting(iface, v6.len()),
        ).map_values(|c: Cidr| Unassigned { interface: id, addr: c.addr, prefix: c.prefix }),
    decreases v4.len() + v6.len(),
{
    let tell = |c: Cidr| Unassigned { interface: id, addr: c.addr, prefix: c.prefix };
    let (c4, c6) = (ipv4_cidrs(v4), ipv6_cidrs(v6));
    if v4.len() > 0 {
        let fewer = v4.drop_last();
        lemma_unassigned(id, iface, fewer, Seq::empty());
        lemma_addrs(iface, fewer, Seq::empty());
        let n = fitting(iface, fewer.len());
        assert(ipv4_cidrs(fewer) =~= c4.drop_last());
        if with_ipv4_addrs(iface, fewer).has_room() {
            assert(c4.skip(fitting(iface, v4.len())) =~= Seq::empty());
            assert(c4.drop_last().skip(n) =~= Seq::empty());
            assert(unassigned_ipv4(id, iface, v4) =~= c4.skip(
                fitting(iface, v4.len()),
            ).map_values(tell));
        } else {
            assert(fitting(iface, v4.len()) == n);
            assert(c4.skip(n).map_values(tell) =~= c4.drop_last().skip(n).map_values(tell).push(
                tell(c4.last()),
            ));
        }
    } else {
        assert(unassigned_ipv4(id, iface, v4) =~= c4.skip(0).map_values(tell));
    }
    if v6.len() > 0 {
        let fewer = v6.drop_last();
        lemma_unassigned(id, iface, Seq::empty(), fewer);
        lemma_addrs(iface, Seq::empty(), fewer);
        let n = fitting(iface, fewer.len());
        assert(ipv6_cidrs(fewer) =~= c6.drop_last());
        assert(with_ipv4_addrs(iface, Seq::empty()) == iface);
        if with_ipv6_addrs(iface, fewer).has_room() {
            assert(c6.skip(fitting(iface, v6.len())) =~= Seq::empty());
            assert(c6.drop_last().skip(n) =~= Seq::empty());
            assert(unassigned_ipv6(id, iface, v6) =~= c6.skip(
                fitting(iface, v6.len()),
            ).map_values(tell));
        } else {
            assert(fitting(iface, v6.len()) == n);
            assert(c6.skip(n).map_values(tell) =~= c6.drop_last().skip(n).map_values(tell).push(
                tell(c6.last()),
            ));
        }
    } else {
        assert(unassigned_ipv6(id, iface, v6) =~= c6.skip(0).map_values(tell));
    }
}

/// The addresses are assigned in their order, the IPv4 ones first, as far as the table has
/// room, and those that it has no room for are told, in their order; each with its own
/// prefix.
pub proof fn addresses_are_assigned_or_told(
    id: InterfaceId,
    config: InterfaceConfig,
    iface: InterfaceModel,
)
    ensures
        ({
            let all = ipv4_cidrs(config.ipv4_addrs@) + ipv6_cidrs(config.ipv6_addrs@);
            let n = fitting(iface, all.len());
            &&& config.applied_to(iface).addrs == iface.addrs + all.take(n)
            &&& config.unassigned(id, iface) == all.skip(n).map_values(
                |c: Cidr| Unassigned { interface: id, addr: c.addr, prefix: c.prefix },
            )
        }),
{
    let open = InterfaceModel { any_ip: true, ..iface };
    let (v4, v6) = (config.ipv4_addrs@, config.ipv6_addrs@);
    let (c4, c6) = (ipv4_cidrs(v4), ipv6_cidrs(v6));
    let all = c4 + c6;
    let n = fitting(iface, all.len());
    let tell = |c: Cidr| Unassigned { interface: id, addr: c.addr, prefix: c.prefix };
    lemma_addrs(open, v4, v6);
    lemma_addrs(iface, v4, v6);
    lemma_unassigned(id, iface, v4, v6);
    let one = with_ipv4_addrs(iface, v4);
    lemma_unassigned(id, one, v4, v6);
    let (n4, n6) = (fitting(iface, v4.len()), fitting(one, v6.len()));
    assert(c4.take(n4) + c6.take(n6) =~= all.take(n));
    assert(c4.skip(n4).map_values(tell) + c6.skip(n6).map_values(tell) =~= all.skip(n).map_values(
        tell,
    ));
    assert(config.applied_to(iface).addrs =~= iface.addrs + all.take(n));
}

/// Configuring an interface sets nothing but its addresses, its routes, and that it accepts
/// packets for any address.
pub proof fn configuring_changes_nothing_else(config: InterfaceConfig, iface: InterfaceModel)
    ensures
        ({
            let b = config.applied_to(iface);
            b == (InterfaceModel { addrs: b.addrs, routes: b.routes, any_ip: true, ..iface })
        }),
{
    let open = InterfaceModel { any_ip: true, ..iface };
    lemma_addrs(open, config.ipv4_addrs@, config.ipv6_addrs@);
}

/// The addresses that could not be assigned are told interface by interface.
pub proof fn unassigned_addresses_are_told_in_order(
    interfaces: Seq<(InterfaceId, InterfaceConfig)>,
    ifaces: Seq<Interface>,
)
    requires
        ifaces.len() == interfaces.len(),
    ensures
        all_unassigned(interfaces, ifaces) == Seq::new(
            interfaces.len(),
            |i: int| interfaces[i].1.unassigned(interfaces[i].0, interface_model(ifaces[i])),
        ).flatten(),
    decreases interfaces.len(),
{
    let each = |i: int| interfaces[i].1.unassigned(interfaces[i].0, interface_model(ifaces[i]));
    let all = Seq::new(interfaces.len(), each);
    if interfaces.len() > 0 {
        let (a, b) = (interfaces.drop_last(), ifaces.drop_last());
        unassigned_addresses_are_told_in_order(a, b);
        let fewer = Seq::new(
            a.len(),
            |i: int| a[i].1.unassigned(a[i].0, interface_model(b[i])),
        );
        assert(all =~= fewer.push(all.last()));
        fewer.lemma_flatten_push(all.last());
    }
}

/// Exactly those configurations are valid whose addresses are neither multicast nor
/// broadcast addresses and whose prefixes are no longer than an address.
pub proof fn valid_addresses_can_be_assigned(config: InterfaceConfig, iface: InterfaceModel)
    ensures
        config.valid() <==> {
            &&& forall|i: int|
                0 <= i < config.ipv4_addrs@.len() ==> {
                    let (addr, prefix) = #[trigger] config.ipv4_addrs@[i];
                    prefix <= 32 && addr.bits < 0xffff_ffff && (addr.bits < 0xe000_0000 || addr.bits
                        > 0xefff_ffff)
                }
            &&& forall|i: int|
                0 <= i < config.ipv6_addrs@.len() ==> {
                    let (addr, prefix) = #[trigger] config.ipv6_addrs@[i];
                    prefix <= 128 && addr.bits < 0xff00_0000_0000_0000_0000_0000_0000_0000
                }
        },
        config.fits(iface) <==> config.valid() && (iface.ethernet ==> forall|i: int|
            0 <= i < config.ipv6_addrs@.len() ==> (#[trigger] config.ipv6_addrs@[i]).0.bits != 0),
{
    if config.valid() {
        assert forall|i: int| 0 <= i < config.ipv4_addrs@.len() implies {
            let (addr, prefix) = #[trigger] config.ipv4_addrs@[i];
            prefix <= 32 && addr.bits < 0xffff_ffff && (addr.bits < 0xe000_0000 || addr.bits
                > 0xefff_ffff)
        } by {
            assert(crate::builder::ipv4_assignable(config.ipv4_addrs@[i]));
        }
        assert forall|i: int| 0 <= i < config.ipv6_addrs@.len() implies {
            let (addr, prefix) = #[trigger] config.ipv6_addrs@[i];
            prefix <= 128 && addr.bits < 0xff00_0000_0000_0000_0000_0000_0000_0000
        } by {
            assert(crate::builder::ipv6_assignable(config.ipv6_addrs@[i]));
        }
    }
}

/// A builder knows the identifiers of the interfaces that were added to it, and no others;
/// it is valid where all of them are.
pub proof fn builders_know_their_interfaces(builder: NetstackBuilder, id: InterfaceId)
    ensures
        builder.registered(id) <==> exists|i: int|
            0 <= i < builder.interfaces().len() && (#[trigger] builder.interfaces()[i]).0 == id,
        builder.valid() <==> forall|i: int|
            0 <= i < builder.interfaces().len() ==> (#[trigger] builder.interfaces()[i]).1.valid(),
{
}

// ---- parameters ----------------------------------------------------------------

/// What sockets are charged for: both buffers of a TCP socket, of the configured size each;
/// both buffers of a UDP socket, each with 64 octets for every datagram that it has a
/// record for, at least one, and its octets of payload, at least one packet of full size.
pub proof fn sockets_are_charged_for_both_buffers(config: NetstackConfig, dst: IpEndpoint)
    ensures
        config.tcp_cost() == 2 * config.tcp_buffer_size,
        ({
            let packets = if config.udp_buffer_packets == 0 {
                1int
            } else {
                config.udp_buffer_packets as int
            };
            let bytes = if config.udp_buffer_bytes < config.mtu {
                config.mtu as int
            } else {
                config.udp_buffer_bytes as int
            };
            let socket = config.udp_socket_at(dst);
            &&& config.udp_packets() == packets
            &&& config.udp_bytes() == bytes
            &&& config.udp_cost() == 2 * (packets * 64 + bytes)
            &&& socket.local.addr == Some(dst.addr) && socket.local.port == dst.port
            &&& socket.rx_packets == packets && socket.tx_packets == packets
            &&& socket.rx.len() == 0 && socket.tx.len() == 0
            &&& socket.tx_room matches Some(room) && room == bytes
        }),
{
}

/// Without a cap, any total that can be counted is admitted; with one, any that does not
/// exceed it. So a smaller total is admitted where a larger one is.
pub proof fn the_cap_is_a_cap(config: NetstackConfig, bytes: nat, fewer: nat)
    requires
        bytes <= usize::MAX,
    ensures
        config.max_buffer_bytes is None ==> config.admits(bytes),
        config.max_buffer_bytes matches Some(limit) ==> (config.admits(bytes) <==> bytes <= limit),
        config.admits(bytes) && fewer <= bytes ==> config.admits(fewer),
        !config.admits(usize::MAX as nat + 1),
{
}

/// What is accounted for is what the sockets take, to the octet.
pub proof fn the_account_is_exact(m: StackModel)
    requires
        m.wf(),
    ensures
        m.buffer_bytes == m.tcp.len() * (2 * m.config.tcp_buffer_size) + m.shared.len()
            * m.config.udp_cost(),
        m.config.max_buffer_bytes matches Some(limit) ==> m.buffer_bytes <= limit,
{
}

/// The parameters can be met where the receive buffer of a TCP socket is at most a gibibyte,
/// or the cap keeps all TCP sockets out; and the timeout can be measured where it is less
/// than two to the sixty-fourth microseconds.
pub proof fn parameters_can_be_met_or_not(config: NetstackConfig)
    ensures
        config.allocatable() <==> config.tcp_buffer_size <= 0x4000_0000 || !config.admits(
            2 * config.tcp_buffer_size as nat,
        ),
        config.udp_timeout() == whole_micros(config.udp_session_timeout),
        config.measurable() <==> whole_micros(config.udp_session_timeout) <= u64::MAX,
{
}

/// The default parameters: packets of 1500 octets, TCP buffers of 16 KiB, UDP buffers of 16
/// datagrams and 16 KiB, 4096 sessions of either protocol, a timeout of thirty seconds,
/// queues of 2048 packets, level `Info`, and no cap.
pub proof fn the_default_parameters(config: NetstackConfig)
    requires
        config.is_default(),
    ensures
        config.mtu == 1500,
        config.tcp_buffer_size == 16384,
        config.tcp_max_connections == 4096,
        whole_micros(config.udp_session_timeout) == 30_000_000,
        config.udp_max_sessions == 4096,
        config.channel_capacity == 2048,
        config.log_level == LogLevel::Info,
        config.udp_buffer_packets == 16,
        config.udp_buffer_bytes == 16384,
        config.max_buffer_bytes is None,
{
}

/// The levels, from the one that lets nothing through to the one that lets everything
/// through.
pub proof fn the_order_of_levels()
    ensures
        LogLevel::Off.rank() < LogLevel::Error.rank(),
        LogLevel::Error.rank() < LogLevel::Warning.rank(),
        LogLevel::Warning.rank() < LogLevel::Info.rank(),
        LogLevel::Info.rank() < LogLevel::Debug.rank(),
{
}

// ---- the state and its model ---------------------------------------------------

/// The model of a stack says what its parts hold: its tables, its account, its
/// configuration, and of each interface its identifier and the octets of the packets that
/// wait.
pub proof fn the_model_is_what_the_state_holds(core: Core, i: int, n: int)
    requires
        0 <= i < core.slots@.len(),
    ensures
        core@.tcp == core.manager.tcp@,
        core@.udp == core.manager.udp@,
        core@.shared == core.manager.udp_dst_sockets@,
        core@.queues == core.manager.queues@,
        core@.config == core.config,
        core@.buffer_bytes == core.buffer_bytes,
        core@.links.len() == core.slots@.len(),
        core@.links[i].id == core.slots@[i].id,
        core@.links[i].iface == core.slots@[i].iface,
        core@.links[i].device.mtu == core.slots@[i].device.mtu,
        core@.links[i].device.ingress.len() == core.slots@[i].device.ingress@.len(),
        core@.links[i].device.egress.len() == core.slots@[i].device.egress@.len(),
        0 <= n < core.slots@[i].device.ingress@.len() ==> core@.links[i].device.ingress[n] == octets(
            core.slots@[i].device.ingress@[n],
        ),
        0 <= n < core.slots@[i].device.egress@.len() ==> core@.links[i].device.egress[n] == octets(
            core.slots@[i].device.egress@[n],
        ),
{
}

/// The model has the sockets of each interface, under the interface and their handles, with
/// what they hold; and no others.
pub proof fn the_model_has_the_sockets_of_the_interfaces(
    core: Core,
    i: int,
    handle: SocketHandle,
)
    requires
        core.wf(),
        0 <= i < core.slots@.len(),
    ensures
        ({
            let id = SocketId { interface: core.slots@[i].id, handle };
            let here = sockets_of(core.slots@[i].sockets);
            &&& core@.sockets.contains_key(id) <==> here.contains_key(handle)
            &&& here.contains_key(handle) ==> core@.sockets[id] == here[handle]
        }),
{
    assert(distinct_ids(core.slots@));
    lemma_socket_in_slot(core.slots@, i, handle);
}

} // verus!
