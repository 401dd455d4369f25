//! Building a stack, and what its rounds do without a peer.

use std::time::Duration;

use bytes::Bytes;
use smoltcp::iface::{Config, Interface};
use smoltcp::phy::{Loopback, Medium};
use smoltcp::socket::udp;
use smoltcp::time::Instant;
use smoltcp::wire::HardwareAddress;
use way_netstack::addr::{IpAddress, IpEndpoint, Ipv4Addr, Ipv6Addr};
use way_netstack::admission::Refusal;
use way_netstack::builder::{InterfaceConfig, NetstackBuilder, NetstackConfig, Unassigned};
use way_netstack::error::NetstackError;
use way_netstack::flow::L4;
use way_netstack::handle::IngressPacket;
use way_netstack::log::LogLevel;
use way_netstack::runner::post::post_pass;
use way_netstack::runner::pre::{alloc_tcp, alloc_udp, open_session, pre_pass, Opening};
use way_netstack::runner::{collect_egress, next_poll_delay, queue_ingress, sleep_micros};
use way_netstack::session::types::{Proto, SessionKey};
use way_netstack::session::Session;
use way_netstack::state::Core;
use way_netstack::stream::tcp::{ReadOutcome, WayTcpStream, WriteOutcome};
use way_netstack::stream::udp::{SendOutcome, WayUdpSession};
use way_netstack::InterfaceId;

fn id(raw: u16) -> InterfaceId {
    InterfaceId::new(raw).unwrap()
}

fn v4(a: u8, b: u8, c: u8, d: u8) -> Ipv4Addr {
    Ipv4Addr { bits: u32::from_be_bytes([a, b, c, d]) }
}

fn endpoint(addr: Ipv4Addr, port: u16) -> IpEndpoint {
    IpEndpoint { addr: IpAddress::Ipv4(addr), port }
}

fn iface() -> Interface {
    let mut device = Loopback::new(Medium::Ip);
    Interface::new(Config::new(HardwareAddress::Ip), &mut device, Instant::from_millis(0))
}

fn add(builder: NetstackBuilder, raw: u16, config: InterfaceConfig) -> NetstackBuilder {
    match builder.add_interface(id(raw), config) {
        Ok(builder) => builder,
        Err(e) => panic!("cannot add interface: {e:?}"),
    }
}

fn build(builder: NetstackBuilder) -> Core {
    assert!(builder.is_valid());
    let ifaces = (0..builder.interface_count()).map(|_| iface()).collect();
    match builder.build(ifaces, &mut Vec::new()) {
        Ok(core) => core,
        Err(e) => panic!("cannot build: {e:?}"),
    }
}

fn udp_session(core: &mut Core, src: u16) -> WayUdpSession {
    match alloc_udp(core, 0, udp_key(src, 53), 0) {
        Some(Session::Udp(session)) => session,
        _ => panic!("must be allocated"),
    }
}

fn single(builder: NetstackBuilder) -> Core {
    build(add(builder, 5, InterfaceConfig::new(v4(10, 0, 0, 1), 24)))
}

fn tcp_key(port: u16) -> SessionKey {
    let src = endpoint(v4(10, 0, 0, 2), 4000);
    SessionKey::new(id(5), Proto::Tcp, src, endpoint(v4(1, 2, 3, 4), port))
}

fn udp_key(src: u16, port: u16) -> SessionKey {
    let src = endpoint(v4(10, 0, 0, 2), src);
    SessionKey::new(id(5), Proto::Udp, src, endpoint(v4(8, 8, 8, 8), port))
}

#[test]
fn default_parameters() {
    let config = NetstackConfig::default();
    assert_eq!(config.mtu, 1500);
    assert_eq!(config.tcp_buffer_size, 16384);
    assert_eq!(config.tcp_max_connections, 4096);
    assert_eq!(config.udp_session_timeout, Duration::from_secs(30));
    assert_eq!(config.udp_max_sessions, 4096);
    assert_eq!(config.channel_capacity, 2048);
    assert_eq!(config.log_level, LogLevel::Info);
    assert_eq!(config.udp_buffer_packets, 16);
    assert_eq!(config.udp_buffer_bytes, 16384);
    assert_eq!(config.max_buffer_bytes, None);
    assert!(config.is_supported());
}

#[test]
fn parameters_are_set_one_by_one() {
    let builder = NetstackBuilder::new()
        .mtu(1)
        .tcp_buffer_size(2)
        .tcp_max_connections(3)
        .udp_session_timeout(Duration::from_secs(4))
        .udp_max_sessions(5)
        .channel_capacity(6)
        .log_level(LogLevel::Debug)
        .udp_buffer(7, 8)
        .max_buffer_bytes(Some(9));
    let config = builder.parameters();
    assert_eq!(config.mtu, 1);
    assert_eq!(config.tcp_buffer_size, 2);
    assert_eq!(config.tcp_max_connections, 3);
    assert_eq!(config.udp_session_timeout, Duration::from_secs(4));
    assert_eq!(config.udp_max_sessions, 5);
    assert_eq!(config.queue_capacity(), 6);
    assert_eq!(config.log_level, LogLevel::Debug);
    assert_eq!(config.udp_buffer_packets, 7);
    assert_eq!(config.udp_buffer_bytes, 8);
    assert_eq!(config.max_buffer_bytes, Some(9));
    let config = NetstackConfig { channel_capacity: 0, ..*config };
    assert_eq!(config.queue_capacity(), 1);
}

#[test]
fn parameters_that_cannot_be_met_are_told() {
    let base = NetstackConfig::default();
    let gib: usize = 1 << 30;
    assert!(NetstackConfig { tcp_buffer_size: gib, ..base }.is_supported());
    assert!(!NetstackConfig { tcp_buffer_size: gib + 1, ..base }.is_supported());
    // What cannot be counted is never allocated.
    assert!(NetstackConfig { udp_buffer_packets: usize::MAX, ..base }.is_supported());
    assert!(NetstackConfig { tcp_buffer_size: usize::MAX, ..base }.is_supported());
    // What the cap rules out is never allocated.
    let capped = NetstackConfig { max_buffer_bytes: Some(20_000), ..base };
    assert!(NetstackConfig { tcp_buffer_size: gib + 1, ..capped }.is_supported());
    assert!(NetstackConfig { tcp_buffer_size: usize::MAX, ..capped }.is_supported());
    let longest = Duration::from_micros(u64::MAX);
    assert!(NetstackConfig { udp_session_timeout: longest, ..base }.is_supported());
    let longer = longest + Duration::from_micros(1);
    assert!(!NetstackConfig { udp_session_timeout: longer, ..base }.is_supported());
}

#[test]
fn an_interface_is_registered_once() {
    let builder = add(NetstackBuilder::new(), 1, InterfaceConfig::new(v4(10, 0, 0, 1), 24));
    let builder = add(builder, 2, InterfaceConfig::default());
    assert_eq!(builder.interface_count(), 2);
    match builder.add_interface(id(1), InterfaceConfig::default()) {
        Err(NetstackError::InterfaceNotFound(twice)) => assert_eq!(twice, id(1)),
        _ => panic!("must be refused"),
    }
}

#[test]
fn addresses_that_cannot_be_assigned_are_told() {
    let ok = || InterfaceConfig::new(v4(10, 0, 0, 1), 32);
    assert!(ok().is_valid());
    assert!(!ok().ipv4(v4(10, 0, 0, 1), 33).is_valid());
    assert!(!ok().ipv4(v4(224, 0, 0, 1), 24).is_valid());
    assert!(!ok().ipv4(v4(239, 255, 255, 255), 24).is_valid());
    assert!(ok().ipv4(v4(240, 0, 0, 0), 24).is_valid());
    assert!(!ok().ipv4(v4(255, 255, 255, 255), 24).is_valid());
    assert!(ok().ipv4(v4(0, 0, 0, 0), 0).is_valid());
    assert!(ok().ipv6(Ipv6Addr { bits: 1 }, 128).is_valid());
    assert!(!ok().ipv6(Ipv6Addr { bits: 1 }, 129).is_valid());
    assert!(!ok().ipv6(Ipv6Addr { bits: 0xff02 << 112 }, 64).is_valid());
    let bad = InterfaceConfig::new(v4(10, 0, 0, 1), 33);
    assert!(!add(NetstackBuilder::new(), 1, bad).is_valid());
}

#[test]
fn interfaces_are_configured() {
    let config = InterfaceConfig::new_ipv6(Ipv6Addr { bits: 0x2001 << 112 }, 64)
        .ipv4(v4(10, 0, 0, 1), 24)
        .gateway_ipv6(Ipv6Addr { bits: 7 });
    let core = build(add(NetstackBuilder::new().mtu(900), 9, config));
    let slot = core.slot(id(9)).unwrap();
    assert!(slot.iface.any_ip());
    let addrs: Vec<String> = slot.iface.ip_addrs().iter().map(|a| format!("{a}")).collect();
    assert_eq!(addrs, ["10.0.0.1/24", "2001::/64"]);
    assert_eq!(slot.mtu(), 900);
    assert_eq!(slot.buffer_size(), 16384);
    assert_eq!(slot.device.mtu, 900);
    assert_eq!(core.buffer_bytes, 0);
    assert!(core.slot(id(8)).is_none());
}

#[test]
fn default_routes_lead_to_the_gateway_or_the_first_address() {
    for (config, expected) in [
        (InterfaceConfig::new(v4(10, 0, 0, 1), 24).ipv4(v4(10, 0, 0, 9), 24), v4(10, 0, 0, 1)),
        (InterfaceConfig::new(v4(10, 0, 0, 1), 24).gateway_ipv4(v4(10, 0, 0, 7)), v4(10, 0, 0, 7)),
    ] {
        let mut core = build(add(NetstackBuilder::new(), 1, config));
        let mut found = Vec::new();
        core.slot_mut(id(1)).unwrap().iface.routes_mut().update(|routes| {
            for route in routes.iter() {
                found.push(format!("{} via {}", route.cidr, route.via_router));
            }
        });
        let [a, b, c, d] = expected.bits.to_be_bytes();
        assert_eq!(found, [format!("0.0.0.0/0 via {a}.{b}.{c}.{d}")]);
    }
}

#[test]
fn addresses_that_the_table_has_no_room_for_are_left_out() {
    let config = InterfaceConfig::new(v4(10, 0, 0, 1), 24)
        .ipv4(v4(10, 0, 0, 2), 24)
        .ipv4(v4(10, 0, 0, 3), 16)
        .ipv6(Ipv6Addr { bits: 1 }, 64);
    let builder = add(NetstackBuilder::new(), 1, config);
    let mut unassigned = Vec::new();
    let core = builder.build(vec![iface()], &mut unassigned).unwrap();
    let addrs: Vec<String> =
        core.slots[0].iface.ip_addrs().iter().map(|a| format!("{a}")).collect();
    assert_eq!(addrs, ["10.0.0.1/24", "10.0.0.2/24"]);
    let expected = [
        Unassigned { interface: id(1), addr: IpAddress::Ipv4(v4(10, 0, 0, 3)), prefix: 16 },
        Unassigned { interface: id(1), addr: IpAddress::Ipv6(Ipv6Addr { bits: 1 }), prefix: 64 },
    ];
    assert_eq!(unassigned, expected);
}

#[test]
fn the_budget_is_charged_and_given_back() {
    let mut core = single(NetstackBuilder::new().max_buffer_bytes(Some(100)));
    assert!(core.reserve_buffer(60));
    assert!(!core.reserve_buffer(41));
    assert_eq!(core.buffer_bytes, 60);
    assert!(core.reserve_buffer(40));
    core.release_buffer(30);
    assert_eq!(core.buffer_bytes, 70);
    core.release_buffer(71);
    assert_eq!(core.buffer_bytes, 0);
}

#[test]
fn what_cannot_be_counted_is_not_charged() {
    for limit in [Some(10), None] {
        let mut core = single(NetstackBuilder::new().max_buffer_bytes(limit));
        assert!(core.reserve_buffer(1));
        assert!(!core.reserve_buffer(usize::MAX));
        assert_eq!(core.buffer_bytes, 1);
    }
}

#[test]
fn packets_for_unknown_interfaces_are_dropped() {
    let mut core = single(NetstackBuilder::new().mtu(4));
    let packet = |raw, data| IngressPacket { interface: id(raw), data: Bytes::from_static(data) };
    assert!(!queue_ingress(&mut core, packet(6, b"abc")));
    assert!(core.slots[0].device.ingress.is_empty());
    assert!(queue_ingress(&mut core, packet(5, b"abc")));
    assert!(queue_ingress(&mut core, packet(5, b"too large")));
    assert!(queue_ingress(&mut core, packet(5, b"d")));
    assert_eq!(core.slots[0].device.ingress, ["abc", "d"]);
}

#[test]
fn egress_is_collected_interface_by_interface() {
    let builder = add(NetstackBuilder::new(), 1, InterfaceConfig::new(v4(10, 0, 0, 1), 24));
    let builder = add(builder, 2, InterfaceConfig::new(v4(10, 0, 1, 1), 24));
    let mut core = build(builder);
    core.slots[1].device.push_egress(Bytes::from_static(b"x"));
    core.slots[0].device.push_egress(Bytes::from_static(b"y"));
    core.slots[1].device.push_egress(Bytes::from_static(b"z"));
    let packets = collect_egress(&mut core);
    let seen: Vec<(u16, &[u8])> =
        packets.iter().map(|p| (p.interface_id.get(), &p.data[..])).collect();
    assert_eq!(seen, [(1, &b"y"[..]), (2, &b"x"[..]), (2, &b"z"[..])]);
    assert!(collect_egress(&mut core).is_empty());
}

#[test]
fn the_runner_sleeps_until_the_next_poll() {
    assert_eq!(sleep_micros(Some(5)), 5);
    assert_eq!(sleep_micros(Some(0)), 0);
    assert_eq!(sleep_micros(None), 3_600_000_000);
    let mut core = single(NetstackBuilder::new());
    assert_eq!(next_poll_delay(&mut core, 10), None);
    // A session is to be reclaimed when it has been silent for the timeout.
    let session = udp_session(&mut core, 9000);
    assert_eq!(next_poll_delay(&mut core, 10), Some(29_999_990));
    assert_eq!(next_poll_delay(&mut core, 30_000_000), Some(0));
    assert_eq!(next_poll_delay(&mut core, 40_000_000), Some(0));
    // A datagram that waits to be sent is due at once.
    let data = Bytes::from_static(b"reply");
    assert!(matches!(session.send(&mut core, &data, 10), SendOutcome::Sent));
    assert_eq!(next_poll_delay(&mut core, 10), Some(0));
}

#[test]
fn the_first_session_to_fall_silent_counts() {
    let mut core = single(NetstackBuilder::new().udp_session_timeout(Duration::from_micros(100)));
    assert!(alloc_udp(&mut core, 0, udp_key(9000, 53), 50).is_some());
    assert!(alloc_udp(&mut core, 0, udp_key(9001, 53), 20).is_some());
    assert!(alloc_udp(&mut core, 0, udp_key(9002, 53), 70).is_some());
    assert_eq!(next_poll_delay(&mut core, 80), Some(40));
    // Before a session was active, so to speak.
    assert_eq!(next_poll_delay(&mut core, 10), Some(110));
}

#[test]
fn tcp_sessions_are_allocated_within_the_budget() {
    let mut core = single(NetstackBuilder::new().tcp_buffer_size(50).max_buffer_bytes(Some(100)));
    assert!(alloc_tcp(&mut core, 0, tcp_key(0)).is_none());
    assert_eq!(core.buffer_bytes, 0);
    assert!(alloc_tcp(&mut core, 0, tcp_key(80)).is_some());
    assert_eq!(core.buffer_bytes, 100);
    assert!(alloc_tcp(&mut core, 0, tcp_key(81)).is_none());
    assert_eq!(core.buffer_bytes, 100);
    assert_eq!(core.manager.tcp.len(), 1);
    let entry = core.manager.get_tcp(&tcp_key(80)).unwrap();
    assert!(!entry.orphaned);
}

#[test]
fn what_the_cap_rules_out_is_not_allocated() {
    let builder = NetstackBuilder::new().tcp_buffer_size(1 << 31).max_buffer_bytes(Some(20_000));
    let mut core = single(builder);
    assert!(core.config.is_supported());
    assert!(alloc_tcp(&mut core, 0, tcp_key(80)).is_none());
    assert_eq!(core.buffer_bytes, 0);
}

#[test]
fn what_cannot_be_counted_is_not_allocated() {
    let builder = NetstackBuilder::new().tcp_buffer_size(usize::MAX).udp_buffer(usize::MAX, 1);
    let mut core = single(builder);
    assert!(core.config.is_supported());
    assert!(alloc_tcp(&mut core, 0, tcp_key(80)).is_none());
    assert!(alloc_udp(&mut core, 0, udp_key(9000, 53), 0).is_none());
    assert_eq!(core.buffer_bytes, 0);
}

#[test]
fn udp_sessions_are_allocated_within_the_budget() {
    let cost = 2 * (2 * 64 + 1500);
    let mut core = single(NetstackBuilder::new().udp_buffer(2, 10).max_buffer_bytes(Some(cost)));
    assert!(alloc_udp(&mut core, 0, udp_key(9000, 53), 7).is_some());
    assert_eq!(core.buffer_bytes, cost);
    assert!(alloc_udp(&mut core, 0, udp_key(9000, 54), 7).is_none());
    assert!(alloc_udp(&mut core, 0, udp_key(9001, 53), 8).is_some());
    assert_eq!(core.buffer_bytes, cost);
    assert_eq!(core.manager.get_udp(&udp_key(9001, 53)).unwrap().last_activity, 8);
}

#[test]
fn both_buffers_of_a_udp_socket_count() {
    for (cap, fits) in [(17_408, false), (34_815, false), (34_816, true)] {
        let mut core = single(NetstackBuilder::new().max_buffer_bytes(Some(cap)));
        assert_eq!(alloc_udp(&mut core, 0, udp_key(9000, 53), 0).is_some(), fits);
        assert_eq!(core.slots[0].sockets.iter().count(), fits as usize);
    }
}

#[test]
fn a_udp_socket_has_the_configured_number_of_records() {
    let mut core = single(NetstackBuilder::new().udp_buffer(5, 2000));
    let session = udp_session(&mut core, 9000);
    let socket = core.slots[0].sockets.get::<udp::Socket>(session.socket);
    assert_eq!(socket.packet_recv_capacity(), 5);
    assert_eq!(socket.packet_send_capacity(), 5);
    assert_eq!(socket.payload_send_capacity(), 2000);
}

#[test]
fn a_udp_buffer_has_at_least_one_record() {
    let mut core = single(NetstackBuilder::new().udp_buffer(0, 2000));
    assert!(alloc_udp(&mut core, 0, udp_key(9000, 53), 0).is_some());
    assert_eq!(core.buffer_bytes, 2 * (64 + 2000));
}

#[test]
fn a_socket_that_cannot_be_bound_costs_nothing() {
    let mut core = single(NetstackBuilder::new());
    assert!(alloc_udp(&mut core, 0, udp_key(9000, 0), 0).is_none());
    assert_eq!(core.buffer_bytes, 0);
    assert_eq!(core.manager.udp.len(), 0);
    assert_eq!(core.manager.udp_dst_sockets.len(), 0);
    assert_eq!(core.slots[0].sockets.iter().count(), 0);
}

#[test]
fn known_flows_open_nothing() {
    let mut core = single(NetstackBuilder::new());
    let key = udp_key(9000, 53);
    let flow = Some((key.src, key.dst, L4::Udp));
    assert!(matches!(open_session(&mut core, 0, flow, 1), Opening::Udp(Session::Udp(_))));
    assert!(matches!(open_session(&mut core, 0, flow, 2), Opening::Unneeded));
    assert_eq!(core.manager.get_udp(&key).unwrap().last_activity, 1);
    let key = tcp_key(80);
    let segment = |syn| Some((key.src, key.dst, L4::Tcp { syn }));
    assert!(matches!(open_session(&mut core, 0, segment(false), 1), Opening::Unneeded));
    assert_eq!(core.manager.tcp.len(), 0);
    assert!(matches!(open_session(&mut core, 0, segment(true), 1), Opening::Tcp));
    assert_eq!(core.manager.tcp.len(), 1);
    assert!(matches!(open_session(&mut core, 0, segment(true), 1), Opening::Unneeded));
    assert_eq!(core.manager.tcp.len(), 1);
    assert!(matches!(open_session(&mut core, 0, None, 1), Opening::Unneeded));
}

fn refusal(core: &mut Core, key: SessionKey) -> Refusal {
    let l4 = if key.proto == Proto::Tcp { L4::Tcp { syn: true } } else { L4::Udp };
    match open_session(core, 0, Some((key.src, key.dst, l4)), 1) {
        Opening::Refused(refused) => {
            assert_eq!(refused.key, key);
            assert_eq!(
                refused.withheld(),
                key.proto == Proto::Tcp
                    && matches!(refused.reason, Refusal::Limit | Refusal::Budget)
            );
            refused.reason
        }
        _ => panic!("must be refused"),
    }
}

#[test]
fn refusals_say_why() {
    let mut core = single(NetstackBuilder::new().tcp_max_connections(0).udp_max_sessions(0));
    assert_eq!(refusal(&mut core, tcp_key(80)), Refusal::Limit);
    assert_eq!(refusal(&mut core, udp_key(9000, 53)), Refusal::Limit);
    let mut core = single(NetstackBuilder::new().max_buffer_bytes(Some(10)));
    assert_eq!(refusal(&mut core, tcp_key(80)), Refusal::Budget);
    assert_eq!(refusal(&mut core, udp_key(9000, 53)), Refusal::Budget);
    assert_eq!(refusal(&mut core, udp_key(9000, 0)), Refusal::Budget);
    let mut core = single(NetstackBuilder::new());
    assert_eq!(refusal(&mut core, tcp_key(0)), Refusal::PortZero);
    assert_eq!(refusal(&mut core, udp_key(9000, 0)), Refusal::PortZero);
    assert!(alloc_tcp(&mut core, 0, tcp_key(80)).is_some());
    let src = endpoint(v4(10, 0, 0, 3), 4000);
    let second = SessionKey { src, ..tcp_key(80) };
    assert_eq!(refusal(&mut core, second), Refusal::Occupied);
    assert_eq!(core.manager.tcp.len(), 1);
}

#[test]
fn a_second_look_at_the_same_packets_opens_nothing() {
    let mut core = single(NetstackBuilder::new());
    let datagram = [
        0x45, 0, 0, 29, 0, 0, 0, 0, 64, 17, 0, 0, 10, 0, 0, 2, 8, 8, 8, 8, 0x23, 0x28, 0, 53, 0, 9,
        0, 0, b'!',
    ];
    let packet = IngressPacket { interface: id(5), data: Bytes::copy_from_slice(&datagram) };
    assert!(queue_ingress(&mut core, packet));
    let (mut accepted, mut refused) = (Vec::new(), Vec::new());
    pre_pass(&mut core, 3, &mut accepted, &mut refused);
    assert_eq!(accepted.len(), 1);
    pre_pass(&mut core, 4, &mut accepted, &mut refused);
    assert_eq!(accepted.len(), 1);
    assert!(refused.is_empty());
    assert_eq!(core.slots[0].device.ingress.len(), 1);
    match &accepted[0] {
        Session::Udp(session) => {
            assert_eq!(session.src_addr(), endpoint(v4(10, 0, 0, 2), 9000));
            assert_eq!(session.dst_addr(), endpoint(v4(8, 8, 8, 8), 53));
            assert_eq!(session.interface_id(), id(5));
        }
        Session::Tcp(_) => panic!("expected UDP session"),
    }
    post_pass(&mut core, 5, &mut accepted);
    assert_eq!(accepted.len(), 1);
    assert_eq!(core.manager.udp.len(), 1);
}

/// A SYN from 10.0.0.2:`src` to 1.2.3.4:`dst`.
fn syn(src: u8, dst: u8) -> IngressPacket {
    let packet = [
        0x45, 0, 0, 40, 0, 0, 0, 0, 64, 6, 0, 0, 10, 0, 0, 2, 1, 2, 3, 4, 0, src, 0, dst, 0, 0, 0,
        1, 0, 0, 0, 0, 0x50, 2, 1, 0, 0, 0, 0, 0,
    ];
    IngressPacket { interface: id(5), data: Bytes::copy_from_slice(&packet) }
}

#[test]
fn syns_that_come_too_early_are_withheld() {
    let mut core = single(NetstackBuilder::new().tcp_max_connections(2));
    let packets = [syn(1, 80), syn(2, 80), syn(3, 81), syn(4, 82), syn(1, 80), syn(5, 81)];
    let data: Vec<Bytes> = packets.iter().map(|p| p.data.clone()).collect();
    for packet in packets {
        assert!(queue_ingress(&mut core, packet));
    }
    let (mut accepted, mut refused) = (Vec::new(), Vec::new());
    pre_pass(&mut core, 3, &mut accepted, &mut refused);
    assert!(accepted.is_empty());
    assert_eq!(core.manager.tcp.len(), 2);
    let reasons: Vec<(u16, Refusal)> =
        refused.iter().map(|r| (r.key.src.port, r.reason)).collect();
    assert_eq!(reasons, [(2, Refusal::Occupied), (4, Refusal::Limit), (5, Refusal::Limit)]);
    let left = [&data[0], &data[1], &data[2], &data[4]];
    assert!(core.slots[0].device.ingress.iter().eq(left));
}

#[test]
fn streams_on_a_missing_interface_are_gone() {
    let mut core = single(NetstackBuilder::new());
    let handle = alloc_tcp(&mut core, 0, tcp_key(80)).unwrap();
    let key = SessionKey { interface: id(6), ..tcp_key(80) };
    let stream = WayTcpStream::new(id(6), key, handle, key.src, key.dst);
    let mut buf = [0u8; 4];
    assert_eq!(stream.poll_read(&mut core, &mut buf), ReadOutcome::Gone);
    assert_eq!(stream.poll_write(&mut core, b"x"), WriteOutcome::Gone);
    stream.poll_shutdown(&mut core);
    stream.dropped(&mut core);
    assert_eq!(core.manager.tcp.len(), 1);
}

#[test]
fn sessions_on_a_missing_interface_cannot_send() {
    let mut core = single(NetstackBuilder::new());
    let session = udp_session(&mut core, 9000);
    let (key, socket, queue) = (session.key, session.socket, session.queue);
    let moved = WayUdpSession::new(id(6), key, socket, queue, key.src, key.dst);
    match moved.send(&mut core, &Bytes::from_static(b"x"), 0) {
        SendOutcome::Failed(NetstackError::Internal(why)) => assert_eq!(why, "interface is gone"),
        _ => panic!("must fail"),
    }
}

#[test]
fn nothing_can_be_sent_to_port_zero() {
    let mut core = single(NetstackBuilder::new());
    let session = udp_session(&mut core, 0);
    match session.send(&mut core, &Bytes::from_static(b"x"), 0) {
        SendOutcome::Failed(NetstackError::UdpNotOpen) => {}
        _ => panic!("must fail"),
    }
}

#[test]
fn a_full_send_buffer_is_told() {
    let mut core = single(NetstackBuilder::new().mtu(100).udp_buffer(2, 100));
    let session = udp_session(&mut core, 9000);
    let large = Bytes::from(vec![0u8; 101]);
    assert!(matches!(session.send(&mut core, &large, 0), SendOutcome::Full));
    let fits = Bytes::from(vec![0u8; 100]);
    assert!(matches!(session.send(&mut core, &fits, 0), SendOutcome::Sent));
    assert!(matches!(session.send(&mut core, &fits, 0), SendOutcome::Full));
}

#[test]
fn a_send_buffer_holds_as_many_datagrams_as_it_has_records_for() {
    let mut core = single(NetstackBuilder::new().udp_buffer(3, 4096));
    let session = udp_session(&mut core, 9000);
    let data = Bytes::from_static(b"x");
    for _ in 0..3 {
        assert!(matches!(session.send(&mut core, &data, 0), SendOutcome::Sent));
    }
    assert!(matches!(session.send(&mut core, &data, 0), SendOutcome::Full));
}
