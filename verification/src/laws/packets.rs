//! What holds of packets on their way in and out.

use vstd::prelude::*;

use crate::addr::{IpAddress, IpEndpoint};
use crate::admission::{queued, same_but_ingress};
use crate::device::DeviceModel;
use crate::engine::clock::whole_micros;
use crate::engine::interface::{interface_model, poll_delay_of};
use crate::engine::payload::octets;
use crate::engine::wire::{
    field, ipv4_header_len, ipv4_valid, ipv6_valid, tcp_header, udp_valid, TcpControl,
    TcpHeader,
};
use crate::flow::{flow_of, l4_flow_of, tcp_flow_of, L4};
use crate::handle::{egress_contents, EgressPacket};
use crate::model::{LinkModel, StackModel};
use crate::runner::{produced, same_settings, shortest_delay, until_silent};
use crate::session::types::SessionKey;
use crate::state::InterfaceSlot;
use crate::InterfaceId;

verus! {

// ---- on the way in -------------------------------------------------------------

/// A packet goes to the interface that it is for, behind the packets that wait there,
/// whole, and to no other; and nothing else changes. One that is larger than the device
/// can carry goes nowhere.
pub proof fn a_packet_goes_to_its_interface_and_no_other(
    m: StackModel,
    interface: InterfaceId,
    data: Seq<u8>,
)
    ensures
        ({
            let b = m.with_ingress(interface, data);
            &&& b == (StackModel { links: b.links, ..m })
            &&& b.links.len() == m.links.len()
            &&& forall|i: int|
                0 <= i < m.links.len() ==> {
                    let before = #[trigger] m.links[i];
                    let after = b.links[i];
                    &&& before.id == interface && data.len() <= before.device.mtu ==> after == (
                    LinkModel {
                        device: DeviceModel {
                            ingress: before.device.ingress.push(data),
                            ..before.device
                        },
                        ..before
                    })
                    &&& before.id != interface || data.len() > before.device.mtu ==> after == before
                }
        }),
{
}

/// An interface is known exactly where one of the links has its identifier.
pub proof fn known_interfaces_have_a_link(m: StackModel, interface: InterfaceId)
    ensures
        m.has_interface(interface) <==> exists|i: int|
            0 <= i < m.links.len() && (#[trigger] m.links[i]).id == interface,
{
}

/// The packets that wait are those of the interfaces, one interface after the other,
/// those of an interface in their order, each with the interface that it is on.
pub proof fn every_waiting_packet_is_looked_at_in_order(links: Seq<LinkModel>)
    ensures
        queued(links) == links.map_values(
            |l: LinkModel| l.device.ingress.map_values(|p: Seq<u8>| (l.id, p)),
        ).flatten(),
    decreases links.len(),
{
    let each = |l: LinkModel| l.device.ingress.map_values(|p: Seq<u8>| (l.id, p));
    if links.len() > 0 {
        every_waiting_packet_is_looked_at_in_order(links.drop_last());
        assert(links.map_values(each) =~= links.drop_last().map_values(each).push(
            each(links.last()),
        ));
        links.drop_last().map_values(each).lemma_flatten_push(each(links.last()));
    }
}

/// Where only packets that wait may differ, all else of the interfaces is the same.
pub proof fn only_waiting_packets_change(a: Seq<LinkModel>, b: Seq<LinkModel>)
    requires
        same_but_ingress(a, b),
    ensures
        b.len() == a.len(),
        forall|i: int|
            0 <= i < a.len() ==> {
                &&& (#[trigger] b[i]).id == a[i].id
                &&& b[i].iface == a[i].iface
                &&& b[i].device.mtu == a[i].device.mtu
                &&& b[i].device.egress == a[i].device.egress
            },
{
}

// ---- flows ---------------------------------------------------------------------

/// The IP part of a packet: where it comes from and goes to, the number of the protocol
/// that it carries, and what it carries.
pub open spec fn ip_part(
    data: Seq<u8>,
    src: IpAddress,
    dst: IpAddress,
    protocol: u8,
    payload: Seq<u8>,
) -> bool {
    ||| {
        &&& ipv4_valid(data)
        &&& src matches IpAddress::Ipv4(a) && a.bits == field(data, 12, 4)
        &&& dst matches IpAddress::Ipv4(a) && a.bits == field(data, 16, 4)
        &&& protocol == data[9]
        &&& payload == data.subrange(ipv4_header_len(data), field(data, 2, 2) as int)
    }
    ||| {
        &&& ipv6_valid(data)
        &&& src matches IpAddress::Ipv6(a) && a.bits == field(data, 8, 16)
        &&& dst matches IpAddress::Ipv6(a) && a.bits == field(data, 24, 16)
        &&& protocol == data[6]
        &&& payload == data.subrange(40, 40 + field(data, 4, 2) as int)
    }
}

/// A packet that carries UDP belongs to the flow between its endpoints: the addresses of
/// its IP header and the ports of its UDP header, source before destination.
pub proof fn datagrams_belong_to_the_flow_of_their_endpoints(
    data: Seq<u8>,
    src: IpAddress,
    dst: IpAddress,
    payload: Seq<u8>,
)
    requires
        ip_part(data, src, dst, 17, payload),
    ensures
        flow_of(data) is Some <==> udp_valid(payload),
        flow_of(data) matches Some((from, to, l4)) ==> {
            &&& from.addr == src
            &&& to.addr == dst
            &&& udp_valid(payload) && from.port == field(payload, 0, 2) as u16
            &&& to.port == field(payload, 2, 2) as u16
            &&& l4 is Udp
        },
{
}

/// A packet that carries TCP belongs to the flow between its endpoints, and opens a
/// connection exactly where it asks for one and acknowledges nothing.
pub proof fn segments_belong_to_the_flow_of_their_endpoints(
    data: Seq<u8>,
    src: IpAddress,
    dst: IpAddress,
    payload: Seq<u8>,
)
    requires
        ip_part(data, src, dst, 6, payload),
    ensures
        flow_of(data) is Some <==> tcp_header(payload) is Some,
        flow_of(data) matches Some((from, to, l4)) ==> {
            let header = tcp_header(payload)->0;
            &&& from.addr == src
            &&& to.addr == dst
            &&& from.port == header.src_port
            &&& to.port == header.dst_port
            &&& l4 == (L4::Tcp { syn: header.control == TcpControl::Syn && !header.ack })
        },
{
}

/// What is neither an IPv4 nor an IPv6 packet in order, or carries neither TCP nor UDP,
/// belongs to no flow.
pub proof fn other_packets_belong_to_no_flow(
    data: Seq<u8>,
    src: IpAddress,
    dst: IpAddress,
    protocol: u8,
    payload: Seq<u8>,
)
    ensures
        !ipv4_valid(data) && !ipv6_valid(data) ==> flow_of(data) is None,
        ip_part(data, src, dst, protocol, payload) && protocol != 6 && protocol != 17
            ==> flow_of(data) is None,
{
}

/// Turning a segment round turns its flow round: what goes from one end to the other
/// comes from there when the ports and addresses are swapped.
pub proof fn a_flow_has_two_directions(
    src: IpAddress,
    dst: IpAddress,
    header: TcpHeader,
)
    ensures
        ({
            let back = TcpHeader {
                src_port: header.dst_port,
                dst_port: header.src_port,
                ..header
            };
            let (a, b, there) = tcp_flow_of(src, dst, header);
            let (c, d, again) = tcp_flow_of(dst, src, back);
            &&& a == d && b == c && there == again
            &&& a == (IpEndpoint { addr: src, port: header.src_port })
            &&& b == (IpEndpoint { addr: dst, port: header.dst_port })
            &&& there == (L4::Tcp { syn: header.control == TcpControl::Syn && !header.ack })
        }),
{
}

/// What an IP packet carries tells the ports, and the packet itself the addresses; what is
/// neither TCP nor UDP in order belongs to no flow.
pub proof fn payloads_tell_the_ports(
    src: IpAddress,
    dst: IpAddress,
    protocol: u8,
    payload: Seq<u8>,
)
    ensures
        l4_flow_of(src, dst, protocol, payload) is Some <==> {
            ||| protocol == 6 && tcp_header(payload) is Some
            ||| protocol == 17 && udp_valid(payload)
        },
        l4_flow_of(src, dst, protocol, payload) matches Some((from, to, l4)) ==> {
            &&& from.addr == src
            &&& to.addr == dst
            &&& protocol == 17 ==> {
                &&& from.port == field(payload, 0, 2) as u16
                &&& to.port == field(payload, 2, 2) as u16
                &&& l4 == L4::Udp
            }
            &&& protocol == 6 ==> {
                let header = tcp_header(payload)->0;
                &&& from.port == header.src_port
                &&& to.port == header.dst_port
                &&& l4 == (L4::Tcp { syn: header.control == TcpControl::Syn && !header.ack })
            }
        },
{
}

// ---- on the way out ------------------------------------------------------------

/// Every packet that the interfaces have produced comes out once, one interface after the
/// other, those of an interface in the order in which they were produced, each with the
/// interface that produced it.
pub proof fn every_produced_packet_comes_out_once_in_order(links: Seq<LinkModel>)
    ensures
        produced(links) == links.map_values(
            |l: LinkModel| l.device.egress.map_values(|p: Seq<u8>| (l.id, p)),
        ).flatten(),
    decreases links.len(),
{
    let each = |l: LinkModel| l.device.egress.map_values(|p: Seq<u8>| (l.id, p));
    if links.len() > 0 {
        every_produced_packet_comes_out_once_in_order(links.drop_last());
        assert(links.map_values(each) =~= links.drop_last().map_values(each).push(
            each(links.last()),
        ));
        links.drop_last().map_values(each).lemma_flatten_push(each(links.last()));
    }
}

/// What is said of produced packets is said of each: its interface, and its octets, all of
/// them.
pub proof fn produced_packets_are_told_whole(packets: Seq<EgressPacket>)
    ensures
        egress_contents(packets).len() == packets.len(),
        forall|i: int|
            0 <= i < packets.len() ==> (#[trigger] egress_contents(packets)[i]).0
                == packets[i].interface_id && egress_contents(packets)[i].1 == octets(
                packets[i].data,
            ),
{
}

/// Taking the packets that were produced leaves none, and leaves all else as it is.
pub proof fn taking_produced_packets_leaves_the_rest_alone(m: StackModel)
    ensures
        ({
            let b = m.without_egress();
            &&& b == (StackModel { links: b.links, ..m })
            &&& b.links.len() == m.links.len()
            &&& forall|i: int|
                0 <= i < m.links.len() ==> {
                    &&& (#[trigger] b.links[i]).id == m.links[i].id
                    &&& b.links[i].iface == m.links[i].iface
                    &&& b.links[i].device.mtu == m.links[i].device.mtu
                    &&& b.links[i].device.ingress == m.links[i].device.ingress
                    &&& b.links[i].device.egress.len() == 0
                }
        }),
{
}

// ---- when the next round is due ------------------------------------------------

/// The engine is due when the first of the interfaces is: no later than any of them, at
/// the time of one of them, and not at all where none is.
pub proof fn the_engine_is_due_when_its_first_interface_is(slots: Seq<InterfaceSlot>, now: i64)
    ensures
        forall|i: int|
            0 <= i < slots.len() ==> (poll_delay_of(
                (#[trigger] slots[i]).iface,
                now,
                slots[i].sockets,
            ) matches Some(d) ==> shortest_delay(slots, now) is Some && shortest_delay(
                slots,
                now,
            )->0 <= d),
        shortest_delay(slots, now) is Some ==> exists|i: int|
            0 <= i < slots.len() && poll_delay_of(
                (#[trigger] slots[i]).iface,
                now,
                slots[i].sockets,
            ) == shortest_delay(slots, now),
    decreases slots.len(),
{
    if slots.len() > 0 {
        let rest = slots.drop_last();
        the_engine_is_due_when_its_first_interface_is(rest, now);
        assert forall|i: int| 0 <= i < slots.len() implies (poll_delay_of(
            (#[trigger] slots[i]).iface,
            now,
            slots[i].sockets,
        ) matches Some(d) ==> shortest_delay(slots, now) is Some && shortest_delay(slots, now)->0
            <= d) by {
            if i < rest.len() {
                assert(rest[i] == slots[i]);
            }
        }
        if shortest_delay(slots, now) is Some {
            if shortest_delay(slots, now) == shortest_delay(rest, now) {
                let i = choose|i: int|
                    0 <= i < rest.len() && poll_delay_of(
                        (#[trigger] rest[i]).iface,
                        now,
                        rest[i].sockets,
                    ) == shortest_delay(rest, now);
                assert(slots[i] == rest[i]);
            } else {
                assert(slots[slots.len() - 1] == slots.last());
            }
        }
    }
}

/// Asking when the next round is due leaves the interfaces as they are: their identifiers,
/// their packets, and what they are configured with.
pub proof fn asking_for_the_delay_changes_no_interface(a: Seq<LinkModel>, b: Seq<LinkModel>)
    requires
        same_settings(a, b),
    ensures
        b.len() == a.len(),
        forall|i: int|
            0 <= i < a.len() ==> {
                &&& (#[trigger] b[i]).id == a[i].id
                &&& b[i].device == a[i].device
                &&& interface_model(b[i].iface) == interface_model(a[i].iface)
            },
{
}

/// A session has been silent for the timeout when the timeout has passed since its last
/// activity: no time is left then, and before that, waiting for what is left brings it about.
/// A session that was last active later than now by the timeout or more counts as silent.
pub proof fn what_is_left_of_the_timeout(now: int, last: int, timeout: nat)
    ensures
        until_silent(now, last, timeout) == 0 <==> now - last >= timeout || last - now >= timeout,
        until_silent(now, last, timeout) > 0 ==> {
            ||| now + until_silent(now, last, timeout) == last + timeout
            ||| until_silent(now, last, timeout) == u64::MAX && now + u64::MAX < last + timeout
        },
{
}

/// The next round is due no later than the engine is, and no later than a UDP session has
/// been silent for the timeout; and then one of these is the case. A session that was last
/// active later than now by the timeout or more counts as silent too.
pub proof fn the_next_round_is_due_with_the_first_event(
    m: StackModel,
    delay: Option<u64>,
    engine: Option<u64>,
    now: i64,
)
    requires
        m.is_due_after(delay, engine, now),
    ensures
        delay is None <==> engine is None && m.udp.dom() == Set::<SessionKey>::empty(),
        delay matches Some(d) ==> {
            let timeout = whole_micros(m.config.udp_session_timeout);
            &&& engine matches Some(e) ==> d <= e
            &&& forall|k: SessionKey| #[trigger]
                m.udp.contains_key(k) ==> d == 0 || now + d <= m.udp[k].last_activity + timeout
            &&& engine == Some(d) || exists|k: SessionKey| #[trigger]
                m.udp.contains_key(k) && {
                    ||| now + d >= m.udp[k].last_activity + timeout
                    ||| now + timeout <= m.udp[k].last_activity
                    ||| d == u64::MAX
                }
        },
{
    if delay is None {
        assert(m.udp.dom() =~= Set::empty());
    } else if m.udp.dom() == Set::<SessionKey>::empty() {
        assert(forall|k: SessionKey| !m.udp.dom().contains(k));
        assert(forall|k: SessionKey| !#[trigger] m.udp.contains_key(k));
        assert(engine == delay);
    }
}

} // verus!
