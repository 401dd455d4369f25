//! Which flow an IP packet belongs to.

use vstd::prelude::*;

use crate::addr::{IpAddress, IpEndpoint, Ipv4Addr, Ipv6Addr};
use crate::engine::wire::{
    field, ipv4_header_len, ipv4_valid, ipv6_valid, parse_ipv4, parse_ipv6, parse_tcp, parse_udp,
    tcp_header, udp_valid, TcpControl, TcpHeader, PROTOCOL_TCP, PROTOCOL_UDP,
};

verus! {

/// The transport protocol of a packet, and whether it opens a connection.
#[derive(Debug, Clone, Copy, PartialEq, Eq, Structural)]
pub enum L4 {
    Tcp { syn: bool },
    Udp,
}

/// What a TCP header says of the flow between two addresses. A SYN that
/// acknowledges nothing opens a connection.
pub open spec fn tcp_flow_of(src: IpAddress, dst: IpAddress, header: TcpHeader) -> (
    IpEndpoint,
    IpEndpoint,
    L4,
) {
    (
        IpEndpoint { addr: src, port: header.src_port },
        IpEndpoint { addr: dst, port: header.dst_port },
        L4::Tcp { syn: header.control is Syn && !header.ack },
    )
}

/// What a UDP datagram says of the flow between two addresses.
pub open spec fn udp_flow_of(src: IpAddress, dst: IpAddress, payload: Seq<u8>) -> (
    IpEndpoint,
    IpEndpoint,
    L4,
) {
    (
        IpEndpoint { addr: src, port: field(payload, 0, 2) as u16 },
        IpEndpoint { addr: dst, port: field(payload, 2, 2) as u16 },
        L4::Udp,
    )
}

/// The flow that the payload of an IP packet belongs to, if it is TCP or UDP and in
/// order.
pub open spec fn l4_flow_of(
    src: IpAddress,
    dst: IpAddress,
    protocol: u8,
    payload: Seq<u8>,
) -> Option<(IpEndpoint, IpEndpoint, L4)> {
    if protocol == PROTOCOL_TCP {
        match tcp_header(payload) {
            Some(header) => Some(tcp_flow_of(src, dst, header)),
            None => None,
        }
    } else if protocol == PROTOCOL_UDP {
        if udp_valid(payload) {
            Some(udp_flow_of(src, dst, payload))
        } else {
            None
        }
    } else {
        None
    }
}

/// The flow that an IP packet belongs to, if it is an IPv4 or IPv6 packet that
/// carries TCP or UDP and is in order.
pub open spec fn flow_of(data: Seq<u8>) -> Option<(IpEndpoint, IpEndpoint, L4)> {
    if data.len() > 0 && ipv4_valid(data) {
        l4_flow_of(
            IpAddress::Ipv4(Ipv4Addr { bits: field(data, 12, 4) as u32 }),
            IpAddress::Ipv4(Ipv4Addr { bits: field(data, 16, 4) as u32 }),
            data[9],
            data.subrange(ipv4_header_len(data), field(data, 2, 2) as int),
        )
    } else if data.len() > 0 && ipv6_valid(data) {
        l4_flow_of(
            IpAddress::Ipv6(Ipv6Addr { bits: field(data, 8, 16) as u128 }),
            IpAddress::Ipv6(Ipv6Addr { bits: field(data, 24, 16) as u128 }),
            data[6],
            data.subrange(40, 40 + field(data, 4, 2) as int),
        )
    } else {
        None
    }
}

/// What a TCP header says of the flow between two addresses.
pub fn tcp_flow(src: IpAddress, dst: IpAddress, header: TcpHeader) -> (flow: (
    IpEndpoint,
    IpEndpoint,
    L4,
))
    ensures
        flow == tcp_flow_of(src, dst, header),
{
    let syn = header.control == TcpControl::Syn && !header.ack;
    (
        IpEndpoint { addr: src, port: header.src_port },
        IpEndpoint { addr: dst, port: header.dst_port },
        L4::Tcp { syn },
    )
}

/// Reads the TCP or UDP header in the payload of an IP packet.
pub fn dispatch_l4(src: IpAddress, dst: IpAddress, protocol: u8, payload: &[u8]) -> (flow: Option<
    (IpEndpoint, IpEndpoint, L4),
>)
    ensures
        flow == l4_flow_of(src, dst, protocol, payload@),
        flow matches Some((_, to, _)) ==> to.port != 0,
{
    if protocol == PROTOCOL_TCP {
        match parse_tcp(payload) {
            Some(header) => Some(tcp_flow(src, dst, header)),
            None => None,
        }
    } else if protocol == PROTOCOL_UDP {
        match parse_udp(payload) {
            Some(header) => Some(
                (
                    IpEndpoint { addr: src, port: header.src_port },
                    IpEndpoint { addr: dst, port: header.dst_port },
                    L4::Udp,
                ),
            ),
            None => None,
        }
    } else {
        None
    }
}

/// Parses an IP packet down to its transport endpoints. No packet is for port zero.
pub fn parse_l4(data: &[u8]) -> (flow: Option<(IpEndpoint, IpEndpoint, L4)>)
    ensures
        flow == flow_of(data@),
        flow matches Some((_, to, _)) ==> to.port != 0,
{
    if data.len() == 0 {
        return None;
    }
    let first: u8 = data[0];
    let version: u8 = first >> 4;
    assert(version == first / 16) by (bit_vector)
        requires
            version == first >> 4,
    ;
    if version == 4 {
        match parse_ipv4(data) {
            Some(packet) => dispatch_l4(packet.src, packet.dst, packet.protocol, packet.payload),
            None => None,
        }
    } else if version == 6 {
        match parse_ipv6(data) {
            Some(packet) => dispatch_l4(packet.src, packet.dst, packet.protocol, packet.payload),
            None => None,
        }
    } else {
        None
    }
}

} // verus!
