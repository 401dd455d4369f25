//! Headers of IP packets, TCP segments and UDP datagrams.

use smoltcp::phy::ChecksumCapabilities;
use smoltcp::wire;
use vstd::prelude::*;

use crate::addr::{IpAddress, Ipv4Addr, Ipv6Addr};

verus! {

/// The protocol number of TCP.
pub const PROTOCOL_TCP: u8 = 6;

/// The protocol number of UDP.
pub const PROTOCOL_UDP: u8 = 17;

/// What an IP packet says of itself, and what it carries.
pub struct IpPacket<'a> {
    pub src: IpAddress,
    pub dst: IpAddress,
    pub protocol: u8,
    pub payload: &'a [u8],
}

/// What a TCP segment asks for.
#[derive(Debug, Clone, Copy, PartialEq, Eq, Structural)]
pub enum TcpControl {
    Plain,
    Psh,
    Syn,
    Fin,
    Rst,
}

/// The part of a TCP header that tells a new connection from an old one.
#[derive(Debug, Clone, Copy, PartialEq, Eq, Structural)]
pub struct TcpHeader {
    pub src_port: u16,
    pub dst_port: u16,
    pub control: TcpControl,
    /// Whether the segment acknowledges anything.
    pub ack: bool,
}

/// The ports of a UDP datagram.
#[derive(Debug, Clone, Copy, PartialEq, Eq, Structural)]
pub struct UdpHeader {
    pub src_port: u16,
    pub dst_port: u16,
}

/// The number that `data` forms, the most significant octet first.
pub open spec fn big_endian(data: Seq<u8>) -> nat
    decreases data.len(),
{
    if data.len() == 0 {
        0
    } else {
        big_endian(data.drop_last()) * 256 + data.last() as nat
    }
}

/// The number in the `n` octets at `at`.
pub open spec fn field(data: Seq<u8>, at: int, n: int) -> nat {
    big_endian(data.subrange(at, at + n))
}

/// The length of an IPv4 header: four octets for each unit of the low nibble.
pub open spec fn ipv4_header_len(data: Seq<u8>) -> int {
    (data[0] as int % 16) * 4
}

/// An IPv4 header that is there in full, with lengths that fit together and fit
/// the packet.
pub open spec fn ipv4_valid(data: Seq<u8>) -> bool {
    &&& data.len() >= 20
    &&& data[0] as int / 16 == 4
    &&& ipv4_header_len(data) <= field(data, 2, 2) <= data.len()
}

/// An IPv6 header that is there in full, with a length that fits the packet.
pub open spec fn ipv6_valid(data: Seq<u8>) -> bool {
    &&& data.len() >= 40
    &&& data[0] as int / 16 == 6
    &&& 40 + field(data, 4, 2) <= data.len()
}

/// A UDP header that is there in full, with a length that fits the datagram, and a
/// destination port.
pub open spec fn udp_valid(data: Seq<u8>) -> bool {
    &&& data.len() >= 8
    &&& 8 <= field(data, 4, 2) <= data.len()
    &&& field(data, 2, 2) != 0
}

/// The length of a TCP header: four octets for each unit of the high nibble.
pub open spec fn tcp_header_len(data: Seq<u8>) -> int {
    (data[12] as int / 16) * 4
}

/// The lowest of the bits that `byte` has from `weight` on.
pub open spec fn bit(byte: u8, weight: int) -> bool {
    (byte as int / weight) % 2 == 1
}

/// What the flags of a TCP segment ask for. At most one of SYN, FIN and RST may be
/// set.
pub open spec fn tcp_control(data: Seq<u8>) -> Option<TcpControl> {
    let (fin, syn, rst, psh) = (
        bit(data[13], 1),
        bit(data[13], 2),
        bit(data[13], 4),
        bit(data[13], 8),
    );
    match (syn, fin, rst) {
        (false, false, false) => Some(
            if psh {
                TcpControl::Psh
            } else {
                TcpControl::Plain
            },
        ),
        (true, false, false) => Some(TcpControl::Syn),
        (false, true, false) => Some(TcpControl::Fin),
        (false, false, true) => Some(TcpControl::Rst),
        _ => None,
    }
}

/// A TCP header that is there in full, with both ports and flags that go together.
/// Its options are another matter.
pub open spec fn tcp_fixed_part_valid(data: Seq<u8>) -> bool {
    &&& data.len() >= 20
    &&& 20 <= tcp_header_len(data) <= data.len()
    &&& field(data, 0, 2) != 0
    &&& field(data, 2, 2) != 0
    &&& tcp_control(data) is Some
}

/// What is read from a TCP segment, if its header is in order.
pub uninterp spec fn tcp_header(data: Seq<u8>) -> Option<TcpHeader>;

/// Calls `Ipv4Packet::new_checked`, `Ipv4Repr::parse` with checksums ignored, and
/// `Ipv4Packet::payload`: reads an IPv4 packet whose header is in order.
#[verifier::external_body]
pub(crate) fn parse_ipv4<'a>(data: &'a [u8]) -> (packet: Option<IpPacket<'a>>)
    ensures
        match packet {
            Some(p) => {
                &&& ipv4_valid(data@)
                &&& p.src matches IpAddress::Ipv4(a) && a.bits == field(data@, 12, 4)
                &&& p.dst matches IpAddress::Ipv4(a) && a.bits == field(data@, 16, 4)
                &&& p.protocol == data@[9]
                &&& p.payload@ == data@.subrange(
                    ipv4_header_len(data@),
                    field(data@, 2, 2) as int,
                )
            },
            None => !ipv4_valid(data@),
        },
{
    let v4 = wire::Ipv4Packet::new_checked(data).ok()?;
    let repr = wire::Ipv4Repr::parse(&v4, &ChecksumCapabilities::ignored()).ok()?;
    Some(IpPacket {
        src: IpAddress::Ipv4(Ipv4Addr { bits: repr.src_addr.to_bits() }),
        dst: IpAddress::Ipv4(Ipv4Addr { bits: repr.dst_addr.to_bits() }),
        protocol: repr.next_header.into(),
        payload: v4.payload(),
    })
}

/// Calls `Ipv6Packet::new_checked`, `Ipv6Repr::parse` and `Ipv6Packet::payload`:
/// reads an IPv6 packet whose header is in order.
#[verifier::external_body]
pub(crate) fn parse_ipv6<'a>(data: &'a [u8]) -> (packet: Option<IpPacket<'a>>)
    ensures
        match packet {
            Some(p) => {
                &&& ipv6_valid(data@)
                &&& p.src matches IpAddress::Ipv6(a) && a.bits == field(data@, 8, 16)
                &&& p.dst matches IpAddress::Ipv6(a) && a.bits == field(data@, 24, 16)
                &&& p.protocol == data@[6]
                &&& p.payload@ == data@.subrange(40, 40 + field(data@, 4, 2) as int)
            },
            None => !ipv6_valid(data@),
        },
{
    let v6 = wire::Ipv6Packet::new_checked(data).ok()?;
    let repr = wire::Ipv6Repr::parse(&v6).ok()?;
    Some(IpPacket {
        src: IpAddress::Ipv6(Ipv6Addr { bits: repr.src_addr.to_bits() }),
        dst: IpAddress::Ipv6(Ipv6Addr { bits: repr.dst_addr.to_bits() }),
        protocol: repr.next_header.into(),
        payload: v6.payload(),
    })
}

/// Calls `TcpPacket::new_checked` and `TcpRepr::parse` with checksums ignored. The
/// addresses only serve the checksum, so any do. A header that is read has its
/// fixed part in order and says what that part says; whether a header with options
/// is read depends on the options too, and one without is read if its fixed part
/// is in order.
#[verifier::external_body]
pub(crate) fn parse_tcp(data: &[u8]) -> (header: Option<TcpHeader>)
    ensures
        header == tcp_header(data@),
        header matches Some(h) ==> {
            &&& tcp_fixed_part_valid(data@)
            &&& h.src_port == field(data@, 0, 2)
            &&& h.dst_port == field(data@, 2, 2)
            &&& Some(h.control) == tcp_control(data@)
            &&& h.ack == bit(data@[13], 16)
        },
        tcp_fixed_part_valid(data@) && tcp_header_len(data@) == 20 ==> header is Some,
{
    let any = wire::IpAddress::v4(0, 0, 0, 0);
    let tcp = wire::TcpPacket::new_checked(data).ok()?;
    let repr = wire::TcpRepr::parse(&tcp, &any, &any, &ChecksumCapabilities::ignored()).ok()?;
    let control = match repr.control {
        wire::TcpControl::None => TcpControl::Plain,
        wire::TcpControl::Psh => TcpControl::Psh,
        wire::TcpControl::Syn => TcpControl::Syn,
        wire::TcpControl::Fin => TcpControl::Fin,
        wire::TcpControl::Rst => TcpControl::Rst,
    };
    let ack = repr.ack_number.is_some();
    Some(TcpHeader { src_port: repr.src_port, dst_port: repr.dst_port, control, ack })
}

/// Calls `UdpPacket::new_checked` and `UdpRepr::parse` with checksums ignored:
/// reads the ports of a datagram whose header is in order. The addresses only
/// serve the checksum, so any do.
#[verifier::external_body]
pub(crate) fn parse_udp(data: &[u8]) -> (header: Option<UdpHeader>)
    ensures
        match header {
            Some(h) => udp_valid(data@) && h.src_port == field(data@, 0, 2) && h.dst_port == field(
                data@,
                2,
                2,
            ),
            None => !udp_valid(data@),
        },
{
    let any = wire::IpAddress::v4(0, 0, 0, 0);
    let udp = wire::UdpPacket::new_checked(data).ok()?;
    let repr = wire::UdpRepr::parse(&udp, &any, &any, &ChecksumCapabilities::ignored()).ok()?;
    Some(UdpHeader { src_port: repr.src_port, dst_port: repr.dst_port })
}

} // verus!
