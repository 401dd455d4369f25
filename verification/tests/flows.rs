//! Which flow a packet belongs to.

use way_netstack::addr::{IpAddress, IpEndpoint, Ipv4Addr, Ipv6Addr};
use way_netstack::engine::wire::{TcpControl, TcpHeader};
use way_netstack::flow::{dispatch_l4, parse_l4, tcp_flow, L4};

const SYN: u8 = 2;
const ACK: u8 = 16;

fn ipv4(protocol: u8, payload: &[u8]) -> Vec<u8> {
    let len = 20 + payload.len() as u16;
    let mut packet = vec![0x45, 0, (len >> 8) as u8, len as u8, 0, 0, 0, 0, 64, protocol, 0, 0];
    packet.extend([10, 0, 0, 2, 8, 8, 4, 4]);
    packet.extend(payload);
    packet
}

fn ipv6(protocol: u8, payload: &[u8]) -> Vec<u8> {
    let len = payload.len() as u16;
    let mut packet = vec![0x60, 0, 0, 0, (len >> 8) as u8, len as u8, protocol, 64];
    for last in [2, 9] {
        packet.extend([0x20, 0x01, 0x0d, 0xb8, 0, 0, 0, 0, 0, 0, 0, 0, 0, 0, 0, last]);
    }
    packet.extend(payload);
    packet
}

fn tcp(src: u16, dst: u16, flags: u8) -> Vec<u8> {
    let mut segment = vec![(src >> 8) as u8, src as u8, (dst >> 8) as u8, dst as u8];
    segment.extend([0, 0, 0, 1, 0, 0, 0, 0, 0x50, flags, 1, 0, 0, 0, 0, 0]);
    segment
}

fn udp(src: u16, dst: u16, data: &[u8]) -> Vec<u8> {
    let len = 8 + data.len() as u16;
    let mut datagram = vec![(src >> 8) as u8, src as u8, (dst >> 8) as u8, dst as u8];
    datagram.extend([(len >> 8) as u8, len as u8, 0, 0]);
    datagram.extend(data);
    datagram
}

fn at4(bits: u32, port: u16) -> IpEndpoint {
    IpEndpoint { addr: IpAddress::Ipv4(Ipv4Addr { bits }), port }
}

fn at6(last: u128, port: u16) -> IpEndpoint {
    let bits = 0x2001_0db8_0000_0000_0000_0000_0000_0000 + last;
    IpEndpoint { addr: IpAddress::Ipv6(Ipv6Addr { bits }), port }
}

#[test]
fn a_udp_datagram_over_ipv4() {
    let flow = parse_l4(&ipv4(17, &udp(9000, 53, b"query")));
    assert_eq!(flow, Some((at4(0x0a00_0002, 9000), at4(0x0808_0404, 53), L4::Udp)));
}

#[test]
fn a_udp_datagram_over_ipv6() {
    let flow = parse_l4(&ipv6(17, &udp(9001, 5353, b"")));
    assert_eq!(flow, Some((at6(2, 9001), at6(9, 5353), L4::Udp)));
}

#[test]
fn a_syn_opens_a_connection() {
    let flow = parse_l4(&ipv4(6, &tcp(40080, 8080, SYN)));
    let expected = (at4(0x0a00_0002, 40080), at4(0x0808_0404, 8080), L4::Tcp { syn: true });
    assert_eq!(flow, Some(expected));
    let flow = parse_l4(&ipv6(6, &tcp(40081, 8081, SYN)));
    assert_eq!(flow, Some((at6(2, 40081), at6(9, 8081), L4::Tcp { syn: true })));
}

#[test]
fn other_segments_open_none() {
    for flags in [0, ACK, SYN | ACK, 1, 4, 8, 1 | ACK, 8 | ACK] {
        match parse_l4(&ipv4(6, &tcp(40080, 8080, flags))) {
            Some((_, _, l4)) => assert_eq!(l4, L4::Tcp { syn: false }),
            None => panic!("flags {flags} must be read"),
        }
    }
}

#[test]
fn a_syn_needs_no_acknowledgement() {
    let src = IpAddress::Ipv4(Ipv4Addr { bits: 1 });
    let dst = IpAddress::Ipv4(Ipv4Addr { bits: 2 });
    for (control, ack, syn) in [
        (TcpControl::Syn, false, true),
        (TcpControl::Syn, true, false),
        (TcpControl::Plain, false, false),
        (TcpControl::Psh, false, false),
        (TcpControl::Fin, false, false),
        (TcpControl::Rst, false, false),
    ] {
        let header = TcpHeader { src_port: 5, dst_port: 6, control, ack };
        assert_eq!(tcp_flow(src, dst, header), (at4(1, 5), at4(2, 6), L4::Tcp { syn }));
    }
}

#[test]
fn flags_that_do_not_go_together_are_no_flow() {
    for flags in [SYN | 1, SYN | 4, 1 | 4] {
        assert_eq!(parse_l4(&ipv4(6, &tcp(40080, 8080, flags))), None);
    }
}

#[test]
fn port_zero_is_no_flow() {
    assert_eq!(parse_l4(&ipv4(17, &udp(9000, 0, b"x"))), None);
    assert_eq!(parse_l4(&ipv4(6, &tcp(40080, 0, SYN))), None);
    assert_eq!(parse_l4(&ipv4(6, &tcp(0, 8080, SYN))), None);
    // A datagram need not say where it comes from.
    let flow = parse_l4(&ipv4(17, &udp(0, 53, b"x")));
    assert_eq!(flow, Some((at4(0x0a00_0002, 0), at4(0x0808_0404, 53), L4::Udp)));
}

#[test]
fn other_protocols_and_versions_are_no_flow() {
    assert_eq!(parse_l4(&ipv4(1, &udp(9000, 53, b"x"))), None);
    assert_eq!(parse_l4(&ipv6(58, &udp(9000, 53, b"x"))), None);
    let mut packet = ipv4(17, &udp(9000, 53, b"x"));
    packet[0] = 0x55;
    assert_eq!(parse_l4(&packet), None);
    assert_eq!(parse_l4(&[]), None);
}

#[test]
fn cut_off_packets_are_no_flow() {
    let packet = ipv4(17, &udp(9000, 53, b"query"));
    for n in 0..packet.len() {
        assert_eq!(parse_l4(&packet[..n]), None);
    }
    let packet = ipv6(6, &tcp(9000, 53, SYN));
    for n in 0..packet.len() {
        assert_eq!(parse_l4(&packet[..n]), None);
    }
}

#[test]
fn what_follows_a_packet_does_not_matter() {
    let mut packet = ipv4(17, &udp(9000, 53, b"query"));
    packet.extend([1, 2, 3]);
    assert_eq!(parse_l4(&packet), parse_l4(&ipv4(17, &udp(9000, 53, b"query"))));
}

#[test]
fn the_payload_of_an_ipv4_packet_follows_its_options() {
    let datagram = udp(9000, 53, b"query");
    let plain = ipv4(17, &datagram);
    let mut packet = plain[..20].to_vec();
    packet[0] = 0x46;
    packet[3] += 4;
    packet.extend([1, 1, 1, 1]);
    packet.extend(&datagram);
    assert_eq!(parse_l4(&packet), parse_l4(&plain));
}

#[test]
fn tcp_options_are_read_past() {
    let mut segment = tcp(40080, 8080, SYN);
    segment[12] = 0x60;
    segment.extend([2, 4, 5, 180]);
    match parse_l4(&ipv4(6, &segment)) {
        Some((_, dst, l4)) => {
            assert_eq!(dst.port, 8080);
            assert_eq!(l4, L4::Tcp { syn: true });
        }
        None => panic!("must be read"),
    }
    // A maximum segment size that says it is longer than the header.
    let end = segment.len();
    segment[end - 3] = 40;
    assert_eq!(parse_l4(&ipv4(6, &segment)), None);
}

#[test]
fn dispatch_takes_the_addresses_it_is_given() {
    let src = IpAddress::Ipv4(Ipv4Addr { bits: 7 });
    let dst = IpAddress::Ipv6(Ipv6Addr { bits: 8 });
    let flow = dispatch_l4(src, dst, 17, &udp(1, 2, b""));
    let expected = (IpEndpoint { addr: src, port: 1 }, IpEndpoint { addr: dst, port: 2 }, L4::Udp);
    assert_eq!(flow, Some(expected));
    assert_eq!(dispatch_l4(src, dst, 1, &udp(1, 2, b"")), None);
}
