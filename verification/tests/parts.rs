//! The parts of a stack, one by one.

use bytes::Bytes;
use way_netstack::device::VirtualDevice;
use way_netstack::error::NetstackError;
use way_netstack::session::manager::{QueueStore, SessionManager, UdpQueue};
use way_netstack::session::types::{Destination, Proto, SessionKey};
use way_netstack::addr::{IpAddress, IpEndpoint, Ipv4Addr};
use way_netstack::table::Table;
use way_netstack::InterfaceId;
use smoltcp::iface::{SocketHandle, SocketSet};
use smoltcp::socket::tcp;

fn endpoint(bits: u32, port: u16) -> IpEndpoint {
    IpEndpoint { addr: IpAddress::Ipv4(Ipv4Addr { bits }), port }
}

fn key(src: u16) -> SessionKey {
    let interface = InterfaceId::new(3).unwrap();
    SessionKey::new(interface, Proto::Udp, endpoint(1, src), endpoint(2, 53))
}

fn handles(n: usize) -> Vec<SocketHandle> {
    let mut set = SocketSet::new(vec![]);
    (0..n)
        .map(|_| {
            let buffer = || tcp::SocketBuffer::new(vec![0u8; 1]);
            set.add(tcp::Socket::new(buffer(), buffer()))
        })
        .collect()
}

#[test]
fn every_raw_value_is_an_interface_id() {
    for raw in [0, 1, 7, u16::MAX] {
        let id = InterfaceId::new(raw).unwrap();
        assert_eq!(id.get(), raw);
    }
    assert_ne!(InterfaceId::new(1), InterfaceId::new(2));
    assert!(InterfaceId::new(1).unwrap() < InterfaceId::new(2).unwrap());
    assert!(InterfaceId::new(300).unwrap() > InterfaceId::new(2).unwrap());
}

#[test]
fn only_a_full_udp_buffer_is_transient() {
    let id = InterfaceId::new(1).unwrap();
    assert!(NetstackError::UdpBufferFull.is_udp_buffer_full());
    for error in [
        NetstackError::InterfaceNotFound(id),
        NetstackError::ChannelClosed,
        NetstackError::ChannelFull,
        NetstackError::SessionLimitReached,
        NetstackError::InvalidPacket,
        NetstackError::UnsupportedProtocol,
        NetstackError::TcpNotOpen,
        NetstackError::TcpBufferFull,
        NetstackError::UdpNotOpen,
        NetstackError::Internal("why".to_string()),
    ] {
        assert!(!error.is_udp_buffer_full());
    }
}

#[test]
fn devices_reject_what_is_too_large() {
    let mut device = VirtualDevice::new(3);
    assert!(device.push_ingress(Bytes::from_static(b"abc")));
    assert!(!device.push_ingress(Bytes::from_static(b"abcd")));
    assert!(device.push_ingress(Bytes::from_static(b"d")));
    assert_eq!(device.pop_ingress().unwrap(), "abc");
    assert_eq!(device.pop_ingress().unwrap(), "d");
    assert!(device.pop_ingress().is_none());
}

#[test]
fn devices_drop_a_packet_by_its_place() {
    let mut device = VirtualDevice::new(3);
    for data in ["a", "b", "c"] {
        assert!(device.push_ingress(Bytes::from_static(data.as_bytes())));
    }
    device.drop_ingress(1);
    assert_eq!(device.ingress, ["a", "c"]);
}

#[test]
fn devices_hand_out_what_was_produced_in_order() {
    let mut device = VirtualDevice::new(1500);
    for data in ["a", "bc", "def"] {
        device.push_egress(Bytes::from_static(data.as_bytes()));
    }
    assert_eq!(device.drain_egress(), ["a", "bc", "def"]);
    assert!(device.drain_egress().is_empty());
}

#[test]
fn queues_are_first_in_first_out() {
    let mut queue = UdpQueue::new();
    assert!(queue.pop().is_none());
    queue.push(Bytes::from_static(b"1"));
    queue.push(Bytes::from_static(b"2"));
    assert!(!queue.is_closed());
    queue.mark_closed();
    assert!(queue.is_closed());
    assert_eq!(queue.pop().unwrap(), "1");
    assert_eq!(queue.pop().unwrap(), "2");
    assert!(queue.pop().is_none());
}

#[test]
fn a_store_reuses_the_numbers_of_removed_queues() {
    let mut store = QueueStore::new();
    let a = store.add(UdpQueue::new());
    let b = store.add(UdpQueue::new());
    assert_ne!(a, b);
    store.get_mut(b).unwrap().push(Bytes::from_static(b"kept"));
    store.remove(a);
    assert!(store.get_mut(a).is_none());
    let c = store.add(UdpQueue::new());
    assert_eq!(c, a);
    assert_eq!(store.get_mut(b).unwrap().pop().unwrap(), "kept");
    store.remove(99);
    assert!(store.get_mut(99).is_none());
}

#[test]
fn tables_map_keys_to_values() {
    let mut table: Table<SessionKey, u8> = Table::new();
    assert!(table.get(&key(1)).is_none());
    table.insert(key(1), 10);
    table.insert(key(2), 20);
    table.insert(key(3), 30);
    table.insert(key(2), 21);
    assert_eq!(table.len(), 3);
    assert_eq!(table.get(&key(2)), Some(&21));
    *table.get_mut(&key(3)).unwrap() += 1;
    assert_eq!(table.remove(&key(1)), Some(10));
    assert_eq!(table.remove(&key(1)), None);
    assert!(!table.contains_key(&key(1)));
    assert_eq!(table.key_at(0), key(2));
    assert_eq!(table.key_at(1), key(3));
    assert_eq!(table.get(&key(3)), Some(&31));
}

#[test]
fn keys_tell_flows_apart() {
    let mut table: Table<SessionKey, u8> = Table::new();
    let base = key(1);
    table.insert(base, 1);
    for other in [
        SessionKey { proto: Proto::Tcp, ..base },
        SessionKey { interface: InterfaceId::new(4).unwrap(), ..base },
        SessionKey { src: endpoint(9, 1), ..base },
        SessionKey { dst: endpoint(2, 54), ..base },
    ] {
        assert!(!table.contains_key(&other));
    }
    let expected = Destination { interface: base.interface, dst: base.dst };
    assert_eq!(base.destination(), expected);
}

#[test]
fn shared_sockets_are_counted() {
    let mut manager = SessionManager::new();
    let interface = InterfaceId::new(3).unwrap();
    let dst = endpoint(2, 53);
    let hs = handles(2);
    assert_eq!(manager.udp_socket_for(interface, dst, None), None);
    assert_eq!(manager.udp_socket_for(interface, dst, Some(hs[0])), Some(hs[0]));
    assert_eq!(manager.udp_socket_for(interface, dst, Some(hs[1])), Some(hs[0]));
    manager.udp_socket_retain(interface, dst);
    manager.udp_socket_retain(interface, dst);
    assert!(!manager.udp_socket_release(interface, dst));
    assert!(manager.udp_socket_release(interface, dst));
    assert!(!manager.udp_socket_release(interface, dst));
    assert_eq!(manager.udp_socket_for(interface, dst, Some(hs[1])), Some(hs[1]));
    // A socket that no session has used yet goes at the first release.
    assert!(manager.udp_socket_release(interface, dst));
    assert!(manager.get_tcp(&key(1)).is_none());
    assert!(manager.get_udp(&key(1)).is_none());
}
