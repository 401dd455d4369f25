//! End-to-end tests: a real `smoltcp` peer stands in for the application on the
//! intercepted interface, and a "cable" shuttles IP packets between the peer and the
//! stack.

use std::collections::VecDeque;

use bytes::Bytes;
use smoltcp::iface::{Config, Interface, SocketHandle, SocketSet};
use smoltcp::phy::{Device, DeviceCapabilities, Medium};
use smoltcp::socket::{tcp, udp};
use smoltcp::time::Instant;
use smoltcp::wire::{HardwareAddress, IpAddress, IpCidr};
use way_netstack::addr::{self, IpEndpoint};
use way_netstack::admission::{Refusal, Refused};
use way_netstack::builder::{InterfaceConfig, NetstackBuilder};
use way_netstack::device::VirtualDevice;
use way_netstack::handle::IngressPacket;
use way_netstack::runner::post::post_pass;
use way_netstack::runner::pre::pre_pass;
use way_netstack::runner::{collect_egress, queue_ingress};
use way_netstack::session::Session;
use way_netstack::state::Core;
use way_netstack::stream::tcp::{ReadOutcome, WayTcpStream, WriteOutcome};
use way_netstack::stream::udp::{RecvOutcome, SendOutcome, WayUdpSession};
use way_netstack::InterfaceId;

const IF: u16 = 0;

/// One step of the cable takes two milliseconds.
const STEP: i64 = 2_000;

/// Minimal in-memory device for the peer side.
struct TestDevice {
    ingress: VecDeque<Bytes>,
    egress: VecDeque<Bytes>,
}

struct RxToken {
    packet: Bytes,
}

impl smoltcp::phy::RxToken for RxToken {
    fn consume<R, F>(self, f: F) -> R
    where
        F: FnOnce(&[u8]) -> R,
    {
        f(&self.packet)
    }
}

struct TxToken<'a> {
    egress: &'a mut VecDeque<Bytes>,
}

impl smoltcp::phy::TxToken for TxToken<'_> {
    fn consume<R, F>(self, len: usize, f: F) -> R
    where
        F: FnOnce(&mut [u8]) -> R,
    {
        let mut buf = vec![0u8; len];
        let result = f(&mut buf);
        self.egress.push_back(Bytes::from(buf));
        result
    }
}

impl Device for TestDevice {
    type RxToken<'a> = RxToken;
    type TxToken<'a> = TxToken<'a>;

    fn receive(&mut self, _ts: Instant) -> Option<(Self::RxToken<'_>, Self::TxToken<'_>)> {
        let packet = self.ingress.pop_front()?;
        Some((RxToken { packet }, TxToken { egress: &mut self.egress }))
    }

    fn transmit(&mut self, _ts: Instant) -> Option<Self::TxToken<'_>> {
        Some(TxToken { egress: &mut self.egress })
    }

    fn capabilities(&self) -> DeviceCapabilities {
        let mut caps = DeviceCapabilities::default();
        caps.medium = Medium::Ip;
        caps.max_transmission_unit = 1500;
        caps
    }
}

/// The device of the stack, as the engine sees it.
struct StackDevice<'d>(&'d mut VirtualDevice);

impl Device for StackDevice<'_> {
    type RxToken<'a>
        = RxToken
    where
        Self: 'a;
    type TxToken<'a>
        = TxToken<'a>
    where
        Self: 'a;

    fn receive(&mut self, _ts: Instant) -> Option<(Self::RxToken<'_>, Self::TxToken<'_>)> {
        let packet = self.0.pop_ingress()?;
        Some((RxToken { packet }, TxToken { egress: &mut self.0.egress }))
    }

    fn transmit(&mut self, _ts: Instant) -> Option<Self::TxToken<'_>> {
        Some(TxToken { egress: &mut self.0.egress })
    }

    fn capabilities(&self) -> DeviceCapabilities {
        let mut caps = DeviceCapabilities::default();
        caps.medium = Medium::Ip;
        caps.max_transmission_unit = self.0.mtu;
        caps
    }
}

/// The peer stack (the "application" behind the intercepted interface).
struct Peer {
    iface: Interface,
    device: TestDevice,
    sockets: SocketSet<'static>,
}

impl Peer {
    fn new(ip: IpAddress, prefix: u8) -> Peer {
        let mut device = TestDevice { ingress: VecDeque::new(), egress: VecDeque::new() };
        let mut config = Config::new(HardwareAddress::Ip);
        config.random_seed = 0xdeadbeef;
        let mut iface = Interface::new(config, &mut device, Instant::from_millis(0));
        iface.update_ip_addrs(|addrs| {
            addrs.push(IpCidr::new(ip, prefix)).unwrap();
        });
        Peer { iface, device, sockets: SocketSet::new(vec![]) }
    }

    fn add_tcp_client(&mut self) -> SocketHandle {
        let rx = tcp::SocketBuffer::new(vec![0u8; 64 * 1024]);
        let tx = tcp::SocketBuffer::new(vec![0u8; 64 * 1024]);
        self.sockets.add(tcp::Socket::new(rx, tx))
    }

    fn add_udp_client(&mut self) -> SocketHandle {
        let rx = udp::PacketBuffer::new(vec![udp::PacketMetadata::EMPTY; 8], vec![0u8; 1500]);
        let tx = udp::PacketBuffer::new(vec![udp::PacketMetadata::EMPTY; 8], vec![0u8; 1500]);
        self.sockets.add(udp::Socket::new(rx, tx))
    }

    fn connect_tcp(&mut self, handle: SocketHandle, remote: IpAddress, port: u16) {
        self.connect_tcp_from(40000 + port % 1000, handle, remote, port);
    }

    fn connect_tcp_from(&mut self, local: u16, handle: SocketHandle, remote: IpAddress, port: u16) {
        let socket = self.sockets.get_mut::<tcp::Socket>(handle);
        let _ = socket.connect(self.iface.context(), (remote, port), local);
    }
}

/// The stack, the peer, and the cable between them.
struct Bench {
    core: Core,
    peer: Peer,
    now: i64,
    sessions: VecDeque<Session>,
    refused: Vec<Refused>,
}

impl Bench {
    fn new(builder: NetstackBuilder, peer_ip: IpAddress, prefix: u8) -> Bench {
        assert!(builder.is_valid());
        let mut ifaces = Vec::new();
        for _ in 0..builder.interface_count() {
            let mut device = VirtualDevice::new(builder.parameters().mtu);
            let config = Config::new(HardwareAddress::Ip);
            ifaces.push(Interface::new(
                config,
                &mut StackDevice(&mut device),
                Instant::from_millis(0),
            ));
        }
        let mut unassigned = Vec::new();
        let core = builder.build(ifaces, &mut unassigned).unwrap();
        assert!(unassigned.is_empty());
        assert!(core.config.is_supported());
        Bench {
            core,
            peer: Peer::new(peer_ip, prefix),
            now: 0,
            sessions: VecDeque::new(),
            refused: Vec::new(),
        }
    }

    /// One poll cycle of the stack.
    fn poll_stack(&mut self) {
        let mut accepted = Vec::new();
        pre_pass(&mut self.core, self.now, &mut accepted, &mut self.refused);
        let now = Instant::from_micros(self.now);
        for slot in &mut self.core.slots {
            let _ = slot.iface.poll(now, &mut StackDevice(&mut slot.device), &mut slot.sockets);
        }
        post_pass(&mut self.core, self.now, &mut accepted);
        self.sessions.extend(accepted);
        for packet in collect_egress(&mut self.core) {
            assert_eq!(packet.interface_id, InterfaceId::new(IF).unwrap());
            self.peer.device.ingress.push_back(packet.data);
        }
    }

    /// Packets of the peer go to the stack, and the other way round.
    fn step(&mut self) {
        self.now += STEP;
        let now = Instant::from_micros(self.now);
        self.peer.iface.poll(now, &mut self.peer.device, &mut self.peer.sockets);
        while let Some(data) = self.peer.device.egress.pop_front() {
            let interface = InterfaceId::new(IF).unwrap();
            assert!(queue_ingress(&mut self.core, IngressPacket { interface, data }));
        }
        self.poll_stack();
    }

    /// Steps until the condition holds, for at most five seconds.
    fn wait_for(&mut self, mut condition: impl FnMut(&mut Bench) -> bool) {
        for _ in 0..2500 {
            if condition(self) {
                return;
            }
            self.step();
        }
        panic!("condition not met");
    }

    fn wait_session(&mut self) -> Session {
        self.wait_for(|b| !b.sessions.is_empty());
        self.sessions.pop_front().unwrap()
    }

    fn wait_tcp(&mut self) -> WayTcpStream {
        match self.wait_session() {
            Session::Tcp(stream) => stream,
            Session::Udp(_) => panic!("expected TCP session"),
        }
    }

    fn wait_udp(&mut self) -> WayUdpSession {
        match self.wait_session() {
            Session::Udp(session) => session,
            Session::Tcp(_) => panic!("expected UDP session"),
        }
    }

    fn read(&mut self, stream: &WayTcpStream, buf: &mut [u8]) -> usize {
        let mut read = None;
        self.wait_for(|b| {
            read = match stream.poll_read(&mut b.core, buf) {
                ReadOutcome::Data(n) => Some(n),
                ReadOutcome::Eof => Some(0),
                ReadOutcome::WouldBlock => None,
                ReadOutcome::Gone => panic!("interface is gone"),
            };
            read.is_some()
        });
        read.unwrap()
    }

    fn write_all(&mut self, stream: &WayTcpStream, data: &[u8]) {
        let mut written = 0;
        self.wait_for(|b| {
            match stream.poll_write(&mut b.core, &data[written..]) {
                WriteOutcome::Written(n) => written += n,
                WriteOutcome::WouldBlock => {}
                other => panic!("cannot write: {other:?}"),
            }
            written == data.len()
        });
    }

    fn recv(&mut self, session: &WayUdpSession) -> Option<Bytes> {
        let mut received = None;
        self.wait_for(|b| {
            match session.recv(&mut b.core) {
                RecvOutcome::Datagram(data) => received = Some(Some(data)),
                RecvOutcome::Closed => received = Some(None),
                RecvOutcome::Empty => {}
            }
            received.is_some()
        });
        received.unwrap()
    }

    fn send(&mut self, session: &WayUdpSession, data: Bytes) {
        self.wait_for(|b| match session.send(&mut b.core, &data, b.now) {
            SendOutcome::Sent => true,
            SendOutcome::Full => false,
            SendOutcome::Failed(e) => panic!("cannot send: {e:?}"),
        });
    }
}

fn v4(a: u8, b: u8, c: u8, d: u8) -> addr::Ipv4Addr {
    addr::Ipv4Addr { bits: u32::from_be_bytes([a, b, c, d]) }
}

/// `2001:db8::n`.
fn v6(n: u16) -> addr::Ipv6Addr {
    addr::Ipv6Addr { bits: 0x2001_0db8_0000_0000_0000_0000_0000_0000 + n as u128 }
}

fn endpoint4(ip: addr::Ipv4Addr, port: u16) -> IpEndpoint {
    IpEndpoint { addr: addr::IpAddress::Ipv4(ip), port }
}

fn endpoint6(ip: addr::Ipv6Addr, port: u16) -> IpEndpoint {
    IpEndpoint { addr: addr::IpAddress::Ipv6(ip), port }
}

fn with_interface(builder: NetstackBuilder, spec: InterfaceConfig) -> NetstackBuilder {
    match builder.add_interface(InterfaceId::new(IF).unwrap(), spec) {
        Ok(builder) => builder,
        Err(e) => panic!("cannot add interface: {e:?}"),
    }
}

fn tcp_echo(
    spec: InterfaceConfig,
    peer_ip: IpAddress,
    prefix: u8,
    dst: IpAddress,
    dst_port: u16,
    expected_src: IpEndpoint,
    expected_dst: IpEndpoint,
) {
    let mut bench = Bench::new(with_interface(NetstackBuilder::new(), spec), peer_ip, prefix);
    let client = bench.peer.add_tcp_client();
    bench.peer.connect_tcp(client, dst, dst_port);

    let stream = bench.wait_tcp();
    assert_eq!(stream.src_addr(), expected_src);
    assert_eq!(stream.dst_addr(), expected_dst);
    assert_eq!(stream.interface_id(), InterfaceId::new(IF).unwrap());

    // Application sends a request.
    bench.wait_for(|b| {
        let s = b.peer.sockets.get_mut::<tcp::Socket>(client);
        s.is_active() && s.can_send()
    });
    let app = bench.peer.sockets.get_mut::<tcp::Socket>(client);
    assert_eq!(app.send_slice(b"hello netstack"), Ok(14));

    // The interceptor reads it from the stream.
    let mut buf = [0u8; 64];
    let n = bench.read(&stream, &mut buf);
    assert_eq!(&buf[..n], b"hello netstack");

    // The interceptor replies; the application receives it.
    bench.write_all(&stream, b"world!");
    bench.wait_for(|b| b.peer.sockets.get_mut::<tcp::Socket>(client).can_recv());
    let mut got = [0u8; 16];
    let app = bench.peer.sockets.get_mut::<tcp::Socket>(client);
    let n = app.recv_slice(&mut got).expect("recv failed");
    assert_eq!(&got[..n], b"world!");

    // Graceful close: application closes, interceptor sees EOF.
    bench.peer.sockets.get_mut::<tcp::Socket>(client).close();
    let mut buf = [0u8; 16];
    let n = bench.read(&stream, &mut buf);
    assert_eq!(n, 0, "expected EOF");
}

#[test]
fn tcp_echo_ipv4() {
    tcp_echo(
        InterfaceConfig::new(v4(10, 0, 0, 1), 24),
        IpAddress::v4(10, 0, 0, 2),
        24,
        IpAddress::v4(10, 0, 0, 2),
        8080,
        endpoint4(v4(10, 0, 0, 2), 40080),
        endpoint4(v4(10, 0, 0, 2), 8080),
    );
}

#[test]
fn tcp_echo_ipv6() {
    tcp_echo(
        InterfaceConfig::new_ipv6(v6(1), 64),
        IpAddress::v6(0x2001, 0x0db8, 0, 0, 0, 0, 0, 2),
        64,
        IpAddress::v6(0x2001, 0x0db8, 0, 0, 0, 0, 0, 2),
        8081,
        endpoint6(v6(2), 40081),
        endpoint6(v6(2), 8081),
    );
}

fn udp_relay(
    spec: InterfaceConfig,
    peer_ip: IpAddress,
    prefix: u8,
    bind: (IpAddress, u16),
    remote: (IpAddress, u16),
    expected_src: IpEndpoint,
    expected_dst: IpEndpoint,
) {
    let mut bench = Bench::new(with_interface(NetstackBuilder::new(), spec), peer_ip, prefix);
    let client = bench.peer.add_udp_client();
    let socket = bench.peer.sockets.get_mut::<udp::Socket>(client);
    socket.bind(bind).unwrap();

    // The application sends a datagram to the remote.
    socket.send_slice(b"DNS QUERY", remote).unwrap();

    // The stack exposes it as a UDP session.
    let session = bench.wait_udp();
    assert_eq!(session.src_addr(), expected_src);
    assert_eq!(session.dst_addr(), expected_dst);
    assert_eq!(session.dst_addr().port, remote.1, "must be interceptable by port");

    // The interceptor reads the query...
    let query = bench.recv(&session).expect("session should not be closed");
    assert_eq!(&query[..], b"DNS QUERY");

    // ...and replies; the application receives the reply.
    bench.send(&session, Bytes::from_static(b"DNS REPLY"));
    bench.wait_for(|b| match b.peer.sockets.get_mut::<udp::Socket>(client).recv() {
        Ok((payload, meta)) => {
            assert_eq!(meta.endpoint.port, remote.1);
            assert_eq!(meta.endpoint.addr, remote.0);
            payload == b"DNS REPLY"
        }
        Err(_) => false,
    });
}

#[test]
fn udp_relay_ipv4_dns() {
    udp_relay(
        InterfaceConfig::new(v4(10, 0, 0, 1), 24),
        IpAddress::v4(10, 0, 0, 2),
        24,
        (IpAddress::v4(10, 0, 0, 2), 9000),
        (IpAddress::v4(8, 8, 8, 8), 53),
        endpoint4(v4(10, 0, 0, 2), 9000),
        endpoint4(v4(8, 8, 8, 8), 53),
    );
}

#[test]
fn udp_relay_ipv6() {
    udp_relay(
        InterfaceConfig::new_ipv6(v6(1), 64),
        IpAddress::v6(0x2001, 0x0db8, 0, 0, 0, 0, 0, 2),
        64,
        (IpAddress::v6(0x2001, 0x0db8, 0, 0, 0, 0, 0, 2), 9001),
        (IpAddress::v6(0x2001, 0x0db8, 0, 0, 0, 0, 0, 9), 5353),
        endpoint6(v6(2), 9001),
        endpoint6(v6(9), 5353),
    );
}

/// A burst of datagrams on a single UDP session must be drained without loss.
#[test]
fn udp_burst_within_buffer() {
    let builder = with_interface(
        NetstackBuilder::new(),
        InterfaceConfig::new(v4(10, 0, 0, 1), 24),
    );
    let mut bench = Bench::new(builder, IpAddress::v4(10, 0, 0, 2), 24);
    let remote = (IpAddress::v4(8, 8, 8, 8), 53);
    let client = bench.peer.add_udp_client();
    let socket = bench.peer.sockets.get_mut::<udp::Socket>(client);
    socket.bind((IpAddress::v4(10, 0, 0, 2), 9000)).unwrap();

    const N: usize = 200;
    let payload = Bytes::from_static(b"burst-datagram-0123456789");
    for _ in 0..N {
        let socket = bench.peer.sockets.get_mut::<udp::Socket>(client);
        socket.send_slice(payload.as_ref(), remote).unwrap();
        bench.step();
    }

    let session = bench.wait_udp();
    for _ in 0..N {
        let datagram = bench.recv(&session).expect("session closed before burst drained");
        assert_eq!(datagram.as_ref(), payload.as_ref());
    }
}

/// With an opt-in RAM budget, only connections that fit reserve TCP socket buffers;
/// the budget-exceeding SYN is dropped.
#[test]
fn tcp_memory_budget_bounded() {
    // One TCP socket (rx+tx) costs 32 KiB. Set the budget to exactly one socket's
    // worth.
    let builder = with_interface(
        NetstackBuilder::new().max_buffer_bytes(Some(2 * 16 * 1024)),
        InterfaceConfig::new(v4(10, 0, 0, 1), 24),
    );
    let mut bench = Bench::new(builder, IpAddress::v4(10, 0, 0, 2), 24);

    // Two distinct dst endpoints, SYNs opened together.
    let client1 = bench.peer.add_tcp_client();
    bench.peer.connect_tcp(client1, IpAddress::v4(10, 0, 0, 2), 8080);
    let client2 = bench.peer.add_tcp_client();
    bench.peer.connect_tcp(client2, IpAddress::v4(10, 0, 0, 2), 8081);

    // Only the first socket has the budget; the second is dropped.
    let _first = bench.wait_tcp();
    for _ in 0..250 {
        bench.step();
        assert!(bench.sessions.is_empty(), "second session must be dropped by the budget");
    }
    assert_eq!(bench.core.buffer_bytes, 2 * 16 * 1024);
}

/// A datagram that the send buffer has no room for is sent when it has.
#[test]
fn udp_send_backpressure_retries() {
    let builder = with_interface(
        NetstackBuilder::new().udp_buffer(4, 4 * 1024),
        InterfaceConfig::new(v4(10, 0, 0, 1), 24),
    );
    let mut bench = Bench::new(builder, IpAddress::v4(10, 0, 0, 2), 24);

    // Large peer rx so the burst never drops at the *peer*.
    let rx = udp::PacketBuffer::new(vec![udp::PacketMetadata::EMPTY; 256], vec![0u8; 256 * 1024]);
    let tx = udp::PacketBuffer::new(vec![udp::PacketMetadata::EMPTY; 8], vec![0u8; 1024]);
    let client = bench.peer.sockets.add(udp::Socket::new(rx, tx));
    let socket = bench.peer.sockets.get_mut::<udp::Socket>(client);
    socket.bind((IpAddress::v4(10, 0, 0, 2), 9000)).unwrap();
    socket.send_slice(b"QUERY", (IpAddress::v4(8, 8, 8, 8), 53)).unwrap();
    let session = bench.wait_udp();

    const N: usize = 64;
    const DATA: &[u8] = b"backpressure-datagram-0123456789";
    let mut full = 0;
    for _ in 0..N {
        let data = Bytes::from_static(DATA);
        bench.wait_for(|b| match session.send(&mut b.core, &data, b.now) {
            SendOutcome::Sent => true,
            SendOutcome::Full => {
                full += 1;
                false
            }
            SendOutcome::Failed(e) => panic!("cannot send: {e:?}"),
        });
    }
    assert!(full > 0, "the buffer must have been full at times");

    let mut got = 0;
    bench.wait_for(|b| {
        if let Ok((datagram, _)) = b.peer.sockets.get_mut::<udp::Socket>(client).recv() {
            assert_eq!(datagram, DATA);
            got += 1;
        }
        got == N
    });
}

fn two_clients(bench: &mut Bench, remote: (IpAddress, u16)) -> (SocketHandle, SocketHandle) {
    let a = bench.peer.add_udp_client();
    let b = bench.peer.add_udp_client();
    for (handle, port, data) in [(a, 9000, b"from a"), (b, 9001, b"from b")] {
        let socket = bench.peer.sockets.get_mut::<udp::Socket>(handle);
        socket.bind((IpAddress::v4(10, 0, 0, 2), port)).unwrap();
        socket.send_slice(data, remote).unwrap();
    }
    (a, b)
}

fn default_bench() -> Bench {
    let builder = with_interface(
        NetstackBuilder::new(),
        InterfaceConfig::new(v4(10, 0, 0, 1), 24),
    );
    Bench::new(builder, IpAddress::v4(10, 0, 0, 2), 24)
}

/// Sessions to one destination share a socket, and each gets its own datagrams, in
/// their order.
#[test]
fn datagrams_go_to_the_session_of_their_source() {
    let mut bench = default_bench();
    let remote = (IpAddress::v4(8, 8, 8, 8), 53);
    let (a, b) = two_clients(&mut bench, remote);
    let first = bench.wait_udp();
    let second = bench.wait_udp();
    assert_eq!(first.src_addr().port, 9000);
    assert_eq!(second.src_addr().port, 9001);
    assert_eq!(first.socket, second.socket);
    assert_ne!(first.queue, second.queue);
    assert_eq!(bench.core.manager.udp_dst_sockets.len(), 1);
    assert_eq!(bench.core.buffer_bytes, 2 * (16 * 64 + 16 * 1024));
    for (client, data) in [(a, b"one"), (b, b"two"), (a, b"xyz")] {
        let socket = bench.peer.sockets.get_mut::<udp::Socket>(client);
        socket.send_slice(data, remote).unwrap();
        bench.step();
    }
    assert_eq!(&bench.recv(&first).unwrap()[..], b"from a");
    assert_eq!(&bench.recv(&first).unwrap()[..], b"one");
    assert_eq!(&bench.recv(&first).unwrap()[..], b"xyz");
    assert_eq!(&bench.recv(&second).unwrap()[..], b"from b");
    assert_eq!(&bench.recv(&second).unwrap()[..], b"two");
    assert!(matches!(first.recv(&mut bench.core), RecvOutcome::Empty));
}

/// A shared socket goes with the last session that uses it.
#[test]
fn the_last_session_takes_the_socket_with_it() {
    let mut bench = default_bench();
    two_clients(&mut bench, (IpAddress::v4(8, 8, 8, 8), 53));
    let first = bench.wait_udp();
    let second = bench.wait_udp();
    first.dropped(&mut bench.core);
    assert_eq!(bench.core.manager.udp.len(), 1);
    assert_eq!(bench.core.manager.udp_dst_sockets.len(), 1);
    assert_eq!(bench.core.buffer_bytes, 2 * (16 * 64 + 16 * 1024));
    let reply = Bytes::from_static(b"still here");
    assert!(matches!(second.send(&mut bench.core, &reply, bench.now), SendOutcome::Sent));
    second.dropped(&mut bench.core);
    assert_eq!(bench.core.manager.udp.len(), 0);
    assert_eq!(bench.core.manager.udp_dst_sockets.len(), 0);
    assert_eq!(bench.core.buffer_bytes, 0);
    assert_eq!(bench.core.slots[0].sockets.iter().count(), 0);
}

/// A session that has been silent for longer than the timeout is reclaimed; what it
/// received before can still be read, and nothing can be sent.
#[test]
fn silent_sessions_are_reclaimed() {
    let mut bench = default_bench();
    two_clients(&mut bench, (IpAddress::v4(8, 8, 8, 8), 53));
    let session = bench.wait_udp();
    let last = bench.now;
    bench.now = last + 30_000_000;
    bench.poll_stack();
    assert_eq!(bench.core.manager.udp.len(), 2);
    bench.now += 1;
    bench.poll_stack();
    assert_eq!(bench.core.manager.udp.len(), 0);
    assert_eq!(bench.core.buffer_bytes, 0);
    assert_eq!(&bench.recv(&session).unwrap()[..], b"from a");
    assert!(bench.recv(&session).is_none());
    let reply = Bytes::from_static(b"too late");
    match session.send(&mut bench.core, &reply, bench.now) {
        SendOutcome::Failed(way_netstack::error::NetstackError::UdpNotOpen) => {}
        _ => panic!("must not be open"),
    }
    session.dropped(&mut bench.core);
}

/// Traffic keeps a session alive.
#[test]
fn traffic_keeps_a_session() {
    let mut bench = default_bench();
    let remote = (IpAddress::v4(8, 8, 8, 8), 53);
    let (a, _) = two_clients(&mut bench, remote);
    let session = bench.wait_udp();
    bench.now += 20_000_000;
    let socket = bench.peer.sockets.get_mut::<udp::Socket>(a);
    socket.send_slice(b"again", remote).unwrap();
    bench.step();
    bench.now += 20_000_000;
    bench.step();
    assert_eq!(bench.core.manager.udp.len(), 1);
    assert!(bench.core.manager.get_udp(&session.key).is_some());
}

/// A dropped stream is reclaimed once its connection is fully closed, and not before.
#[test]
fn dropped_streams_are_reclaimed_when_closed() {
    let mut bench = default_bench();
    let client = bench.peer.add_tcp_client();
    bench.peer.connect_tcp(client, IpAddress::v4(1, 2, 3, 4), 80);
    let stream = bench.wait_tcp();
    assert_eq!(bench.core.buffer_bytes, 2 * 16 * 1024);
    stream.dropped(&mut bench.core);
    bench.step();
    bench.step();
    assert_eq!(bench.core.manager.tcp.len(), 1);
    bench.peer.sockets.get_mut::<tcp::Socket>(client).close();
    // The closing handshake, and the wait that follows it.
    bench.wait_for(|b| {
        b.now += 100_000;
        b.core.manager.tcp.len() == 0
    });
    assert_eq!(bench.core.buffer_bytes, 0);
    assert_eq!(bench.core.slots[0].sockets.iter().count(), 0);
}

/// The stack keeps the socket of a stream, whatever becomes of the connection.
#[test]
fn a_reset_stream_keeps_its_socket() {
    let mut bench = default_bench();
    let client = bench.peer.add_tcp_client();
    bench.peer.connect_tcp(client, IpAddress::v4(1, 2, 3, 4), 80);
    let stream = bench.wait_tcp();
    bench.peer.sockets.get_mut::<tcp::Socket>(client).abort();
    for _ in 0..10 {
        bench.step();
    }
    let mut buf = [0u8; 4];
    assert_eq!(stream.poll_read(&mut bench.core, &mut buf), ReadOutcome::Eof);
    assert_eq!(stream.poll_write(&mut bench.core, b"x"), WriteOutcome::Closed);
    assert_eq!(bench.core.manager.tcp.len(), 1);
    stream.poll_shutdown(&mut bench.core);
    stream.dropped(&mut bench.core);
    bench.step();
    assert_eq!(bench.core.manager.tcp.len(), 0);
}

/// After the writing half is shut down, the application sees the end of the stream,
/// and the stream can still be read.
#[test]
fn a_stream_can_be_read_after_shutdown() {
    let mut bench = default_bench();
    let client = bench.peer.add_tcp_client();
    bench.peer.connect_tcp(client, IpAddress::v4(1, 2, 3, 4), 80);
    let stream = bench.wait_tcp();
    stream.poll_shutdown(&mut bench.core);
    bench.wait_for(|b| !b.peer.sockets.get_mut::<tcp::Socket>(client).may_recv());
    let socket = bench.peer.sockets.get_mut::<tcp::Socket>(client);
    assert_eq!(socket.send_slice(b"late"), Ok(4));
    let mut buf = [0u8; 8];
    let n = bench.read(&stream, &mut buf);
    assert_eq!(&buf[..n], b"late");
    assert_eq!(stream.poll_write(&mut bench.core, b"x"), WriteOutcome::WouldBlock);
}

/// A short read takes the oldest octets and leaves the rest; an empty one waits.
#[test]
fn reads_take_what_fits() {
    let mut bench = default_bench();
    let client = bench.peer.add_tcp_client();
    bench.peer.connect_tcp(client, IpAddress::v4(1, 2, 3, 4), 80);
    let stream = bench.wait_tcp();
    let mut buf = [0u8; 3];
    assert_eq!(stream.poll_read(&mut bench.core, &mut buf), ReadOutcome::WouldBlock);
    bench.wait_for(|b| b.peer.sockets.get_mut::<tcp::Socket>(client).can_send());
    bench.peer.sockets.get_mut::<tcp::Socket>(client).send_slice(b"abcde").unwrap();
    for _ in 0..5 {
        bench.step();
    }
    assert_eq!(stream.poll_read(&mut bench.core, &mut []), ReadOutcome::WouldBlock);
    assert_eq!(stream.poll_read(&mut bench.core, &mut buf), ReadOutcome::Data(3));
    assert_eq!(&buf, b"abc");
    assert_eq!(stream.poll_read(&mut bench.core, &mut buf), ReadOutcome::Data(2));
    assert_eq!(&buf, b"dec");
}

/// Writes take what the send buffer has room for.
#[test]
fn writes_take_what_fits() {
    let builder = with_interface(
        NetstackBuilder::new().tcp_buffer_size(10),
        InterfaceConfig::new(v4(10, 0, 0, 1), 24),
    );
    let mut bench = Bench::new(builder, IpAddress::v4(10, 0, 0, 2), 24);
    let client = bench.peer.add_tcp_client();
    bench.peer.connect_tcp(client, IpAddress::v4(1, 2, 3, 4), 80);
    let stream = bench.wait_tcp();
    assert_eq!(bench.core.buffer_bytes, 20);
    assert_eq!(stream.poll_write(&mut bench.core, b"0123456"), WriteOutcome::Written(7));
    assert_eq!(stream.poll_write(&mut bench.core, b"789abc"), WriteOutcome::Written(3));
    assert_eq!(stream.poll_write(&mut bench.core, b"abc"), WriteOutcome::WouldBlock);
    bench.wait_for(|b| b.peer.sockets.get_mut::<tcp::Socket>(client).recv_queue() == 10);
    let mut got = [0u8; 16];
    let n = bench.peer.sockets.get_mut::<tcp::Socket>(client).recv_slice(&mut got).unwrap();
    assert_eq!(&got[..n], b"0123456789");
}

/// Extra SYNs stay unallocated until a session frees, and are then served.
#[test]
fn extra_syns_wait_for_a_free_session() {
    let builder = with_interface(
        NetstackBuilder::new().tcp_max_connections(1),
        InterfaceConfig::new(v4(10, 0, 0, 1), 24),
    );
    let mut bench = Bench::new(builder, IpAddress::v4(10, 0, 0, 2), 24);
    let one = bench.peer.add_tcp_client();
    bench.peer.connect_tcp(one, IpAddress::v4(1, 2, 3, 4), 80);
    let stream = bench.wait_tcp();
    let two = bench.peer.add_tcp_client();
    bench.peer.connect_tcp(two, IpAddress::v4(1, 2, 3, 4), 81);
    for _ in 0..100 {
        bench.step();
    }
    assert!(bench.sessions.is_empty());
    assert_eq!(bench.core.manager.tcp.len(), 1);
    // The SYN was not rejected: the application is still trying.
    assert_eq!(bench.refused[0].reason, Refusal::Limit);
    assert_eq!(bench.refused[0].key.dst.port, 81);
    let state = bench.peer.sockets.get_mut::<tcp::Socket>(two).state();
    assert_eq!(state, tcp::State::SynSent);
    bench.peer.sockets.get_mut::<tcp::Socket>(one).abort();
    for _ in 0..5 {
        bench.step();
    }
    stream.dropped(&mut bench.core);
    bench.step();
    assert_eq!(bench.core.manager.tcp.len(), 0);
    let served = bench.wait_tcp();
    assert_eq!(served.dst_addr().port, 81);
}

/// A second connection to a destination is reset, and may come when the first is over.
#[test]
fn a_second_connection_to_a_destination_is_reset() {
    let mut bench = default_bench();
    let dst = IpAddress::v4(1, 2, 3, 4);
    let one = bench.peer.add_tcp_client();
    bench.peer.connect_tcp_from(40001, one, dst, 80);
    let stream = bench.wait_tcp();
    let two = bench.peer.add_tcp_client();
    bench.peer.connect_tcp_from(40002, two, dst, 80);
    for _ in 0..5 {
        bench.step();
    }
    assert!(bench.sessions.is_empty());
    assert_eq!(bench.refused.len(), 1);
    assert_eq!(bench.refused[0].reason, Refusal::Occupied);
    assert_eq!(bench.refused[0].key.src.port, 40002);
    let state = bench.peer.sockets.get_mut::<tcp::Socket>(two).state();
    assert_eq!(state, tcp::State::Closed);
    bench.peer.sockets.get_mut::<tcp::Socket>(one).abort();
    for _ in 0..5 {
        bench.step();
    }
    bench.peer.connect_tcp_from(40003, two, dst, 80);
    assert_eq!(bench.wait_tcp().src_addr().port, 40003);
    stream.dropped(&mut bench.core);
}

/// A connection whose handshake and end arrive in one round is handed over all the same.
#[test]
fn a_connection_that_ends_at_once_is_handed_over() {
    let mut bench = default_bench();
    let client = bench.peer.add_tcp_client();
    bench.peer.connect_tcp(client, IpAddress::v4(1, 2, 3, 4), 80);
    bench.step();
    // The application completes the handshake, says something and closes.
    bench.now += STEP;
    let now = Instant::from_micros(bench.now);
    let peer = &mut bench.peer;
    peer.iface.poll(now, &mut peer.device, &mut peer.sockets);
    let socket = peer.sockets.get_mut::<tcp::Socket>(client);
    assert_eq!(socket.send_slice(b"bye"), Ok(3));
    socket.close();
    let stream = bench.wait_tcp();
    let phase = bench.core.slots[0].sockets.get::<tcp::Socket>(stream.handle).state();
    assert_eq!(phase, tcp::State::CloseWait);
    let mut buf = [0u8; 8];
    assert_eq!(stream.poll_read(&mut bench.core, &mut buf), ReadOutcome::Data(3));
    assert_eq!(stream.poll_read(&mut bench.core, &mut buf), ReadOutcome::Eof);
}

/// A reply keeps a session alive.
#[test]
fn replies_keep_a_session() {
    let mut bench = default_bench();
    two_clients(&mut bench, (IpAddress::v4(8, 8, 8, 8), 53));
    let session = bench.wait_udp();
    bench.now += 20_000_000;
    let reply = Bytes::from_static(b"still here");
    assert!(matches!(session.send(&mut bench.core, &reply, bench.now), SendOutcome::Sent));
    bench.now += 20_000_000;
    bench.step();
    assert_eq!(bench.core.manager.udp.len(), 1);
    assert!(bench.core.manager.get_udp(&session.key).is_some());
}

/// No more UDP sessions than configured.
#[test]
fn udp_sessions_are_limited() {
    let builder = with_interface(
        NetstackBuilder::new().udp_max_sessions(1),
        InterfaceConfig::new(v4(10, 0, 0, 1), 24),
    );
    let mut bench = Bench::new(builder, IpAddress::v4(10, 0, 0, 2), 24);
    two_clients(&mut bench, (IpAddress::v4(8, 8, 8, 8), 53));
    let session = bench.wait_udp();
    assert_eq!(session.src_addr().port, 9000);
    for _ in 0..10 {
        bench.step();
    }
    assert!(bench.sessions.is_empty());
    assert_eq!(bench.core.manager.udp.len(), 1);
    assert_eq!(bench.refused[0].reason, Refusal::Limit);
}

/// What a UDP socket has no record for is dropped.
#[test]
fn a_udp_socket_receives_as_many_datagrams_as_it_has_records_for() {
    let builder = with_interface(
        NetstackBuilder::new().udp_buffer(2, 4096),
        InterfaceConfig::new(v4(10, 0, 0, 1), 24),
    );
    let mut bench = Bench::new(builder, IpAddress::v4(10, 0, 0, 2), 24);
    let client = bench.peer.add_udp_client();
    let socket = bench.peer.sockets.get_mut::<udp::Socket>(client);
    socket.bind((IpAddress::v4(10, 0, 0, 2), 9000)).unwrap();
    for data in [b"1", b"2", b"3", b"4"] {
        socket.send_slice(data, (IpAddress::v4(8, 8, 8, 8), 53)).unwrap();
    }
    // All of them arrive in one round.
    let peer = &mut bench.peer;
    while peer.device.egress.len() < 4 {
        peer.iface.poll(Instant::from_micros(0), &mut peer.device, &mut peer.sockets);
    }
    let session = bench.wait_udp();
    assert_eq!(&bench.recv(&session).unwrap()[..], b"1");
    assert_eq!(&bench.recv(&session).unwrap()[..], b"2");
    for _ in 0..5 {
        bench.step();
    }
    assert!(matches!(session.recv(&mut bench.core), RecvOutcome::Empty));
}

/// A UDP socket that does not fit the budget is not allocated, and nothing is charged.
#[test]
fn udp_memory_budget_bounded() {
    let builder = with_interface(
        NetstackBuilder::new().udp_buffer(1, 2000).max_buffer_bytes(Some(2 * (64 + 2000) - 1)),
        InterfaceConfig::new(v4(10, 0, 0, 1), 24),
    );
    let mut bench = Bench::new(builder, IpAddress::v4(10, 0, 0, 2), 24);
    two_clients(&mut bench, (IpAddress::v4(8, 8, 8, 8), 53));
    for _ in 0..10 {
        bench.step();
    }
    assert!(bench.sessions.is_empty());
    assert_eq!(bench.core.buffer_bytes, 0);
    assert_eq!(bench.core.slots[0].sockets.iter().count(), 0);
}

/// Dropping a session that was reclaimed leaves the session alone that has come up for
/// the same flow since.
#[test]
fn dropping_a_reclaimed_session_leaves_its_successor_alone() {
    let mut bench = default_bench();
    let remote = (IpAddress::v4(8, 8, 8, 8), 53);
    let (a, _) = two_clients(&mut bench, remote);
    let old = bench.wait_udp();
    let _other = bench.wait_udp();
    bench.now += 31_000_000;
    bench.poll_stack();
    let socket = bench.peer.sockets.get_mut::<udp::Socket>(a);
    socket.send_slice(b"new", remote).unwrap();
    let new = bench.wait_udp();
    assert_eq!(new.key, old.key);
    assert_ne!(new.queue, old.queue);
    old.dropped(&mut bench.core);
    assert_eq!(bench.core.manager.udp.len(), 1);
    assert_eq!(&bench.recv(&new).unwrap()[..], b"new");
    assert!(matches!(new.recv(&mut bench.core), RecvOutcome::Empty));
    let reply = Bytes::from_static(b"reply");
    assert!(matches!(new.send(&mut bench.core, &reply, bench.now), SendOutcome::Sent));
    new.dropped(&mut bench.core);
    assert_eq!(bench.core.manager.udp.len(), 0);
    assert_eq!(bench.core.buffer_bytes, 0);
}
