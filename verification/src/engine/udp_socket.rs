//! UDP sockets of the engine.

use smoltcp::socket::udp;
use vstd::prelude::*;

use crate::addr::{IpAddress, IpEndpoint};
use crate::engine::tcp_socket::LocalEndpoint;

verus! {

/// `smoltcp::socket::udp::Socket`.
#[verifier::external_type_specification]
#[verifier::external_body]
pub struct ExUdpSocket<'a>(smoltcp::socket::udp::Socket<'a>);

/// `smoltcp::socket::udp::BindError`.
#[verifier::external_type_specification]
#[verifier::external_body]
pub struct ExBindError(smoltcp::socket::udp::BindError);

/// Why no datagram can be taken from a UDP socket.
#[derive(Debug, Clone, Copy, PartialEq, Eq, Structural)]
pub enum UdpRecvError {
    /// None is queued.
    Exhausted,
    /// One was queued that did not fit.
    Truncated,
}

/// Why a datagram cannot be handed to a UDP socket.
#[derive(Debug, Clone, Copy, PartialEq, Eq, Structural)]
pub enum UdpSendError {
    /// The socket is not bound, or the target is no address to send to.
    Unaddressable,
    /// The send buffer has no room for the datagram.
    BufferFull,
}

/// A datagram in a socket's buffer, with the endpoint it came from or goes to.
pub struct Datagram {
    pub peer: IpEndpoint,
    pub data: Seq<u8>,
}

/// What a UDP socket holds.
pub struct UdpModel {
    /// Where it is bound.
    pub local: LocalEndpoint,
    /// How many datagrams the receive buffer has records for.
    pub rx_packets: nat,
    /// How many datagrams the send buffer has records for.
    pub tx_packets: nat,
    /// Datagrams received and not yet taken, the oldest first.
    pub rx: Seq<Datagram>,
    /// Datagrams queued and not yet sent, the oldest first.
    pub tx: Seq<Datagram>,
    /// The size of the largest datagram that the send buffer has room for, if it
    /// has room for one at all.
    pub tx_room: Option<nat>,
}

impl UdpModel {
    /// A socket that is not bound yet, with records for `packets` datagrams either way
    /// and room for `bytes` octets to send.
    pub open spec fn fresh(packets: nat, bytes: nat) -> UdpModel {
        UdpModel {
            local: LocalEndpoint::none(),
            rx_packets: packets,
            tx_packets: packets,
            rx: Seq::empty(),
            tx: Seq::empty(),
            tx_room: Some(bytes),
        }
    }

    /// A socket bound to `endpoint` that has carried nothing yet.
    pub open spec fn bound_at(endpoint: IpEndpoint, packets: nat, bytes: nat) -> UdpModel {
        UdpModel { local: LocalEndpoint::at(endpoint), ..UdpModel::fresh(packets, bytes) }
    }

    /// Both buffers have records for what they hold.
    pub open spec fn within_bounds(self) -> bool {
        self.rx.len() <= self.rx_packets && self.tx.len() <= self.tx_packets
    }

    /// A datagram for `target` can be addressed.
    pub open spec fn addressable(self, target: IpEndpoint) -> bool {
        self.local.port != 0 && !target.addr.is_unspecified() && target.port != 0
    }

    /// The send buffer has room for `n` octets.
    pub open spec fn has_room(self, n: nat) -> bool {
        self.tx_room matches Some(room) && n <= room
    }
}

/// What a UDP socket holds.
pub uninterp spec fn udp_model(socket: udp::Socket<'static>) -> UdpModel;

/// Calls `udp::Socket::new` with a receive and a send buffer, each for at most
/// `packets` datagrams of together at most `bytes` octets. The record that is kept
/// of a datagram takes at most 64 octets; buffers larger than the address space
/// admits make the call panic.
#[verifier::external_body]
pub(crate) fn new_socket(packets: usize, bytes: usize) -> (socket: udp::Socket<'static>)
    requires
        packets >= 1,
        packets * 64 + bytes <= isize::MAX,
    ensures
        udp_model(socket) == UdpModel::fresh(packets as nat, bytes as nat),
{
    udp::Socket::new(
        udp::PacketBuffer::new(vec![udp::PacketMetadata::EMPTY; packets], vec![0u8; bytes]),
        udp::PacketBuffer::new(vec![udp::PacketMetadata::EMPTY; packets], vec![0u8; bytes]),
    )
}

/// Calls `udp::Socket::bind`. Port zero is refused, and so is a socket that is
/// already bound.
#[verifier::external_body]
pub(crate) fn bind(socket: &mut udp::Socket<'static>, endpoint: IpEndpoint) -> (result: Result<
    (),
    udp::BindError,
>)
    ensures
        result is Ok <==> endpoint.port != 0 && udp_model(*old(socket)).local.port == 0,
        udp_model(*final(socket)) == if result is Ok {
            UdpModel { local: LocalEndpoint::at(endpoint), ..udp_model(*old(socket)) }
        } else {
            udp_model(*old(socket))
        },
{
    let addr = match endpoint.addr {
        IpAddress::Ipv4(a) => smoltcp::wire::IpAddress::Ipv4(
            smoltcp::wire::Ipv4Address::from_bits(a.bits),
        ),
        IpAddress::Ipv6(a) => smoltcp::wire::IpAddress::Ipv6(
            smoltcp::wire::Ipv6Address::from_bits(a.bits),
        ),
    };
    socket.bind(smoltcp::wire::IpEndpoint { addr, port: endpoint.port })
}

/// Calls `udp::Socket::recv`, which takes the oldest received datagram and lends
/// its contents. It fails only where there is none.
#[verifier::external_body]
pub(crate) fn recv<'a>(socket: &'a mut udp::Socket<'static>) -> (result: Result<
    (&'a [u8], IpEndpoint),
    UdpRecvError,
>)
    ensures
        match result {
            Ok((data, peer)) => {
                let before = udp_model(*old(socket));
                &&& before.rx.len() > 0
                &&& before.rx[0] == (Datagram { peer, data: data@ })
                &&& udp_model(*final(socket)) == (UdpModel { rx: before.rx.skip(1), ..before })
            },
            Err(e) => e is Exhausted && udp_model(*old(socket)).rx.len() == 0 && udp_model(
                *final(socket),
            ) == udp_model(*old(socket)),
        },
{
    let (data, meta) = match socket.recv() {
        Ok(received) => received,
        Err(udp::RecvError::Exhausted) => return Err(UdpRecvError::Exhausted),
        Err(udp::RecvError::Truncated) => return Err(UdpRecvError::Truncated),
    };
    let addr = match meta.endpoint.addr {
        smoltcp::wire::IpAddress::Ipv4(a) => IpAddress::Ipv4(crate::addr::Ipv4Addr { bits: a.to_bits() }),
        smoltcp::wire::IpAddress::Ipv6(a) => IpAddress::Ipv6(crate::addr::Ipv6Addr { bits: a.to_bits() }),
    };
    Ok((data, IpEndpoint { addr, port: meta.endpoint.port }))
}

/// Calls `udp::Socket::send_slice`, which queues a datagram for `target`. An
/// unbound socket, an unspecified address and port zero are refused as
/// unaddressable; what the send buffer has no room for is refused as full. It never
/// holds more datagrams than it has records for. How much room is left after an
/// attempt is left unsaid: it depends on where in the ring the free space lies.
#[verifier::external_body]
pub(crate) fn send_slice(
    socket: &mut udp::Socket<'static>,
    data: &[u8],
    target: IpEndpoint,
) -> (result: Result<(), UdpSendError>)
    ensures
        match result {
            Ok(()) => udp_model(*old(socket)).addressable(target) && udp_model(
                *old(socket),
            ).has_room(data@.len()),
            Err(UdpSendError::Unaddressable) => !udp_model(*old(socket)).addressable(target),
            Err(UdpSendError::BufferFull) => udp_model(*old(socket)).addressable(target)
                && !udp_model(*old(socket)).has_room(data@.len()),
        },
        udp_model(*final(socket)).tx == if result is Ok {
            udp_model(*old(socket)).tx.push(Datagram { peer: target, data: data@ })
        } else {
            udp_model(*old(socket)).tx
        },
        udp_model(*final(socket)).rx == udp_model(*old(socket)).rx,
        udp_model(*final(socket)).local == udp_model(*old(socket)).local,
        udp_model(*final(socket)).rx_packets == udp_model(*old(socket)).rx_packets,
        udp_model(*final(socket)).tx_packets == udp_model(*old(socket)).tx_packets,
        result is Ok ==> udp_model(*final(socket)).tx.len() <= udp_model(
            *final(socket),
        ).tx_packets,
{
    let addr = match target.addr {
        IpAddress::Ipv4(a) => smoltcp::wire::IpAddress::Ipv4(
            smoltcp::wire::Ipv4Address::from_bits(a.bits),
        ),
        IpAddress::Ipv6(a) => smoltcp::wire::IpAddress::Ipv6(
            smoltcp::wire::Ipv6Address::from_bits(a.bits),
        ),
    };
    match socket.send_slice(data, smoltcp::wire::IpEndpoint { addr, port: target.port }) {
        Ok(()) => Ok(()),
        Err(udp::SendError::Unaddressable) => Err(UdpSendError::Unaddressable),
        Err(udp::SendError::BufferFull) => Err(UdpSendError::BufferFull),
    }
}

} // verus!
