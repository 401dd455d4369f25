//! TCP sockets of the engine.

use smoltcp::socket::tcp;
use vstd::prelude::*;

use crate::addr::{IpAddress, IpEndpoint};

verus! {

/// `smoltcp::socket::tcp::Socket`.
#[verifier::external_type_specification]
#[verifier::external_body]
pub struct ExTcpSocket<'a>(smoltcp::socket::tcp::Socket<'a>);

/// `smoltcp::socket::tcp::ListenError`.
#[verifier::external_type_specification]
#[verifier::external_body]
pub struct ExListenError(smoltcp::socket::tcp::ListenError);

/// The states of the TCP state machine.
#[derive(Debug, Clone, Copy, PartialEq, Eq, Structural)]
pub enum TcpPhase {
    Closed,
    Listen,
    SynSent,
    SynReceived,
    Established,
    FinWait1,
    FinWait2,
    CloseWait,
    Closing,
    LastAck,
    TimeWait,
}

/// Why nothing can be read from a TCP socket.
#[derive(Debug, Clone, Copy, PartialEq, Eq, Structural)]
pub enum TcpRecvError {
    /// The connection is not in a state in which data can arrive.
    InvalidState,
    /// The remote end has closed its half, and all it sent has been read.
    Finished,
}

/// Nothing can be written to a TCP socket: its sending half is not open.
#[derive(Debug, Clone, Copy, PartialEq, Eq, Structural)]
pub struct TcpNotWritable;

/// The local address a socket is attached to. Port zero means none.
pub struct LocalEndpoint {
    pub addr: Option<IpAddress>,
    pub port: u16,
}

/// What a TCP socket holds.
pub struct TcpModel {
    pub phase: TcpPhase,
    /// Where it was told to listen.
    pub listening: LocalEndpoint,
    /// Octets received and not yet read.
    pub rx: Seq<u8>,
    /// Whether the remote end has closed its half.
    pub rx_fin: bool,
    /// Octets written and not yet acknowledged.
    pub tx: Seq<u8>,
    pub tx_capacity: nat,
    /// Whether more has been received than the window allows that was announced last, in
    /// a phase in which a larger one would be announced.
    pub overrun: bool,
    /// Whether the socket gives up when the remote end is silent for some time.
    pub gives_up: bool,
}

impl TcpPhase {
    /// The socket handles packets: it is neither closed nor waiting out.
    pub open spec fn open(self) -> bool {
        !(self is Closed) && !(self is TimeWait)
    }

    /// The handshake is complete: the connection is established, or has been and is on
    /// its way to its end.
    pub open spec fn handshake_complete(self) -> bool {
        !(self is Closed) && !(self is Listen) && !(self is SynSent) && !(self is SynReceived)
    }

    /// The phase that closing the sending half leads to.
    pub open spec fn after_close(self) -> TcpPhase {
        match self {
            TcpPhase::Listen | TcpPhase::SynSent => TcpPhase::Closed,
            TcpPhase::SynReceived | TcpPhase::Established => TcpPhase::FinWait1,
            TcpPhase::CloseWait => TcpPhase::LastAck,
            _ => self,
        }
    }
}

impl LocalEndpoint {
    pub open spec fn none() -> LocalEndpoint {
        LocalEndpoint { addr: None, port: 0 }
    }

    pub open spec fn at(endpoint: IpEndpoint) -> LocalEndpoint {
        LocalEndpoint { addr: Some(endpoint.addr), port: endpoint.port }
    }
}

impl TcpModel {
    /// A socket that is not attached to anything yet.
    pub open spec fn fresh(tx_capacity: nat) -> TcpModel {
        TcpModel {
            phase: TcpPhase::Closed,
            listening: LocalEndpoint::none(),
            rx: Seq::empty(),
            rx_fin: false,
            tx: Seq::empty(),
            tx_capacity,
            overrun: false,
            gives_up: false,
        }
    }

    /// A socket that waits for a connection at `endpoint`.
    pub open spec fn listening_at(endpoint: IpEndpoint, tx_capacity: nat) -> TcpModel {
        TcpModel {
            phase: TcpPhase::Listen,
            listening: LocalEndpoint::at(endpoint),
            ..TcpModel::fresh(tx_capacity)
        }
    }

    /// The engine can tell when the socket is due. It measures what is left of the window
    /// announced last, and numbers the octets to send; the library sets no time after
    /// which a socket gives up.
    pub open spec fn timeable(self) -> bool {
        &&& !self.overrun
        &&& !self.gives_up
        &&& self.tx.len() <= self.tx_capacity <= MAX_TCP_BUFFER
    }

    /// Data can be read, now or later.
    pub open spec fn may_recv(self) -> bool {
        self.phase is Established || self.phase is FinWait1 || self.phase is FinWait2
            || self.rx.len() > 0
    }

    /// Data can be written, now or later.
    pub open spec fn may_send(self) -> bool {
        self.phase is Established || self.phase is CloseWait
    }

    pub open spec fn closed(self) -> TcpModel {
        TcpModel { phase: self.phase.after_close(), ..self }
    }
}

/// What a TCP socket holds.
pub uninterp spec fn tcp_model(socket: tcp::Socket<'static>) -> TcpModel;

/// The largest buffer that a TCP socket takes: one gibibyte.
pub const MAX_TCP_BUFFER: usize = 0x4000_0000;

/// Calls `tcp::Socket::new` with two zeroed buffers of `size` octets, one to
/// receive and one to send. The socket starts closed and empty. A receive buffer
/// above one gibibyte makes the call panic.
#[verifier::external_body]
pub(crate) fn new_socket(size: usize) -> (socket: tcp::Socket<'static>)
    requires
        size <= MAX_TCP_BUFFER,
    ensures
        tcp_model(socket) == TcpModel::fresh(size as nat),
{
    let rx = tcp::SocketBuffer::new(vec![0u8; size]);
    let tx = tcp::SocketBuffer::new(vec![0u8; size]);
    tcp::Socket::new(rx, tx)
}

/// Calls `tcp::Socket::listen`. Port zero is refused, and so is a socket that is
/// open, unless it already listens at that very endpoint. A socket that is not
/// open is emptied and starts to listen; whether it gives up on a silent remote end
/// stays as it was.
#[verifier::external_body]
pub(crate) fn listen(socket: &mut tcp::Socket<'static>, endpoint: IpEndpoint) -> (result: Result<
    (),
    tcp::ListenError,
>)
    ensures
        result is Ok <==> endpoint.port != 0 && (!tcp_model(*old(socket)).phase.open() || (
        tcp_model(*old(socket)).phase is Listen && tcp_model(*old(socket)).listening
            == LocalEndpoint::at(endpoint))),
        tcp_model(*final(socket)) == if result is Ok && !tcp_model(*old(socket)).phase.open() {
            TcpModel {
                gives_up: tcp_model(*old(socket)).gives_up,
                ..TcpModel::listening_at(endpoint, tcp_model(*old(socket)).tx_capacity)
            }
        } else {
            tcp_model(*old(socket))
        },
{
    let addr = match endpoint.addr {
        IpAddress::Ipv4(a) => smoltcp::wire::IpAddress::Ipv4(
            smoltcp::wire::Ipv4Address::from_bits(a.bits),
        ),
        IpAddress::Ipv6(a) => smoltcp::wire::IpAddress::Ipv6(
            smoltcp::wire::Ipv6Address::from_bits(a.bits),
        ),
    };
    socket.listen(smoltcp::wire::IpListenEndpoint { addr: Some(addr), port: endpoint.port })
}

/// Calls `tcp::Socket::state`.
#[verifier::external_body]
pub(crate) fn state(socket: &tcp::Socket<'static>) -> (phase: TcpPhase)
    ensures
        phase == tcp_model(*socket).phase,
{
    match socket.state() {
        tcp::State::Closed => TcpPhase::Closed,
        tcp::State::Listen => TcpPhase::Listen,
        tcp::State::SynSent => TcpPhase::SynSent,
        tcp::State::SynReceived => TcpPhase::SynReceived,
        tcp::State::Established => TcpPhase::Established,
        tcp::State::FinWait1 => TcpPhase::FinWait1,
        tcp::State::FinWait2 => TcpPhase::FinWait2,
        tcp::State::CloseWait => TcpPhase::CloseWait,
        tcp::State::Closing => TcpPhase::Closing,
        tcp::State::LastAck => TcpPhase::LastAck,
        tcp::State::TimeWait => TcpPhase::TimeWait,
    }
}

/// Calls `tcp::Socket::is_open`.
#[verifier::external_body]
pub(crate) fn is_open(socket: &tcp::Socket<'static>) -> (open: bool)
    ensures
        open == tcp_model(*socket).phase.open(),
{
    socket.is_open()
}

/// Calls `tcp::Socket::close`, which closes the sending half. Only the phase
/// changes.
#[verifier::external_body]
pub(crate) fn close(socket: &mut tcp::Socket<'static>)
    ensures
        tcp_model(*final(socket)) == tcp_model(*old(socket)).closed(),
{
    socket.close()
}

/// Calls `tcp::Socket::recv_slice`, which moves as many received octets as fit
/// into `buf`, the oldest first. It fails while nothing can be received: with
/// `Finished` once the remote end has closed its half, else with `InvalidState`.
#[verifier::external_body]
pub(crate) fn recv_slice(socket: &mut tcp::Socket<'static>, buf: &mut [u8]) -> (result: Result<
    usize,
    TcpRecvError,
>)
    ensures
        final(buf)@.len() == old(buf)@.len(),
        match result {
            Ok(n) => {
                let rx = tcp_model(*old(socket)).rx;
                &&& tcp_model(*old(socket)).may_recv()
                &&& n == if rx.len() <= old(buf)@.len() {
                    rx.len()
                } else {
                    old(buf)@.len()
                }
                &&& final(buf)@ == rx.take(n as int) + old(buf)@.skip(n as int)
                &&& tcp_model(*final(socket)) == (TcpModel {
                    rx: rx.skip(n as int),
                    ..tcp_model(*old(socket))
                })
            },
            Err(e) => {
                &&& !tcp_model(*old(socket)).may_recv()
                &&& (e is Finished) == tcp_model(*old(socket)).rx_fin
                &&& final(buf)@ == old(buf)@
                &&& tcp_model(*final(socket)) == tcp_model(*old(socket))
            },
        },
{
    match socket.recv_slice(buf) {
        Ok(n) => Ok(n),
        Err(tcp::RecvError::InvalidState) => Err(TcpRecvError::InvalidState),
        Err(tcp::RecvError::Finished) => Err(TcpRecvError::Finished),
    }
}

/// Calls `tcp::Socket::send_slice`, which queues as many leading octets of `data`
/// as the send buffer has room for. It fails while the sending half is not open.
#[verifier::external_body]
pub(crate) fn send_slice(socket: &mut tcp::Socket<'static>, data: &[u8]) -> (result: Result<
    usize,
    TcpNotWritable,
>)
    ensures
        match result {
            Ok(n) => {
                let before = tcp_model(*old(socket));
                let room = before.tx_capacity - before.tx.len();
                &&& before.may_send()
                &&& n == if data@.len() <= room {
                    data@.len() as int
                } else {
                    room
                }
                &&& tcp_model(*final(socket)) == (TcpModel {
                    tx: before.tx + data@.take(n as int),
                    ..before
                })
            },
            Err(_) => !tcp_model(*old(socket)).may_send() && tcp_model(*final(socket)) == tcp_model(
                *old(socket),
            ),
        },
{
    match socket.send_slice(data) {
        Ok(n) => Ok(n),
        Err(tcp::SendError::InvalidState) => Err(TcpNotWritable),
    }
}

} // verus!
