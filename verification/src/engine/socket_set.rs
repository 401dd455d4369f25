//! The set of sockets of one interface.

use smoltcp::iface::{SocketHandle, SocketSet};
use smoltcp::socket::{tcp, udp};
use vstd::prelude::*;

use crate::engine::tcp_socket::{tcp_model, TcpModel};
use crate::engine::udp_socket::{udp_model, UdpModel};

verus! {

/// `smoltcp::iface::SocketHandle`, which names a socket within its set.
#[verifier::external_type_specification]
#[verifier::external_body]
pub struct ExSocketHandle(SocketHandle);

/// `smoltcp::iface::SocketSet`.
#[verifier::external_type_specification]
#[verifier::external_body]
pub struct ExSocketSet<'a>(SocketSet<'a>);

/// What a socket of either kind holds.
pub enum SocketModel {
    Tcp(TcpModel),
    Udp(UdpModel),
}

/// The sockets of a set, by handle.
pub uninterp spec fn sockets_of(set: SocketSet<'static>) -> Map<SocketHandle, SocketModel>;

/// Whether the storage of a set grows when it is full.
pub uninterp spec fn growable(set: SocketSet<'static>) -> bool;

/// Calls `SocketSet::new` with growable, empty storage.
#[verifier::external_body]
pub(crate) fn empty_set() -> (sockets: SocketSet<'static>)
    ensures
        sockets_of(sockets).dom() == Set::<SocketHandle>::empty(),
        growable(sockets),
{
    SocketSet::new(Vec::new())
}

/// Calls `SocketSet::add` with a TCP socket, which gets a handle that no socket of
/// the set has. The call panics where the storage is full and cannot grow.
#[verifier::external_body]
pub(crate) fn add_tcp(set: &mut SocketSet<'static>, socket: tcp::Socket<'static>) -> (handle:
    SocketHandle)
    requires
        growable(*old(set)),
    ensures
        growable(*final(set)),
        !sockets_of(*old(set)).contains_key(handle),
        sockets_of(*final(set)) == sockets_of(*old(set)).insert(
            handle,
            SocketModel::Tcp(tcp_model(socket)),
        ),
{
    set.add(socket)
}

/// Calls `SocketSet::add` with a UDP socket, which gets a handle that no socket of
/// the set has. The call panics where the storage is full and cannot grow.
#[verifier::external_body]
pub(crate) fn add_udp(set: &mut SocketSet<'static>, socket: udp::Socket<'static>) -> (handle:
    SocketHandle)
    requires
        growable(*old(set)),
    ensures
        growable(*final(set)),
        !sockets_of(*old(set)).contains_key(handle),
        sockets_of(*final(set)) == sockets_of(*old(set)).insert(
            handle,
            SocketModel::Udp(udp_model(socket)),
        ),
{
    set.add(socket)
}

/// Calls `SocketSet::get_mut` for a TCP socket, which lends the socket. The call
/// panics unless the handle names a TCP socket of the set.
#[verifier::external_body]
pub(crate) fn tcp_mut<'a>(set: &'a mut SocketSet<'static>, handle: SocketHandle) -> (socket:
    &'a mut tcp::Socket<'static>)
    requires
        sockets_of(*old(set)).contains_key(handle),
        sockets_of(*old(set))[handle] is Tcp,
    ensures
        growable(*final(set)) == growable(*old(set)),
        SocketModel::Tcp(tcp_model(*socket)) == sockets_of(*old(set))[handle],
        sockets_of(*final(set)) == sockets_of(*old(set)).insert(
            handle,
            SocketModel::Tcp(tcp_model(*final(socket))),
        ),
{
    set.get_mut::<tcp::Socket<'static>>(handle)
}

/// Calls `SocketSet::get_mut` for a UDP socket, which lends the socket. The call
/// panics unless the handle names a UDP socket of the set.
#[verifier::external_body]
pub(crate) fn udp_mut<'a>(set: &'a mut SocketSet<'static>, handle: SocketHandle) -> (socket:
    &'a mut udp::Socket<'static>)
    requires
        sockets_of(*old(set)).contains_key(handle),
        sockets_of(*old(set))[handle] is Udp,
    ensures
        growable(*final(set)) == growable(*old(set)),
        SocketModel::Udp(udp_model(*socket)) == sockets_of(*old(set))[handle],
        sockets_of(*final(set)) == sockets_of(*old(set)).insert(
            handle,
            SocketModel::Udp(udp_model(*final(socket))),
        ),
{
    set.get_mut::<udp::Socket<'static>>(handle)
}

/// Calls `SocketSet::remove` and drops the socket that it hands back. The call
/// panics unless the handle names a socket of the set.
#[verifier::external_body]
pub(crate) fn remove(set: &mut SocketSet<'static>, handle: SocketHandle)
    requires
        sockets_of(*old(set)).contains_key(handle),
    ensures
        growable(*final(set)) == growable(*old(set)),
        sockets_of(*final(set)) == sockets_of(*old(set)).remove(handle),
{
    let _ = set.remove(handle);
}

} // verus!
