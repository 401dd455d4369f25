//! Errors of the stack.

use vstd::prelude::*;

use crate::InterfaceId;

verus! {

/// Errors returned by the stack.
#[derive(Debug)]
pub enum NetstackError {
    /// The requested interface is not registered with the stack.
    InterfaceNotFound(InterfaceId),
    /// The internal ingress or egress channel is closed: the stack was dropped.
    ChannelClosed,
    /// The ingress channel is full: the caller should retry later.
    ChannelFull,
    /// The maximum number of concurrent sessions has been reached.
    SessionLimitReached,
    /// The supplied bytes are not a valid IP packet.
    InvalidPacket,
    /// The packet carries a protocol this stack does not handle.
    UnsupportedProtocol,
    /// The TCP stream was closed or reset while operating on it.
    TcpNotOpen,
    /// The TCP send buffer is full.
    TcpBufferFull,
    /// The UDP session was closed or its underlying socket is unavailable.
    UdpNotOpen,
    /// The UDP send buffer is full.
    UdpBufferFull,
    /// An internal inconsistency, such as a session whose interface is missing.
    Internal(String),
}

impl NetstackError {
    /// Whether this is a transient `UdpBufferFull`; the caller may retry after a
    /// short wait.
    pub fn is_udp_buffer_full(&self) -> (full: bool)
        ensures
            full == (*self is UdpBufferFull),
    {
        matches!(self, NetstackError::UdpBufferFull)
    }
}

} // verus!
