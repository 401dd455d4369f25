//! What identifies a session.

use vstd::prelude::*;

use crate::addr::IpEndpoint;
use crate::table::TableKey;
use crate::InterfaceId;

verus! {

/// The transport protocol of a session.
#[derive(Debug, Clone, Copy, PartialEq, Eq, Structural, Hash)]
pub enum Proto {
    Tcp,
    Udp,
}

/// A session key: interface, protocol, source endpoint and destination endpoint.
///
/// The source is the local application; the destination is what the application
/// wanted to reach.
#[derive(Debug, Clone, Copy, PartialEq, Eq, Structural, Hash)]
pub struct SessionKey {
    pub interface: InterfaceId,
    pub proto: Proto,
    pub src: IpEndpoint,
    pub dst: IpEndpoint,
}

/// What UDP sessions share a socket by: the interface and the destination.
#[derive(Debug, Clone, Copy, PartialEq, Eq, Structural, Hash)]
pub struct Destination {
    pub interface: InterfaceId,
    pub dst: IpEndpoint,
}

impl SessionKey {
    pub fn new(interface: InterfaceId, proto: Proto, src: IpEndpoint, dst: IpEndpoint) -> (key:
        SessionKey)
        ensures
            key == (SessionKey { interface, proto, src, dst }),
    {
        SessionKey { interface, proto, src, dst }
    }

    /// The destination of a session, on its interface.
    pub open spec fn spec_destination(self) -> Destination {
        Destination { interface: self.interface, dst: self.dst }
    }

    /// The destination of a session, on its interface.
    #[verifier::when_used_as_spec(spec_destination)]
    pub fn destination(self) -> (dest: Destination)
        ensures
            dest == self.spec_destination(),
    {
        Destination { interface: self.interface, dst: self.dst }
    }
}

impl TableKey for SessionKey {
    fn same(&self, other: &SessionKey) -> (same: bool) {
        *self == *other
    }
}

impl TableKey for Destination {
    fn same(&self, other: &Destination) -> (same: bool) {
        *self == *other
    }
}

} // verus!
