//! Packets on their way into and out of a stack.

use bytes::Bytes;
use vstd::prelude::*;

use crate::engine::payload::octets;
use crate::InterfaceId;

verus! {

/// A raw IP packet for an interface.
pub struct IngressPacket {
    pub interface: InterfaceId,
    pub data: Bytes,
}

/// A raw IP packet that the stack produced on an interface.
pub struct EgressPacket {
    pub interface_id: InterfaceId,
    pub data: Bytes,
}

/// The interface and the contents of produced packets, one by one.
pub open spec fn egress_contents(packets: Seq<EgressPacket>) -> Seq<(InterfaceId, Seq<u8>)> {
    packets.map_values(|p: EgressPacket| (p.interface_id, octets(p.data)))
}

} // verus!
