//! A userspace TCP/IP network stack for transparent proxying.
//!
//! Raw IP packets of one or more virtual interfaces become TCP streams and UDP
//! pseudo-sessions, and what the application writes to those becomes IP packets
//! again. The protocol engine is `smoltcp`; this crate decides which flows get a
//! socket, tracks them, routes datagrams between them, and accounts for the
//! memory that their buffers take.

use core::cmp::Ordering;
use vstd::prelude::*;

pub mod addr;
pub mod admission;
pub mod builder;
pub mod device;
pub mod engine;
pub mod error;
pub mod flow;
pub mod handle;
pub mod laws;
pub mod log;
pub mod model;
pub mod runner;
pub mod session;
pub mod state;
pub mod stream;
pub mod table;

verus! {

/// Identifies one of several virtual network interfaces serviced by a single
/// stack. Each interface has its own IP addresses, routing table and sockets.
#[derive(Debug, Clone, Copy, PartialEq, Eq, Structural, Hash, Ord)]
pub struct InterfaceId(u16);

impl InterfaceId {
    /// The raw identifier.
    pub closed spec fn raw(self) -> u16 {
        self.0
    }

    /// Creates an interface identifier. Every raw value is one.
    pub fn new(raw: u16) -> (id: Option<InterfaceId>)
        ensures
            id matches Some(i) && i.raw() == raw,
    {
        Some(InterfaceId(raw))
    }

    /// Returns the raw identifier.
    pub fn get(self) -> (raw: u16)
        ensures
            raw == self.raw(),
    {
        self.0
    }
}

impl PartialOrd for InterfaceId {
    /// Identifiers are ordered by their raw values.
    fn partial_cmp(&self, other: &InterfaceId) -> (order: Option<Ordering>) {
        let (a, b): (u16, u16) = (self.get(), other.get());
        if a < b {
            Some(Ordering::Less)
        } else if a == b {
            Some(Ordering::Equal)
        } else {
            Some(Ordering::Greater)
        }
    }
}

impl vstd::std_specs::cmp::PartialOrdSpecImpl for InterfaceId {
    open spec fn obeys_partial_cmp_spec() -> bool {
        true
    }

    open spec fn partial_cmp_spec(&self, other: &InterfaceId) -> Option<Ordering> {
        if self.raw() < other.raw() {
            Some(Ordering::Less)
        } else if self.raw() == other.raw() {
            Some(Ordering::Equal)
        } else {
            Some(Ordering::Greater)
        }
    }
}

/// Two identifiers with the same raw value are the same identifier.
pub proof fn interface_id_is_its_raw_value(a: InterfaceId, b: InterfaceId)
    ensures
        a == b <==> a.raw() == b.raw(),
{
}

} // verus!
