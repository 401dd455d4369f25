//! Session model: accepted TCP and UDP "connections" exposed to the application.

use vstd::prelude::*;

use crate::stream::tcp::WayTcpStream;
use crate::stream::udp::WayUdpSession;

pub mod manager;
pub mod types;

verus! {

/// A single accepted session.
#[derive(Debug)]
pub enum Session {
    /// An established TCP connection.
    Tcp(WayTcpStream),
    /// A UDP pseudo-session, identified by its 5-tuple.
    Udp(WayUdpSession),
}

} // verus!
