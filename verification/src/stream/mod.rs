//! The ends of sessions that the application holds.

pub mod tcp;
pub mod udp;
