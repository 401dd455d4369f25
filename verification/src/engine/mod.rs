//! The outside engine: what the stack calls in `smoltcp`, `bytes` and `std`, and
//! the mathematical models over which those calls are described.

pub mod clock;
pub mod interface;
pub mod payload;
pub mod socket_set;
pub mod tcp_socket;
pub mod udp_socket;
pub mod wire;
