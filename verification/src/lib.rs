//! Decoding of Open Sound Control datagrams and the key bindings driven by
//! Virtual Motion Capture controller reports.
//!
//! [`osc`] reads the wire format; [`vmc`] decides which key a datagram asks for.

pub mod osc;
pub mod vmc;
