//! Session and routing core of a point-to-multipoint VPN that carries raw IPv4
//! packets between a virtual network interface and remote peers.
//!
//! The crate holds the decisions of the system: which addresses of the
//! configured block may be handed out, which peer owns which address, what a
//! session answers to each frame and timer, and where a packet read from the
//! interface goes. Devices, sockets and timers are driven by the caller, which
//! performs the actions that the functions here return.

pub mod handshake;
pub mod network;
pub mod registry;
pub mod session;
pub mod tun;
pub mod websocket;
