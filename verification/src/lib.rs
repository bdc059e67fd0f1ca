//! Verified core of a SOCKS5 proxy that tunnels connections to a remote
//! server, either one TCP connection per client connection or many logical
//! channels multiplexed over a few RC4-encrypted TCP connections.
//!
//! The library holds the wire formats, the framing and encryption of the
//! multiplexed stream, the SOCKS5 request parser, and the bookkeeping of
//! channels and connections. Sockets, timers and task spawning live in the
//! program around it.
pub mod cipher;
pub mod client;
pub mod commons;
pub mod error;
pub mod message;
pub mod server;
pub mod socks5;
pub mod text;
pub mod wire;
