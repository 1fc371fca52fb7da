//! Point-to-point file transfer over a raw TCP connection: the wire-protocol
//! codec and the chunked-transfer state machines that drive both endpoints.
//!
//! The crate holds the protocol logic only: packet framing and parsing, the
//! ping/pong handshake, file-set negotiation, and the checksummed streaming of
//! file contents. Sockets, files and the terminal are the caller's business;
//! the library consumes and produces plain values (bytes, packets, actions).

pub mod checksum;
pub mod recv;
pub mod send;
pub mod transport;
