//! One-way transfer of large files over an unreliable datagram transport.
//!
//! A file is cut into fixed-size blocks. Every block is coded on its own with
//! RaptorQ and travels as unreliable datagrams; reliable control streams set a
//! transfer up and negotiate its completion. This crate holds the protocol:
//! the wire format, the block codec, and the state machines of the sending and
//! the receiving side. It performs no I/O: callers hand it the bytes they read
//! and carry out the actions it returns.

pub mod client;
pub mod common;
pub mod server;
