//! The receiving side.

pub mod datagram;
pub mod event;
pub mod laws;
pub mod layout;
pub mod stream;
pub mod table;
pub mod task;
