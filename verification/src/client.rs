//! The sending side.

pub mod event;
pub mod heartbeat;
pub mod laws;
pub mod transfer;
