//! What both endpoints share: the wire format, the division of a file into
//! blocks, and the block codec.

pub mod bigendian;
pub mod blocks;
pub mod bytes;
pub mod decimal;
pub mod erasure;
pub mod error;
pub mod fec;
pub mod flags;
pub mod systematic;
pub mod wire;
