//! Single-byte operation tags that open every control message and datagram.

use vstd::prelude::*;

verus! {

/// Width of an operation tag in bits.
pub const FLAG_LENGTH: usize = 8;

pub const FLAG_OK: u8 = 0b00000000;

pub const FLAG_ERROR: u8 = 0b00000001;

/// Asks the receiver for a transfer identifier. Followed by the file size as
/// `u64` and the file name up to the end of the stream. Answered with the 16
/// raw bytes of the identifier.
pub const FLAG_REQUEST_ID: u8 = 0b00000010;

/// Carries one coded symbol. Followed by the transfer identifier as `u128`,
/// the block index as `u32` and the serialized symbol. Travels as a datagram
/// and is not answered.
pub const FLAG_UPLOAD_PACKET: u8 = 0b00000100;

/// Tells the receiver that a round is over. Followed by the transfer
/// identifier as `u128`.
pub const FLAG_UPLOAD_COMPLETE: u8 = 0b00001000;

/// Every block of the file was rebuilt.
pub const FLAG_FILE_DECODE_OK: u8 = FLAG_OK;

/// Some blocks are still missing. Followed by their number as `u32` and by
/// that many block indices, each a `u32`.
pub const FLAG_FILE_DECODE_ERROR: u8 = FLAG_ERROR;

/// Liveness ping, answered with the same tag.
pub const FLAG_HEARTBEAT: u8 = 0b10000000;

} // verus!
