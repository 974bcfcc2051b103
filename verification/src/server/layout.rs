//! Where the receiver keeps what it saves: every rebuilt block in a file
//! named after its index, in a directory named after the transfer, until
//! the blocks are joined into the received file.

use vstd::prelude::*;
use vstd::string::*;
use crate::common::decimal::{decimal, decimal_string};

verus! {

/// Name of the directory that holds the directories of the transfers
/// under way.
pub const TMP_DIR: &'static str = "tmp";

/// Name of the directory that holds the received files.
pub const RECV_DIR: &'static str = "recv";

/// Name of the directory of a transfer: its identifier in decimal notation.
pub fn transfer_dir_name(transfer_id: u128) -> (name: String)
    ensures
        name@ == decimal(transfer_id as nat),
{
    decimal_string(transfer_id)
}

/// Name of the file of a block: its index in decimal notation.
pub fn block_file_name(block_id: u32) -> (name: String)
    ensures
        name@ == decimal(block_id as nat),
{
    decimal_string(block_id as u128)
}

} // verus!
