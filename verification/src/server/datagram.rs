//! The datagram path of the receiver: every datagram carries one symbol of
//! one block of one transfer.

use vstd::prelude::*;
use crate::common::erasure::{is_well_formed, spec_encode_config, well_formed_packet};
use crate::common::error::ProtocolError;
use crate::common::wire::{parse_upload_packet, spec_parse_upload_packet};
use crate::server::table::TaskTable;
use crate::server::task::{DatagramOutcome, DatagramOutcomeView, TaskView};

verus! {

/// What a symbol for a block of a transfer does to the table, and what
/// becomes of it. Without a transfer of that identifier it is dropped; else
/// the record of the transfer takes it in. No other record changes.
pub open spec fn spec_deliver(
    tasks: Map<u128, TaskView>,
    transfer_id: u128,
    block_id: u32,
    symbol: Seq<u8>,
) -> (Map<u128, TaskView>, DatagramOutcomeView) {
    if !tasks.contains_key(transfer_id) {
        (tasks, DatagramOutcomeView::UnknownTransfer)
    } else {
        let (task, outcome) = tasks[transfer_id].receive(transfer_id, block_id, symbol);
        (tasks.insert(transfer_id, task), outcome)
    }
}

/// What a datagram does to the table, and what becomes of it. A datagram
/// that cannot be read, or whose symbol is not well formed, is turned down
/// and changes nothing.
pub open spec fn spec_handle_raw_datagram(tasks: Map<u128, TaskView>, datagram: Seq<u8>) -> Result<
    (Map<u128, TaskView>, DatagramOutcomeView),
    ProtocolError,
> {
    match spec_parse_upload_packet(datagram) {
        Ok((transfer_id, block_id, symbol)) => {
            if well_formed_packet(spec_encode_config(), symbol) {
                Ok(spec_deliver(tasks, transfer_id, block_id, symbol))
            } else {
                Err(ProtocolError::InvalidSymbol)
            }
        },
        Err(e) => Err(e),
    }
}

/// Takes in one datagram. The symbol it carries goes to the pending symbols
/// of its block, unless the block has it already. When a new symbol brings
/// the block to `DATA_PACKET_COUNT_PER_BLOCK` symbols or beyond, the block is
/// rebuilt from them if that can be done. The caller then saves the data of
/// the block and publishes its event; if the data cannot be saved, it says
/// so with `block_lost`.
pub fn handle_raw_datagram(tasks: &mut TaskTable, datagram: &[u8]) -> (result: Result<
    DatagramOutcome,
    ProtocolError,
>)
    ensures
        final(tasks).wf(),
        match result {
            Ok(outcome) => {
                &&& spec_handle_raw_datagram(old(tasks)@, datagram@) == Ok::<
                    (Map<u128, TaskView>, DatagramOutcomeView),
                    ProtocolError,
                >((final(tasks)@, outcome@))
                &&& outcome matches DatagramOutcome::Decoded { transfer_id, .. }
                    ==> outcome.reports(final(tasks)@[transfer_id])
            },
            Err(e) => final(tasks)@ == old(tasks)@ && spec_handle_raw_datagram(
                old(tasks)@,
                datagram@,
            ) == Err::<(Map<u128, TaskView>, DatagramOutcomeView), ProtocolError>(e),
        },
{
    proof {
        use_type_invariant(&*tasks);
    }
    let packet = match parse_upload_packet(datagram) {
        Ok(packet) => packet,
        Err(e) => {
            return Err(e);
        },
    };
    if !is_well_formed(packet.symbol.as_slice()) {
        return Err(ProtocolError::InvalidSymbol);
    }
    let transfer_id: u128 = packet.transfer_id;
    match tasks.remove(transfer_id) {
        None => {
            assert(final(tasks)@ =~= old(tasks)@);
            Ok(DatagramOutcome::UnknownTransfer)
        },
        Some(mut task) => {
            let outcome = task.receive(transfer_id, packet.block_id, packet.symbol);
            tasks.insert(transfer_id, task);
            assert(final(tasks)@ =~= old(tasks)@.insert(transfer_id, task@));
            Ok(outcome)
        },
    }
}

/// The table once a rebuilt block of a transfer is lost again. Nothing
/// changes without such a transfer.
pub open spec fn spec_block_lost(
    tasks: Map<u128, TaskView>,
    transfer_id: u128,
    block_id: u32,
) -> Map<u128, TaskView> {
    if tasks.contains_key(transfer_id) {
        tasks.insert(transfer_id, tasks[transfer_id].lost(block_id))
    } else {
        tasks
    }
}

/// Says that the data of a rebuilt block could not be saved. The block is
/// missing again, as if nothing of it had arrived, and is asked for when
/// the round is over.
pub fn block_lost(tasks: &mut TaskTable, transfer_id: u128, block_id: u32)
    ensures
        final(tasks).wf(),
        final(tasks)@ == spec_block_lost(old(tasks)@, transfer_id, block_id),
{
    proof {
        use_type_invariant(&*tasks);
    }
    match tasks.remove(transfer_id) {
        None => {
            assert(final(tasks)@ =~= old(tasks)@);
        },
        Some(mut task) => {
            task.mark_lost(block_id);
            tasks.insert(transfer_id, task);
            assert(final(tasks)@ =~= old(tasks)@.insert(transfer_id, task@));
        },
    }
}

} // verus!
