//! What holds between the two sides: each understands what the other
//! writes, and without loss what the sender sends is what the receiver
//! rebuilds.

use vstd::prelude::*;
use vstd::utf8::*;
use crate::client::transfer::{all_blocks, spec_block_datagrams, SendPhase, TransferView};
use crate::common::bigendian::lemma_be_bytes_len;
use crate::common::blocks::{lemma_join_blocks, spec_file_block, spec_join};
use crate::common::erasure::{
    lemma_block_geometry, lemma_encoded_packets_are_well_formed, spec_encode_block,
    spec_encode_config, well_formed_packet, DATA_PACKET_COUNT_PER_BLOCK,
};
use crate::common::error::ProtocolError;
use crate::common::fec::packet_symbol_id;
use crate::common::systematic::{lemma_source_packet, lemma_sources_are_distinct, spec_sources};
use crate::common::wire::{
    lemma_block_list_len, lemma_id_reply_round_trip, lemma_missing_reply_round_trip,
    lemma_request_round_trip, lemma_upload_packet_round_trip, spec_id_reply, spec_missing_reply,
    spec_ok_reply, spec_request, MAX_FILENAME_SIZE,
};
use crate::server::datagram::{spec_deliver, spec_handle_raw_datagram};
use crate::server::laws::{
    are_sources, lemma_lossless_round_completes, lemma_sources_deliver_block, spec_deliver_all,
    spec_deliver_round,
};
use crate::server::table::tasks_wf;
use crate::server::stream::spec_handle_request_id;
use crate::server::task::{block_range, lemma_block_range, DatagramOutcomeView, TaskView};

verus! {

/// The receiver registers the file that the sender announces: a request of
/// a transfer, read by the receiver under an identifier that is free,
/// gives a record for that file of which nothing has arrived, and the
/// receiver's answer gives the sender that identifier and a round of all
/// blocks.
pub proof fn lemma_request_is_understood(
    transfer: TransferView,
    tasks: Map<u128, TaskView>,
    transfer_id: u128,
)
    requires
        transfer.wf(),
        transfer.phase == SendPhase::AwaitId,
        encode_utf8(transfer.filename).len() <= MAX_FILENAME_SIZE,
        !tasks.contains_key(transfer_id),
    ensures
        spec_handle_request_id(
            tasks,
            spec_request(transfer.file_size, transfer.filename).skip(1),
            transfer_id,
        ) == Ok::<Map<u128, TaskView>, ProtocolError>(
            tasks.insert(transfer_id, TaskView::fresh(transfer.filename, transfer.file_size)),
        ),
        transfer.step(spec_id_reply(transfer_id)) == (TransferView {
            transfer_id,
            missing: all_blocks(transfer.block_count()),
            phase: SendPhase::Transmit,
            ..transfer
        }),
{
    lemma_request_round_trip(transfer.file_size, transfer.filename);
    lemma_id_reply_round_trip(transfer_id);
}

/// The sender ends a transfer when the receiver answers `DECODE_OK`.
pub proof fn lemma_ok_is_understood(transfer: TransferView)
    requires
        transfer.phase == SendPhase::AwaitReply,
    ensures
        transfer.step(spec_ok_reply()).phase == SendPhase::Done,
{
}

/// The sender takes the list of missing blocks from the receiver's
/// `DECODE_ERROR` answer as the receiver wrote it: read in the three parts
/// that the sender asks for, the answer leads to a round of exactly these
/// blocks.
pub proof fn lemma_retry_is_understood(transfer: TransferView, missing: Seq<u32>)
    requires
        transfer.phase == SendPhase::AwaitReply,
        missing.len() <= u32::MAX,
    ensures
        ({
            let reply = spec_missing_reply(missing);
            let first = transfer.step(reply.subrange(0, 1));
            let second = first.step(reply.subrange(1, 5));
            let third = second.step(reply.skip(5));
            &&& first.phase == SendPhase::AwaitMissingCount
            &&& second.phase == SendPhase::AwaitMissingList(missing.len() as u32)
            &&& reply.skip(5).len() == 4 * missing.len()
            &&& third == (TransferView { missing, phase: SendPhase::Transmit, ..transfer })
        }),
{
    let reply = spec_missing_reply(missing);
    lemma_missing_reply_round_trip(missing);
    lemma_be_bytes_len(missing.len() as int, 4);
    lemma_block_list_len(missing);
    assert(reply.subrange(1, 5).take(4) =~= reply.subrange(1, 5));
}

/// The round after a `DECODE_ERROR` sends exactly the blocks that the
/// receiver misses: the list that the receiver makes of its record is the
/// list that the sender goes on with.
pub proof fn lemma_next_round_is_what_is_missing(transfer: TransferView, task: TaskView)
    requires
        transfer.phase == SendPhase::AwaitReply,
        task.wf(),
    ensures
        ({
            let reply = spec_missing_reply(task.missing());
            transfer.step(reply.subrange(0, 1)).step(reply.subrange(1, 5)).step(
                reply.skip(5),
            ).missing == task.missing()
        }),
{
    task.lemma_missing_below(task.total_blocks());
    lemma_retry_is_understood(transfer, task.missing());
}

/// The receiver reads from a datagram of the sender the symbol that the
/// sender put into it, and takes it for well formed: datagram `i` of a
/// block delivers symbol `i` of the block, and the first symbols of a block
/// are its source symbols.
pub proof fn lemma_datagram_is_understood(
    tasks: Map<u128, TaskView>,
    transfer_id: u128,
    block_id: u32,
    block: Seq<u8>,
    parity_rate_percent: int,
    i: int,
)
    requires
        0 <= i < spec_encode_block(block, parity_rate_percent).len(),
    ensures
        spec_handle_raw_datagram(
            tasks,
            spec_block_datagrams(
                spec_encode_config(),
                transfer_id,
                block_id,
                block,
                parity_rate_percent,
            )[i],
        ) == Ok::<(Map<u128, TaskView>, DatagramOutcomeView), ProtocolError>(
            spec_deliver(
                tasks,
                transfer_id,
                block_id,
                spec_encode_block(block, parity_rate_percent)[i],
            ),
        ),
        i < DATA_PACKET_COUNT_PER_BLOCK ==> spec_encode_block(block, parity_rate_percent)[i]
            == spec_sources(spec_encode_config(), block)[i],
{
    lemma_block_geometry();
    lemma_upload_packet_round_trip(
        transfer_id,
        block_id,
        spec_encode_block(block, parity_rate_percent)[i],
    );
    lemma_encoded_packets_are_well_formed(spec_encode_config(), block, parity_rate_percent, i);
    lemma_source_packet(spec_encode_config(), block, 0);
}

/// The table after the first `count` of `datagrams` were taken in, one
/// after the other.
pub open spec fn spec_handle_all(
    tasks: Map<u128, TaskView>,
    datagrams: Seq<Seq<u8>>,
    count: int,
) -> Map<u128, TaskView>
    decreases count,
{
    if count <= 0 {
        tasks
    } else {
        let before = spec_handle_all(tasks, datagrams, count - 1);
        match spec_handle_raw_datagram(before, datagrams[count - 1]) {
            Ok((after, _)) => after,
            Err(_) => before,
        }
    }
}

/// Without loss one round delivers a block: when the receiver takes in the
/// datagrams of a block of a file as the sender makes them, in the order
/// in which they are sent, for a transfer of that file that has nothing of
/// the block yet, then every datagram before the last source symbol is
/// stored, and with the last source symbol the block is rebuilt, byte for
/// byte as it is in the file.
pub proof fn lemma_block_is_delivered(
    tasks: Map<u128, TaskView>,
    transfer_id: u128,
    block_id: u32,
    file: Seq<u8>,
    parity_rate_percent: int,
    count: int,
)
    requires
        tasks.contains_key(transfer_id),
        tasks[transfer_id].file_size == file.len(),
        block_id < tasks[transfer_id].total_blocks(),
        !tasks[transfer_id].rebuilt_blocks.contains(block_id),
        !tasks[transfer_id].recv_blocks.contains_key(block_id),
        0 <= parity_rate_percent,
        1 <= count <= DATA_PACKET_COUNT_PER_BLOCK,
    ensures
        ({
            let datagrams = spec_block_datagrams(
                spec_encode_config(),
                transfer_id,
                block_id,
                spec_file_block(file, block_id as int),
                parity_rate_percent,
            );
            let before = spec_handle_all(tasks, datagrams, count - 1);
            let taken = spec_handle_raw_datagram(before, datagrams[count - 1]);
            &&& taken is Ok
            &&& if count < DATA_PACKET_COUNT_PER_BLOCK {
                taken->Ok_0.1 is Stored
            } else {
                taken->Ok_0.1 == (DatagramOutcomeView::Decoded {
                    transfer_id,
                    block_id,
                    data: spec_file_block(file, block_id as int),
                })
            }
        }),
{
    let config = spec_encode_config();
    let block = spec_file_block(file, block_id as int);
    let sources = spec_sources(config, block);
    let datagrams = spec_block_datagrams(config, transfer_id, block_id, block, parity_rate_percent);
    lemma_block_geometry();
    lemma_sources_are_distinct(config, block);
    lemma_handle_all_delivers(tasks, transfer_id, block_id, block, parity_rate_percent, count - 1);
    let before = spec_handle_all(tasks, datagrams, count - 1);
    lemma_source_packet(config, block, 0);
    lemma_datagram_is_understood(
        before,
        transfer_id,
        block_id,
        block,
        parity_rate_percent,
        count - 1,
    );
    lemma_sources_deliver_block(tasks, transfer_id, block_id, file, sources, count);
}

/// Taking in the first datagrams of a block is delivering its first source
/// symbols.
proof fn lemma_handle_all_delivers(
    tasks: Map<u128, TaskView>,
    transfer_id: u128,
    block_id: u32,
    block: Seq<u8>,
    parity_rate_percent: int,
    count: int,
)
    requires
        0 <= count <= DATA_PACKET_COUNT_PER_BLOCK,
    ensures
        spec_handle_all(
            tasks,
            spec_block_datagrams(
                spec_encode_config(),
                transfer_id,
                block_id,
                block,
                parity_rate_percent,
            ),
            count,
        ) == spec_deliver_all(
            tasks,
            transfer_id,
            block_id,
            spec_sources(spec_encode_config(), block),
            count,
        ),
    decreases count,
{
    let config = spec_encode_config();
    let datagrams = spec_block_datagrams(config, transfer_id, block_id, block, parity_rate_percent);
    lemma_block_geometry();
    if count > 0 {
        lemma_handle_all_delivers(
            tasks,
            transfer_id,
            block_id,
            block,
            parity_rate_percent,
            count - 1,
        );
        lemma_source_packet(config, block, 0);
        lemma_datagram_is_understood(
            spec_handle_all(tasks, datagrams, count - 1),
            transfer_id,
            block_id,
            block,
            parity_rate_percent,
            count - 1,
        );
    }
}

/// The table after the source symbols of the first `count` blocks of a
/// file were delivered to a transfer, block after block and symbol after
/// symbol.
pub open spec fn spec_deliver_file(
    tasks: Map<u128, TaskView>,
    transfer_id: u128,
    file: Seq<u8>,
    count: int,
) -> Map<u128, TaskView>
    decreases count,
{
    if count <= 0 {
        tasks
    } else {
        spec_deliver_all(
            spec_deliver_file(tasks, transfer_id, file, count - 1),
            transfer_id,
            (count - 1) as u32,
            spec_sources(spec_encode_config(), spec_file_block(file, count - 1)),
            DATA_PACKET_COUNT_PER_BLOCK as int,
        )
    }
}

/// The record of a transfer of which the first `count` blocks are rebuilt
/// and nothing is pending.
pub open spec fn spec_rebuilt_up_to(task: TaskView, count: int) -> TaskView {
    TaskView { recv_blocks: Map::empty(), rebuilt_blocks: block_range(count), ..task }
}

/// Without loss the blocks of a file arrive one after the other: once the
/// source symbols of the first `count` blocks are delivered to a transfer
/// of which nothing had arrived, these blocks are rebuilt and nothing is
/// pending.
pub proof fn lemma_blocks_are_delivered(
    tasks: Map<u128, TaskView>,
    transfer_id: u128,
    file: Seq<u8>,
    count: int,
)
    requires
        tasks.contains_key(transfer_id),
        tasks[transfer_id].file_size == file.len(),
        tasks[transfer_id].total_blocks() <= u32::MAX,
        tasks[transfer_id].recv_blocks == Map::<u32, Seq<Seq<u8>>>::empty(),
        tasks[transfer_id].rebuilt_blocks == Set::<u32>::empty(),
        0 <= count <= tasks[transfer_id].total_blocks(),
    ensures
        spec_deliver_file(tasks, transfer_id, file, count) == tasks.insert(
            transfer_id,
            spec_rebuilt_up_to(tasks[transfer_id], count),
        ),
    decreases count,
{
    let task = tasks[transfer_id];
    lemma_block_geometry();
    if count == 0 {
        assert(block_range(0) =~= Set::<u32>::empty());
        assert(spec_rebuilt_up_to(task, 0) == task);
        assert(tasks.insert(transfer_id, task) =~= tasks);
    } else {
        let block = (count - 1) as u32;
        lemma_blocks_are_delivered(tasks, transfer_id, file, count - 1);
        let before = spec_deliver_file(tasks, transfer_id, file, count - 1);
        let symbols = spec_sources(spec_encode_config(), spec_file_block(file, block as int));
        lemma_sources_are_distinct(spec_encode_config(), spec_file_block(file, block as int));
        assert(before[transfer_id] == spec_rebuilt_up_to(task, count - 1));
        lemma_sources_deliver_block(
            before,
            transfer_id,
            block,
            file,
            symbols,
            DATA_PACKET_COUNT_PER_BLOCK as int,
        );
        assert(block_range(count - 1).insert(block) =~= block_range(count));
        assert(before[transfer_id].rebuilt(block).recv_blocks =~= Map::<
            u32,
            Seq<Seq<u8>>,
        >::empty());
        assert(before[transfer_id].rebuilt(block) == spec_rebuilt_up_to(task, count));
        assert(before.insert(transfer_id, spec_rebuilt_up_to(task, count)) =~= tasks.insert(
            transfer_id,
            spec_rebuilt_up_to(task, count),
        ));
    }
}

/// Without loss every block arrives whole: in such a delivery, the last
/// source symbol of a block rebuilds the block byte for byte as it is in
/// the file.
pub proof fn lemma_every_block_is_rebuilt(
    tasks: Map<u128, TaskView>,
    transfer_id: u128,
    file: Seq<u8>,
    block: u32,
)
    requires
        tasks.contains_key(transfer_id),
        tasks[transfer_id].file_size == file.len(),
        tasks[transfer_id].total_blocks() <= u32::MAX,
        tasks[transfer_id].recv_blocks == Map::<u32, Seq<Seq<u8>>>::empty(),
        tasks[transfer_id].rebuilt_blocks == Set::<u32>::empty(),
        block < tasks[transfer_id].total_blocks(),
    ensures
        ({
            let symbols = spec_sources(spec_encode_config(), spec_file_block(file, block as int));
            let before = spec_deliver_all(
                spec_deliver_file(tasks, transfer_id, file, block as int),
                transfer_id,
                block,
                symbols,
                DATA_PACKET_COUNT_PER_BLOCK - 1,
            );
            spec_deliver(before, transfer_id, block, symbols[DATA_PACKET_COUNT_PER_BLOCK - 1]).1
                == (DatagramOutcomeView::Decoded {
                transfer_id,
                block_id: block,
                data: spec_file_block(file, block as int),
            })
        }),
{
    lemma_block_geometry();
    lemma_blocks_are_delivered(tasks, transfer_id, file, block as int);
    lemma_sources_are_distinct(spec_encode_config(), spec_file_block(file, block as int));
    lemma_sources_deliver_block(
        spec_deliver_file(tasks, transfer_id, file, block as int),
        transfer_id,
        block,
        file,
        spec_sources(spec_encode_config(), spec_file_block(file, block as int)),
        DATA_PACKET_COUNT_PER_BLOCK as int,
    );
}

/// Without loss one round delivers the file: once the source symbols of
/// every block are delivered to a transfer of which nothing had arrived,
/// the transfer is complete and no block is missing; and the blocks as they
/// were rebuilt, joined in the order of their indices, are the file.
pub proof fn lemma_file_is_delivered(
    tasks: Map<u128, TaskView>,
    transfer_id: u128,
    filename: Seq<char>,
    file: Seq<u8>,
)
    requires
        file.len() <= u64::MAX,
        tasks.contains_key(transfer_id),
        tasks[transfer_id] == TaskView::fresh(filename, file.len() as u64),
        tasks[transfer_id].total_blocks() <= u32::MAX,
    ensures
        ({
            let total = tasks[transfer_id].total_blocks();
            let after = spec_deliver_file(tasks, transfer_id, file, total);
            let rebuilt = Seq::new(total as nat, |block: int| spec_file_block(file, block));
            &&& after.contains_key(transfer_id)
            &&& after[transfer_id].wf()
            &&& after[transfer_id].complete()
            &&& after[transfer_id].missing().len() == 0
            &&& spec_join(rebuilt, total) == file
        }),
{
    let task = tasks[transfer_id];
    let total = task.total_blocks();
    let after = spec_deliver_file(tasks, transfer_id, file, total);
    let rebuilt = Seq::new(total as nat, |block: int| spec_file_block(file, block));
    lemma_blocks_are_delivered(tasks, transfer_id, file, total);
    lemma_block_range(total);
    assert(after[transfer_id] == spec_rebuilt_up_to(task, total));
    assert(after[transfer_id].recv_blocks.dom() =~= Set::<u32>::empty());
    after[transfer_id].lemma_complete_iff_none_missing();
    lemma_join_blocks(file, rebuilt);
}

/// The source symbols that the sender makes of every block of a file.
pub open spec fn spec_file_sources(file: Seq<u8>) -> spec_fn(u32) -> Seq<Seq<u8>> {
    |block: u32| spec_sources(spec_encode_config(), spec_file_block(file, block as int))
}

/// A round in which no source symbol is lost ends the transfer, whatever
/// was lost in the rounds before: when the sender goes through the blocks
/// that the receiver misses and every source symbol arrives, the receiver
/// has as many blocks rebuilt as the file has, and answers the next
/// `UPLOAD_COMPLETE` with `DECODE_OK`.
pub proof fn lemma_round_without_loss_ends_transfer(
    tasks: Map<u128, TaskView>,
    transfer_id: u128,
    file: Seq<u8>,
)
    requires
        tasks_wf(tasks),
        tasks.contains_key(transfer_id),
    ensures
        ({
            let after = spec_deliver_round(
                tasks,
                transfer_id,
                tasks[transfer_id].missing(),
                spec_file_sources(file),
                tasks[transfer_id].missing().len() as int,
            );
            &&& after.contains_key(transfer_id)
            &&& after[transfer_id].complete()
            &&& after[transfer_id].missing().len() == 0
        }),
{
    let symbols = spec_file_sources(file);
    lemma_block_geometry();
    assert forall|block: u32| are_sources(#[trigger] symbols(block)) by {
        let bytes = spec_file_block(file, block as int);
        lemma_source_packet(spec_encode_config(), bytes, 0);
        assert forall|i: int| 0 <= i < symbols(block).len() implies {
            &&& well_formed_packet(spec_encode_config(), #[trigger] symbols(block)[i])
            &&& packet_symbol_id(symbols(block)[i]) == i
        } by {
            lemma_source_packet(spec_encode_config(), bytes, i);
        }
    }
    lemma_lossless_round_completes(tasks, transfer_id, tasks[transfer_id].missing(), symbols);
}

} // verus!
