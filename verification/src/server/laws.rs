//! What holds of the receiver in every state.

use vstd::prelude::*;
use vstd::seq_lib::*;
use vstd::set_lib::*;
use crate::common::blocks::spec_file_block;
use crate::common::decimal::{decimal, lemma_decimal_injective};
use crate::common::erasure::{
    lemma_block_geometry, spec_decode_block, spec_encode_block, spec_encode_config,
    spec_parity_per_block, well_formed_packet, DATA_PACKET_COUNT_PER_BLOCK,
};
use crate::common::fec::{first_with_id, packet_symbol_id};
use crate::common::systematic::{
    arranges_sources, lemma_all_sources_rebuild, lemma_first_with_id,
    lemma_sources_decode_block, lemma_too_few_packets,
};
use crate::common::wire::spec_parse_upload_packet;
use crate::server::datagram::{spec_block_lost, spec_deliver, spec_handle_raw_datagram};
use crate::server::stream::{spec_finish_transfer, spec_handle_request_id};
use crate::server::table::tasks_wf;
use crate::server::task::{DatagramOutcomeView, TaskView};

verus! {

/// Whether a symbol was new to its block and was taken in.
pub open spec fn was_taken(outcome: DatagramOutcomeView) -> bool {
    outcome is Stored || outcome is DecodeFailed || outcome is Decoded
}

/// A well-formed symbol keeps a record well formed.
pub proof fn lemma_receive_keeps_wf(task: TaskView, transfer_id: u128, block: u32, symbol: Seq<u8>)
    requires
        task.wf(),
        well_formed_packet(spec_encode_config(), symbol),
    ensures
        task.receive(transfer_id, block, symbol).0.wf(),
{
    let (after, outcome) = task.receive(transfer_id, block, symbol);
    if was_taken(outcome) {
        let pending = task.pending(block).push(symbol);
        let stored = task.store(block, symbol);
        assert(pending.no_duplicates()) by {
            assert forall|i: int, j: int|
                0 <= i < pending.len() && 0 <= j < pending.len() && i != j implies pending[i]
                != pending[j] by {
                if i < task.pending(block).len() && j < task.pending(block).len() {
                } else if i < task.pending(block).len() {
                    assert(task.pending(block)[i] == pending[i]);
                } else {
                    assert(task.pending(block)[j] == pending[j]);
                }
            }
        }
        assert(stored.recv_blocks.dom() =~= task.recv_blocks.dom().insert(block));
        assert forall|i: int| 0 <= i < pending.len() implies well_formed_packet(
            spec_encode_config(),
            #[trigger] pending[i],
        ) by {
            if i < task.pending(block).len() {
                assert(task.recv_blocks[block][i] == pending[i]);
            }
        }
        if outcome is Decoded {
            assert(after.recv_blocks.dom() =~= task.recv_blocks.dom().remove(block));
        }
    }
}

/// A rebuilt block keeps a record well formed, and is not pending any more.
pub proof fn lemma_rebuilt_keeps_wf(task: TaskView, block: u32)
    requires
        task.wf(),
        block < task.total_blocks(),
    ensures
        task.rebuilt(block).wf(),
        task.rebuilt(block).rebuilt_blocks.contains(block),
        !task.rebuilt(block).recv_blocks.contains_key(block),
{
    assert(task.rebuilt(block).recv_blocks.dom() =~= task.recv_blocks.dom().remove(block));
}

/// Rebuilding is tried of a block only when a new symbol brings it to as
/// many symbols as it has source symbols; before that it could not be done.
pub proof fn lemma_no_attempt_is_missed(
    task: TaskView,
    transfer_id: u128,
    block: u32,
    symbol: Seq<u8>,
)
    requires
        task.receive(transfer_id, block, symbol).1 is Stored,
    ensures
        spec_decode_block(
            block as int,
            task.file_size as int,
            task.receive(transfer_id, block, symbol).0.pending(block),
        ) is Err,
{
    lemma_block_geometry();
    lemma_too_few_packets(
        spec_encode_config(),
        task.receive(transfer_id, block, symbol).0.pending(block),
    );
}

/// A symbol that arrives a second time changes nothing and is not decoded
/// again: whatever a datagram did to the table, the same datagram after it
/// leaves the table as it is. If its symbol was stored the first time, it
/// counts as a duplicate the second time; if its block was rebuilt the
/// first time, it is dropped the second time.
pub proof fn lemma_receipt_is_idempotent(
    tasks: Map<u128, TaskView>,
    transfer_id: u128,
    block: u32,
    symbol: Seq<u8>,
)
    ensures
        ({
            let (after, first) = spec_deliver(tasks, transfer_id, block, symbol);
            let (again, second) = spec_deliver(after, transfer_id, block, symbol);
            &&& again == after
            &&& first is Stored || first is DecodeFailed ==> second is Duplicate
            &&& first is Decoded ==> second is AlreadyRebuilt
            &&& !was_taken(first) ==> second == first
        }),
{
    let (after, first) = spec_deliver(tasks, transfer_id, block, symbol);
    let (again, second) = spec_deliver(after, transfer_id, block, symbol);
    if tasks.contains_key(transfer_id) {
        let task = tasks[transfer_id];
        if was_taken(first) {
            let stored = task.store(block, symbol);
            let pending = task.pending(block).push(symbol);
            assert(pending[pending.len() - 1] == symbol);
            assert(stored.pending(block).contains(symbol));
        }
        assert(again =~= after);
    }
}

/// The same for the datagram as it comes from the wire.
pub proof fn lemma_datagram_is_idempotent(tasks: Map<u128, TaskView>, datagram: Seq<u8>)
    requires
        spec_handle_raw_datagram(tasks, datagram) is Ok,
    ensures
        ({
            let (after, first) = spec_handle_raw_datagram(tasks, datagram)->Ok_0;
            let again = spec_handle_raw_datagram(after, datagram);
            &&& again is Ok
            &&& again->Ok_0.0 == after
            &&& first is Stored || first is DecodeFailed ==> again->Ok_0.1 is Duplicate
            &&& first is Decoded ==> again->Ok_0.1 is AlreadyRebuilt
            &&& !was_taken(first) ==> again->Ok_0.1 == first
        }),
{
    let (transfer_id, block, symbol) = spec_parse_upload_packet(datagram)->Ok_0;
    lemma_receipt_is_idempotent(tasks, transfer_id, block, symbol);
}

/// A well-formed symbol keeps the table well formed.
pub proof fn lemma_deliver_keeps_wf(
    tasks: Map<u128, TaskView>,
    transfer_id: u128,
    block: u32,
    symbol: Seq<u8>,
)
    requires
        tasks_wf(tasks),
        well_formed_packet(spec_encode_config(), symbol),
    ensures
        tasks_wf(spec_deliver(tasks, transfer_id, block, symbol).0),
{
    if tasks.contains_key(transfer_id) {
        lemma_receive_keeps_wf(tasks[transfer_id], transfer_id, block, symbol);
        let after = spec_deliver(tasks, transfer_id, block, symbol).0;
        assert(after.dom() =~= tasks.dom());
    }
}

/// Whether two tables agree on every transfer but `transfer_id`.
pub open spec fn same_but(
    before: Map<u128, TaskView>,
    after: Map<u128, TaskView>,
    transfer_id: u128,
) -> bool {
    forall|other: u128|
        other != transfer_id ==> {
            &&& #[trigger] after.contains_key(other) == before.contains_key(other)
            &&& before.contains_key(other) ==> after[other] == before[other]
        }
}

/// Whatever happens to one transfer leaves every other transfer as it is:
/// a datagram, the loss of a rebuilt block, the start and the end of a
/// transfer touch no record but that of their own transfer.
pub proof fn lemma_transfers_are_apart(
    tasks: Map<u128, TaskView>,
    transfer_id: u128,
    block: u32,
    symbol: Seq<u8>,
    body: Seq<u8>,
)
    ensures
        same_but(tasks, spec_deliver(tasks, transfer_id, block, symbol).0, transfer_id),
        same_but(tasks, spec_block_lost(tasks, transfer_id, block), transfer_id),
        same_but(tasks, spec_finish_transfer(tasks, transfer_id), transfer_id),
        spec_handle_request_id(tasks, body, transfer_id) matches Ok(after) ==> same_but(
            tasks,
            after,
            transfer_id,
        ) && !tasks.contains_key(transfer_id),
{
}

/// Datagrams of two transfers may come in either order: the table and what
/// becomes of each datagram are the same.
pub proof fn lemma_deliveries_commute(
    tasks: Map<u128, TaskView>,
    id_a: u128,
    block_a: u32,
    symbol_a: Seq<u8>,
    id_b: u128,
    block_b: u32,
    symbol_b: Seq<u8>,
)
    requires
        id_a != id_b,
    ensures
        ({
            let (after_a, outcome_a) = spec_deliver(tasks, id_a, block_a, symbol_a);
            let (after_ab, outcome_ab) = spec_deliver(after_a, id_b, block_b, symbol_b);
            let (after_b, outcome_b) = spec_deliver(tasks, id_b, block_b, symbol_b);
            let (after_ba, outcome_ba) = spec_deliver(after_b, id_a, block_a, symbol_a);
            &&& after_ab == after_ba
            &&& outcome_a == outcome_ba
            &&& outcome_b == outcome_ab
        }),
{
    let (after_a, outcome_a) = spec_deliver(tasks, id_a, block_a, symbol_a);
    let (after_ab, outcome_ab) = spec_deliver(after_a, id_b, block_b, symbol_b);
    let (after_b, outcome_b) = spec_deliver(tasks, id_b, block_b, symbol_b);
    let (after_ba, outcome_ba) = spec_deliver(after_b, id_a, block_a, symbol_a);
    assert(after_ab =~= after_ba);
}

/// Two transfers never share a name in decimal notation, so that what is
/// saved under the name of one is apart from what is saved under the name
/// of the other.
pub proof fn lemma_names_are_apart(id_a: u128, id_b: u128)
    requires
        id_a != id_b,
    ensures
        decimal(id_a as nat) != decimal(id_b as nat),
{
    if decimal(id_a as nat) == decimal(id_b as nat) {
        lemma_decimal_injective(id_a as nat, id_b as nat);
    }
}

/// The table after the first `count` of `symbols` were delivered for a
/// block of a transfer, one after the other.
pub open spec fn spec_deliver_all(
    tasks: Map<u128, TaskView>,
    transfer_id: u128,
    block: u32,
    symbols: Seq<Seq<u8>>,
    count: int,
) -> Map<u128, TaskView>
    decreases count,
{
    if count <= 0 {
        tasks
    } else {
        spec_deliver(
            spec_deliver_all(tasks, transfer_id, block, symbols, count - 1),
            transfer_id,
            block,
            symbols[count - 1],
        ).0
    }
}

/// The table in which the first `count` of `symbols` are pending for a
/// block of a transfer, and nothing else has changed.
pub open spec fn spec_pending(
    tasks: Map<u128, TaskView>,
    transfer_id: u128,
    block: u32,
    symbols: Seq<Seq<u8>>,
    count: int,
) -> Map<u128, TaskView> {
    if count <= 0 {
        tasks
    } else {
        tasks.insert(
            transfer_id,
            TaskView {
                recv_blocks: tasks[transfer_id].recv_blocks.insert(block, symbols.take(count)),
                ..tasks[transfer_id]
            },
        )
    }
}

/// Without loss a block arrives whole: when the source symbols of a block
/// of a file are delivered in whatever order to a transfer of that file
/// that has nothing of the block yet, each of them is stored, and with the
/// last of them the block is rebuilt, byte for byte as it is in the file.
/// After that the block counts as rebuilt and nothing of it is pending.
pub proof fn lemma_sources_deliver_block(
    tasks: Map<u128, TaskView>,
    transfer_id: u128,
    block: u32,
    file: Seq<u8>,
    symbols: Seq<Seq<u8>>,
    count: int,
)
    requires
        tasks.contains_key(transfer_id),
        tasks[transfer_id].file_size == file.len(),
        block < tasks[transfer_id].total_blocks(),
        !tasks[transfer_id].rebuilt_blocks.contains(block),
        !tasks[transfer_id].recv_blocks.contains_key(block),
        arranges_sources(spec_encode_config(), spec_file_block(file, block as int), symbols),
        symbols.no_duplicates(),
        1 <= count <= DATA_PACKET_COUNT_PER_BLOCK,
    ensures
        spec_deliver_all(tasks, transfer_id, block, symbols, count) == (if count
            < DATA_PACKET_COUNT_PER_BLOCK {
            spec_pending(tasks, transfer_id, block, symbols, count)
        } else {
            tasks.insert(transfer_id, tasks[transfer_id].rebuilt(block))
        }),
        ({
            let before = spec_deliver_all(tasks, transfer_id, block, symbols, count - 1);
            let outcome = spec_deliver(before, transfer_id, block, symbols[count - 1]).1;
            if count < DATA_PACKET_COUNT_PER_BLOCK {
                outcome is Stored
            } else {
                outcome == (DatagramOutcomeView::Decoded {
                    transfer_id,
                    block_id: block,
                    data: spec_file_block(file, block as int),
                })
            }
        }),
    decreases count,
{
    lemma_block_geometry();
    if count > 1 {
        lemma_sources_deliver_block(tasks, transfer_id, block, file, symbols, count - 1);
    }
    let before = spec_deliver_all(tasks, transfer_id, block, symbols, count - 1);
    assert(before == spec_pending(tasks, transfer_id, block, symbols, count - 1));
    let task = before[transfer_id];
    let symbol = symbols[count - 1];
    assert(task.pending(block) =~= symbols.take(count - 1));
    assert(!task.pending(block).contains(symbol)) by {
        if task.pending(block).contains(symbol) {
            let pending = task.pending(block);
            let i = choose|i: int| 0 <= i < pending.len() && pending[i] == symbol;
            assert(symbols[i] == symbols[count - 1]);
        }
    }
    let stored = task.store(block, symbol);
    assert(symbols.take(count - 1).push(symbol) =~= symbols.take(count));
    assert(stored.recv_blocks =~= tasks[transfer_id].recv_blocks.insert(
        block,
        symbols.take(count),
    ));
    if count == DATA_PACKET_COUNT_PER_BLOCK {
        assert(symbols.take(count) =~= symbols);
        lemma_sources_decode_block(file, block as int, symbols);
        assert(stored.rebuilt(block).recv_blocks =~= tasks[transfer_id].rebuilt(
            block,
        ).recv_blocks);
        assert(before.insert(transfer_id, stored.rebuilt(block)) =~= tasks.insert(
            transfer_id,
            tasks[transfer_id].rebuilt(block),
        ));
    } else {
        assert(before.insert(transfer_id, stored) =~= spec_pending(
            tasks,
            transfer_id,
            block,
            symbols,
            count,
        ));
    }
}

/// Whether every pending symbol of a block is one of `pool`.
pub open spec fn drawn_from(task: TaskView, block: u32, pool: Seq<Seq<u8>>) -> bool {
    forall|i: int|
        0 <= i < task.pending(block).len() ==> pool.contains(#[trigger] task.pending(block)[i])
}

/// As long as the symbols that arrive for a block are drawn from a pool,
/// so are the pending symbols of the block.
pub proof fn lemma_receive_keeps_drawn_from(
    task: TaskView,
    transfer_id: u128,
    block: u32,
    symbol: Seq<u8>,
    pool: Seq<Seq<u8>>,
    watched: u32,
)
    requires
        drawn_from(task, watched, pool),
        block == watched ==> pool.contains(symbol),
    ensures
        drawn_from(task.receive(transfer_id, block, symbol).0, watched, pool),
{
    let after = task.receive(transfer_id, block, symbol).0;
    assert forall|i: int| 0 <= i < after.pending(watched).len() implies pool.contains(
        #[trigger] after.pending(watched)[i],
    ) by {
        if after.pending(watched) != task.pending(watched) {
            if i < task.pending(watched).len() {
                assert(after.pending(watched)[i] == task.pending(watched)[i]);
            }
        }
    }
}

/// A block never has more symbols pending than the pool holds from which
/// its symbols are drawn.
pub proof fn lemma_pending_is_bounded(task: TaskView, block: u32, pool: Seq<Seq<u8>>)
    requires
        task.wf(),
        drawn_from(task, block, pool),
    ensures
        task.pending(block).len() <= pool.len(),
{
    let pending = task.pending(block);
    assert(pending.no_duplicates());
    pending.unique_seq_to_set();
    pool.lemma_cardinality_of_set();
    seq_to_set_is_finite(pool);
    assert(pending.to_set().subset_of(pool.to_set())) by {
        assert forall|symbol: Seq<u8>| pending.to_set().contains(symbol) implies
            pool.to_set().contains(symbol) by {
            let i = choose|i: int| 0 <= i < pending.len() && pending[i] == symbol;
            assert(pool.contains(pending[i]));
        }
    }
    lemma_len_subset(pending.to_set(), pool.to_set());
}

/// With a sender that sends what the codec gives, a block never has more
/// symbols pending than it has source symbols and repair symbols.
pub proof fn lemma_pending_is_within_budget(
    task: TaskView,
    block: u32,
    data: Seq<u8>,
    parity_rate_percent: int,
)
    requires
        task.wf(),
        0 <= parity_rate_percent,
        drawn_from(task, block, spec_encode_block(data, parity_rate_percent)),
    ensures
        task.pending(block).len() <= DATA_PACKET_COUNT_PER_BLOCK + spec_parity_per_block(
            parity_rate_percent,
        ),
{
    lemma_block_geometry();
    lemma_pending_is_bounded(task, block, spec_encode_block(data, parity_rate_percent));
}

/// Whether `symbols` are the source symbols of some block of a file in
/// the order of their identifiers: as many as a block has, well formed,
/// and each with the identifier of its place.
pub open spec fn are_sources(symbols: Seq<Seq<u8>>) -> bool {
    &&& symbols.len() == DATA_PACKET_COUNT_PER_BLOCK
    &&& forall|i: int|
        0 <= i < symbols.len() ==> {
            &&& well_formed_packet(spec_encode_config(), #[trigger] symbols[i])
            &&& packet_symbol_id(symbols[i]) == i
        }
}

/// How far the source symbols of a block bring a transfer, whatever has
/// arrived before: after the first `count` of them the block is rebuilt, or
/// all of them are pending. No block that was rebuilt is lost on the way.
pub proof fn lemma_round_reaches_block(
    tasks: Map<u128, TaskView>,
    transfer_id: u128,
    block: u32,
    symbols: Seq<Seq<u8>>,
    count: int,
)
    requires
        tasks_wf(tasks),
        tasks.contains_key(transfer_id),
        are_sources(symbols),
        0 <= count <= DATA_PACKET_COUNT_PER_BLOCK,
    ensures
        ({
            let after = spec_deliver_all(tasks, transfer_id, block, symbols, count);
            &&& tasks_wf(after)
            &&& after.contains_key(transfer_id)
            &&& after[transfer_id].file_size == tasks[transfer_id].file_size
            &&& tasks[transfer_id].rebuilt_blocks.subset_of(after[transfer_id].rebuilt_blocks)
            &&& block < tasks[transfer_id].total_blocks() ==> {
                ||| after[transfer_id].rebuilt_blocks.contains(block)
                ||| forall|i: int|
                    0 <= i < count ==> after[transfer_id].pending(block).contains(
                        #[trigger] symbols[i],
                    )
            }
        }),
    decreases count,
{
    if count > 0 {
        lemma_round_reaches_block(tasks, transfer_id, block, symbols, count - 1);
        let before = spec_deliver_all(tasks, transfer_id, block, symbols, count - 1);
        let symbol = symbols[count - 1];
        let task = before[transfer_id];
        let (after, outcome) = spec_deliver(before, transfer_id, block, symbol);
        lemma_deliver_keeps_wf(before, transfer_id, block, symbol);
        if block < tasks[transfer_id].total_blocks() && !after[transfer_id].rebuilt_blocks.contains(
            block,
        ) {
            let pending = after[transfer_id].pending(block);
            assert forall|i: int| 0 <= i < count implies pending.contains(
                #[trigger] symbols[i],
            ) by {
                if was_taken(outcome) {
                    let grown = task.pending(block).push(symbol);
                    assert(pending == grown);
                    if i < count - 1 {
                        let at = choose|at: int|
                            0 <= at < task.pending(block).len() && task.pending(block)[at]
                                == symbols[i];
                        assert(grown[at] == symbols[i]);
                    } else {
                        assert(grown[grown.len() - 1] == symbol);
                    }
                }
            }
        }
    }
}

/// A round without loss rebuilds a block, whatever has arrived before: once
/// every source symbol of a block of the file is delivered, the block
/// counts as rebuilt.
pub proof fn lemma_lossless_round_rebuilds_block(
    tasks: Map<u128, TaskView>,
    transfer_id: u128,
    block: u32,
    symbols: Seq<Seq<u8>>,
)
    requires
        tasks_wf(tasks),
        tasks.contains_key(transfer_id),
        block < tasks[transfer_id].total_blocks(),
        are_sources(symbols),
    ensures
        spec_deliver_all(
            tasks,
            transfer_id,
            block,
            symbols,
            DATA_PACKET_COUNT_PER_BLOCK as int,
        )[transfer_id].rebuilt_blocks.contains(block),
{
    let count = DATA_PACKET_COUNT_PER_BLOCK as int;
    let after = spec_deliver_all(tasks, transfer_id, block, symbols, count);
    let task = after[transfer_id];
    lemma_block_geometry();
    lemma_round_reaches_block(tasks, transfer_id, block, symbols, count);
    if !task.rebuilt_blocks.contains(block) {
        let pending = task.pending(block);
        assert(pending.contains(symbols[0]));
        assert(task.recv_blocks.contains_key(block));
        assert forall|id: int| 0 <= id < count implies #[trigger] first_with_id(pending, id)
            < pending.len() by {
            assert(pending.contains(symbols[id]));
            let at = choose|at: int| 0 <= at < pending.len() && pending[at] == symbols[id];
            lemma_first_with_id(pending, id, at);
        }
        lemma_all_sources_rebuild(spec_encode_config(), pending);
        assert(task.waits(block));
    }
}

/// The table after a round has delivered the source symbols of its first
/// `count` blocks, block after block. `symbols` gives the source symbols
/// of every block.
pub open spec fn spec_deliver_round(
    tasks: Map<u128, TaskView>,
    transfer_id: u128,
    round: Seq<u32>,
    symbols: spec_fn(u32) -> Seq<Seq<u8>>,
    count: int,
) -> Map<u128, TaskView>
    decreases count,
{
    if count <= 0 {
        tasks
    } else {
        spec_deliver_all(
            spec_deliver_round(tasks, transfer_id, round, symbols, count - 1),
            transfer_id,
            round[count - 1],
            symbols(round[count - 1]),
            DATA_PACKET_COUNT_PER_BLOCK as int,
        )
    }
}

/// How far a round without loss brings a transfer: the blocks that it has
/// gone through are rebuilt, and so are all that were rebuilt before.
pub proof fn lemma_round_goes_on(
    tasks: Map<u128, TaskView>,
    transfer_id: u128,
    round: Seq<u32>,
    symbols: spec_fn(u32) -> Seq<Seq<u8>>,
    count: int,
)
    requires
        tasks_wf(tasks),
        tasks.contains_key(transfer_id),
        forall|block: u32| are_sources(#[trigger] symbols(block)),
        0 <= count <= round.len(),
    ensures
        ({
            let after = spec_deliver_round(tasks, transfer_id, round, symbols, count);
            &&& tasks_wf(after)
            &&& after.contains_key(transfer_id)
            &&& after[transfer_id].file_size == tasks[transfer_id].file_size
            &&& tasks[transfer_id].rebuilt_blocks.subset_of(after[transfer_id].rebuilt_blocks)
            &&& forall|i: int|
                0 <= i < count && round[i] < tasks[transfer_id].total_blocks()
                    ==> after[transfer_id].rebuilt_blocks.contains(#[trigger] round[i])
        }),
    decreases count,
{
    if count > 0 {
        let block = round[count - 1];
        let before = spec_deliver_round(tasks, transfer_id, round, symbols, count - 1);
        lemma_round_goes_on(tasks, transfer_id, round, symbols, count - 1);
        assert(are_sources(symbols(block)));
        lemma_round_reaches_block(
            before,
            transfer_id,
            block,
            symbols(block),
            DATA_PACKET_COUNT_PER_BLOCK as int,
        );
        if block < tasks[transfer_id].total_blocks() {
            lemma_lossless_round_rebuilds_block(before, transfer_id, block, symbols(block));
        }
    }
}

/// A round without loss completes a transfer, whatever has arrived before:
/// once the source symbols of every block that is missing are delivered,
/// as many blocks are rebuilt as the file has, and none is missing.
pub proof fn lemma_lossless_round_completes(
    tasks: Map<u128, TaskView>,
    transfer_id: u128,
    round: Seq<u32>,
    symbols: spec_fn(u32) -> Seq<Seq<u8>>,
)
    requires
        tasks_wf(tasks),
        tasks.contains_key(transfer_id),
        forall|block: u32| are_sources(#[trigger] symbols(block)),
        forall|i: int|
            0 <= i < tasks[transfer_id].missing().len() ==> round.contains(
                #[trigger] tasks[transfer_id].missing()[i],
            ),
    ensures
        ({
            let after = spec_deliver_round(
                tasks,
                transfer_id,
                round,
                symbols,
                round.len() as int,
            );
            &&& after.contains_key(transfer_id)
            &&& after[transfer_id].complete()
            &&& after[transfer_id].missing().len() == 0
        }),
{
    let task = tasks[transfer_id];
    let total = task.total_blocks();
    let after = spec_deliver_round(tasks, transfer_id, round, symbols, round.len() as int);
    lemma_round_goes_on(tasks, transfer_id, round, symbols, round.len() as int);
    let done = after[transfer_id];
    task.lemma_missing_below(total);
    done.lemma_missing_below(total);
    if done.missing().len() > 0 {
        let block = done.missing()[0];
        assert(!done.rebuilt_blocks.contains(block));
        assert(!task.rebuilt_blocks.contains(block));
        assert(task.missing().contains(block));
        let at = choose|at: int| 0 <= at < task.missing().len() && task.missing()[at] == block;
        assert(round.contains(task.missing()[at]));
        let i = choose|i: int| 0 <= i < round.len() && round[i] == block;
        assert(done.rebuilt_blocks.contains(round[i]));
    }
    done.lemma_complete_iff_none_missing();
}

} // verus!
