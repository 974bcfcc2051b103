//! The receiver's record of one transfer.

use std::collections::{HashMap, HashSet};
use vstd::prelude::*;
use vstd::set_lib::*;
use vstd::std_specs::hash::*;
use crate::common::bytes::{bytes_equal, payloads};
use crate::common::erasure::{
    block_count, decode_block, spec_block_count, spec_block_len, spec_decode_block,
    spec_encode_config, well_formed_packet, DATA_PACKET_COUNT_PER_BLOCK,
};
use crate::server::event::{emit_task_event, TaskEvent, TaskStatus};

verus! {

broadcast use vstd::std_specs::hash::group_hash_axioms;

/// What became of a datagram.
#[derive(Clone, Debug, PartialEq, Eq)]
pub enum DatagramOutcome {
    /// No transfer has the identifier; the datagram was dropped.
    UnknownTransfer,
    /// The file has no block with this index; the datagram was dropped.
    OutOfRange,
    /// The block is rebuilt already; the datagram was dropped.
    AlreadyRebuilt,
    /// The block holds the very same symbol already; nothing changed.
    Duplicate,
    /// The symbol is new and was stored. The block has fewer symbols than it
    /// takes to rebuild it, so that was not tried.
    Stored,
    /// The symbol is new and was stored. Rebuilding the block from all its
    /// symbols was tried and failed; the symbols stay for the next attempt.
    DecodeFailed,
    /// The symbol is new, and with it the block was rebuilt. The block
    /// counts as rebuilt and its pending symbols are released. `data` holds
    /// the bytes of the block inside the file, for the caller to save;
    /// `event` tells the progress of the transfer, for the caller to
    /// publish.
    Decoded { transfer_id: u128, block_id: u32, data: Vec<u8>, event: TaskEvent },
}

/// A `DatagramOutcome` with the data as a byte string, and without the
/// event.
pub enum DatagramOutcomeView {
    UnknownTransfer,
    OutOfRange,
    AlreadyRebuilt,
    Duplicate,
    Stored,
    DecodeFailed,
    Decoded { transfer_id: u128, block_id: u32, data: Seq<u8> },
}

impl View for DatagramOutcome {
    type V = DatagramOutcomeView;

    open spec fn view(&self) -> DatagramOutcomeView {
        match *self {
            DatagramOutcome::UnknownTransfer => DatagramOutcomeView::UnknownTransfer,
            DatagramOutcome::OutOfRange => DatagramOutcomeView::OutOfRange,
            DatagramOutcome::AlreadyRebuilt => DatagramOutcomeView::AlreadyRebuilt,
            DatagramOutcome::Duplicate => DatagramOutcomeView::Duplicate,
            DatagramOutcome::Stored => DatagramOutcomeView::Stored,
            DatagramOutcome::DecodeFailed => DatagramOutcomeView::DecodeFailed,
            DatagramOutcome::Decoded { transfer_id, block_id, data, event } => {
                DatagramOutcomeView::Decoded { transfer_id, block_id, data: data@ }
            },
        }
    }
}

impl DatagramOutcome {
    /// Whether what comes with a rebuilt block fits the transfer as it is
    /// after it: the data has the length of the part of the file that lies
    /// in the block, and the event tells the state of the transfer.
    pub open spec fn reports(self, task: TaskView) -> bool {
        self matches DatagramOutcome::Decoded { transfer_id, block_id, data, event } ==> {
            &&& data.len() == spec_block_len(task.file_size as int, block_id as int)
            &&& event.reports(transfer_id, task, TaskStatus::Recv)
        }
    }
}

/// The record of one transfer: what is being received, the symbols of the
/// blocks that are not rebuilt yet, and the blocks that are.
pub struct Task {
    filename: String,
    file_size: u64,
    recv_blocks: HashMap<u32, Vec<Vec<u8>>>,
    rebuilt_blocks: HashSet<u32>,
}

/// A `Task` as a mathematical value.
pub struct TaskView {
    pub filename: Seq<char>,
    pub file_size: u64,
    /// For every block with symbols pending, its distinct symbols in the
    /// order of their arrival.
    pub recv_blocks: Map<u32, Seq<Seq<u8>>>,
    pub rebuilt_blocks: Set<u32>,
}

/// The block indices below `n`.
pub open spec fn block_range(n: int) -> Set<u32> {
    Set::new(|block: u32| block < n)
}

/// There are `n` block indices below `n`.
pub proof fn lemma_block_range(n: int)
    requires
        0 <= n <= u32::MAX + 1,
    ensures
        block_range(n).finite(),
        block_range(n).len() == n,
    decreases n,
{
    if n == 0 {
        assert(block_range(n) =~= Set::<u32>::empty());
    } else {
        lemma_block_range(n - 1);
        assert(block_range(n - 1).insert((n - 1) as u32) =~= block_range(n));
    }
}

impl TaskView {
    /// The record of a transfer of which nothing has arrived.
    pub open spec fn fresh(filename: Seq<char>, file_size: u64) -> TaskView {
        TaskView { filename, file_size, recv_blocks: Map::empty(), rebuilt_blocks: Set::empty() }
    }

    /// Number of blocks of the file.
    pub open spec fn total_blocks(self) -> int {
        spec_block_count(self.file_size as int)
    }

    /// The symbols that are pending for a block.
    pub open spec fn pending(self, block: u32) -> Seq<Seq<u8>> {
        if self.recv_blocks.contains_key(block) {
            self.recv_blocks[block]
        } else {
            Seq::empty()
        }
    }

    /// Whether the pending symbols of a block are too few to try, or were
    /// tried in vain.
    pub open spec fn waits(self, block: u32) -> bool {
        self.recv_blocks[block].len() < DATA_PACKET_COUNT_PER_BLOCK || spec_decode_block(
            block as int,
            self.file_size as int,
            self.recv_blocks[block],
        ) is Err
    }

    /// Whether every pending symbol of a block is well formed.
    pub open spec fn feedable(self, block: u32) -> bool {
        forall|i: int|
            0 <= i < self.recv_blocks[block].len() ==> well_formed_packet(
                spec_encode_config(),
                #[trigger] self.recv_blocks[block][i],
            )
    }

    /// The invariant of a record. Every block that is rebuilt or has symbols
    /// pending is a block of the file; no block is both; the pending symbols
    /// of a block are distinct and well formed, and they do not rebuild the
    /// block.
    pub open spec fn wf(self) -> bool {
        &&& self.total_blocks() <= u32::MAX
        &&& self.rebuilt_blocks.finite()
        &&& self.recv_blocks.dom().finite()
        &&& forall|block: u32| #[trigger]
            self.rebuilt_blocks.contains(block) ==> block < self.total_blocks()
        &&& forall|block: u32| #[trigger]
            self.recv_blocks.contains_key(block) ==> {
                &&& block < self.total_blocks()
                &&& !self.rebuilt_blocks.contains(block)
                &&& self.recv_blocks[block].len() > 0
                &&& self.recv_blocks[block].no_duplicates()
                &&& self.feedable(block)
                &&& self.waits(block)
            }
    }

    /// The record with one more symbol pending for a block.
    pub open spec fn store(self, block: u32, symbol: Seq<u8>) -> TaskView {
        TaskView {
            recv_blocks: self.recv_blocks.insert(block, self.pending(block).push(symbol)),
            ..self
        }
    }

    /// The record once a block counts as rebuilt: the block is among the
    /// rebuilt ones and its pending symbols are released.
    pub open spec fn rebuilt(self, block: u32) -> TaskView {
        TaskView {
            recv_blocks: self.recv_blocks.remove(block),
            rebuilt_blocks: self.rebuilt_blocks.insert(block),
            ..self
        }
    }

    /// The record once a rebuilt block is lost again: the block is missing
    /// as if nothing of it had arrived.
    pub open spec fn lost(self, block: u32) -> TaskView {
        TaskView { rebuilt_blocks: self.rebuilt_blocks.remove(block), ..self }
    }

    /// What a symbol for a block does to the record, and what becomes of it.
    /// A symbol is dropped if the block is none of the file or is rebuilt,
    /// and changes nothing if the block has it already. Else it is stored;
    /// if the block then has `DATA_PACKET_COUNT_PER_BLOCK` symbols or more,
    /// rebuilding the block from them is tried, and if that is done the
    /// block counts as rebuilt.
    pub open spec fn receive(self, transfer_id: u128, block: u32, symbol: Seq<u8>) -> (
        TaskView,
        DatagramOutcomeView,
    ) {
        if block >= self.total_blocks() {
            (self, DatagramOutcomeView::OutOfRange)
        } else if self.rebuilt_blocks.contains(block) {
            (self, DatagramOutcomeView::AlreadyRebuilt)
        } else if self.pending(block).contains(symbol) {
            (self, DatagramOutcomeView::Duplicate)
        } else {
            let stored = self.store(block, symbol);
            let pending = stored.pending(block);
            if pending.len() < DATA_PACKET_COUNT_PER_BLOCK {
                (stored, DatagramOutcomeView::Stored)
            } else {
                match spec_decode_block(block as int, self.file_size as int, pending) {
                    Ok(data) => (
                        stored.rebuilt(block),
                        DatagramOutcomeView::Decoded { transfer_id, block_id: block, data },
                    ),
                    Err(_) => (stored, DatagramOutcomeView::DecodeFailed),
                }
            }
        }
    }

    /// The blocks below `n` that are not rebuilt, in rising order.
    pub open spec fn missing_below(self, n: int) -> Seq<u32>
        decreases n,
    {
        if n <= 0 {
            Seq::empty()
        } else if self.rebuilt_blocks.contains((n - 1) as u32) {
            self.missing_below(n - 1)
        } else {
            self.missing_below(n - 1).push((n - 1) as u32)
        }
    }

    /// The blocks of the file that are not rebuilt, in rising order.
    pub open spec fn missing(self) -> Seq<u32> {
        self.missing_below(self.total_blocks())
    }

    /// Whether as many blocks are rebuilt as the file has.
    pub open spec fn complete(self) -> bool {
        self.rebuilt_blocks.len() == self.total_blocks()
    }

    /// No more blocks are rebuilt than the file has.
    pub proof fn lemma_rebuilt_bound(self)
        requires
            self.wf(),
        ensures
            self.rebuilt_blocks.len() <= self.total_blocks(),
            self.rebuilt_blocks.subset_of(block_range(self.total_blocks())),
    {
        lemma_block_range(self.total_blocks());
        lemma_len_subset(self.rebuilt_blocks, block_range(self.total_blocks()));
    }

    /// A list of missing blocks holds exactly the blocks below `n` that are
    /// not rebuilt, each once and in rising order.
    pub proof fn lemma_missing_below(self, n: int)
        requires
            0 <= n <= u32::MAX + 1,
        ensures
            self.missing_below(n).len() <= n,
            forall|i: int|
                0 <= i < self.missing_below(n).len() ==> {
                    &&& (#[trigger] self.missing_below(n)[i]) < n
                    &&& !self.rebuilt_blocks.contains(self.missing_below(n)[i])
                },
            forall|i: int, j: int|
                0 <= i < j < self.missing_below(n).len() ==> self.missing_below(n)[i]
                    < self.missing_below(n)[j],
            forall|block: u32|
                block < n && !self.rebuilt_blocks.contains(block) ==> self.missing_below(
                    n,
                ).contains(block),
        decreases n,
    {
        if n > 0 {
            self.lemma_missing_below(n - 1);
            let rest = self.missing_below(n - 1);
            let last = (n - 1) as u32;
            if !self.rebuilt_blocks.contains(last) {
                assert(rest.push(last).last() == last);
                assert forall|block: u32|
                    block < n && !self.rebuilt_blocks.contains(block) implies rest.push(
                    last,
                ).contains(block) by {
                    if block < n - 1 {
                        let i = choose|i: int| 0 <= i < rest.len() && rest[i] == block;
                        assert(rest.push(last)[i] == block);
                    } else {
                        assert(rest.push(last)[rest.len() as int] == block);
                    }
                }
            }
        }
    }

    /// As many blocks are rebuilt as the file has exactly when none is
    /// missing.
    pub proof fn lemma_complete_iff_none_missing(self)
        requires
            self.wf(),
        ensures
            self.complete() <==> self.missing().len() == 0,
            self.complete() ==> self.rebuilt_blocks == block_range(self.total_blocks()),
    {
        let total = self.total_blocks();
        self.lemma_rebuilt_bound();
        self.lemma_missing_below(total);
        lemma_block_range(total);
        if self.complete() {
            lemma_subset_equality(self.rebuilt_blocks, block_range(total));
            if self.missing().len() > 0 {
                let block = self.missing()[0];
                assert(block_range(total).contains(block));
            }
        }
        if self.missing().len() == 0 {
            assert forall|block: u32| block_range(total).contains(block) implies
                self.rebuilt_blocks.contains(block) by {
                if !self.rebuilt_blocks.contains(block) {
                    assert(self.missing().contains(block));
                }
            }
            assert(self.rebuilt_blocks =~= block_range(total));
        }
    }
}

/// The pending symbols of every block as byte strings.
pub open spec fn pending_symbols(blocks: HashMap<u32, Vec<Vec<u8>>>) -> Map<u32, Seq<Seq<u8>>> {
    Map::new(|block: u32| blocks@.contains_key(block), |block: u32| payloads(blocks@[block]@))
}

impl View for Task {
    type V = TaskView;

    closed spec fn view(&self) -> TaskView {
        TaskView {
            filename: self.filename@,
            file_size: self.file_size,
            recv_blocks: pending_symbols(self.recv_blocks),
            rebuilt_blocks: self.rebuilt_blocks@,
        }
    }
}

/// Whether `symbol` is among `symbols`.
fn contains_symbol(symbols: &Vec<Vec<u8>>, symbol: &Vec<u8>) -> (found: bool)
    ensures
        found == payloads(symbols@).contains(symbol@),
{
    let mut i: usize = 0;
    while i < symbols.len()
        invariant
            i <= symbols.len(),
            forall|j: int| 0 <= j < i ==> payloads(symbols@)[j] != symbol@,
        decreases symbols.len() - i,
    {
        if bytes_equal(symbols[i].as_slice(), symbol.as_slice()) {
            assert(payloads(symbols@)[i as int] == symbol@);
            return true;
        }
        i = i + 1;
    }
    false
}

impl Task {
    #[verifier::type_invariant]
    pub open spec fn well_formed(self) -> bool {
        self@.wf()
    }

    /// The record of a transfer of which nothing has arrived. There is none
    /// for a file with more blocks than a block index can number.
    pub fn new(filename: String, file_size: u64) -> (task: Option<Task>)
        ensures
            match task {
                Some(task) => {
                    &&& spec_block_count(file_size as int) <= u32::MAX
                    &&& task@ == TaskView::fresh(filename@, file_size)
                    &&& task@.wf()
                },
                None => spec_block_count(file_size as int) > u32::MAX,
            },
    {
        if block_count(file_size) > u32::MAX as u64 {
            return None;
        }
        let recv_blocks: HashMap<u32, Vec<Vec<u8>>> = HashMap::new();
        let rebuilt_blocks: HashSet<u32> = HashSet::new();
        assert(pending_symbols(recv_blocks) =~= Map::<u32, Seq<Seq<u8>>>::empty());
        Some(Task { filename, file_size, recv_blocks, rebuilt_blocks })
    }

    pub fn filename(&self) -> (filename: &str)
        ensures
            filename@ == self@.filename,
    {
        self.filename.as_str()
    }

    pub fn file_size(&self) -> (file_size: u64)
        ensures
            file_size == self@.file_size,
    {
        self.file_size
    }

    /// Number of blocks of the file.
    pub fn total_blocks(&self) -> (total: u32)
        ensures
            total == self@.total_blocks(),
    {
        proof {
            use_type_invariant(self);
        }
        block_count(self.file_size) as u32
    }

    /// Number of blocks that are rebuilt.
    pub fn rebuilt_count(&self) -> (count: u32)
        ensures
            count == self@.rebuilt_blocks.len(),
    {
        proof {
            use_type_invariant(self);
            self@.lemma_rebuilt_bound();
        }
        self.rebuilt_blocks.len() as u32
    }

    /// Whether a block is rebuilt.
    pub fn is_rebuilt(&self, block_id: u32) -> (rebuilt: bool)
        ensures
            rebuilt == self@.rebuilt_blocks.contains(block_id),
    {
        self.rebuilt_blocks.contains(&block_id)
    }

    /// Number of symbols that are pending for a block.
    pub fn pending_count(&self, block_id: u32) -> (count: usize)
        ensures
            count == self@.pending(block_id).len(),
    {
        match self.recv_blocks.get(&block_id) {
            Some(symbols) => symbols.len(),
            None => 0,
        }
    }

    /// Whether every block of the file is rebuilt.
    pub fn is_complete(&self) -> (complete: bool)
        ensures
            complete == self@.complete(),
    {
        self.rebuilt_count() == self.total_blocks()
    }

    /// The blocks of the file that are not rebuilt, in rising order.
    pub fn missing_blocks(&self) -> (missing: Vec<u32>)
        ensures
            missing@ == self@.missing(),
    {
        let total: u32 = self.total_blocks();
        let mut missing: Vec<u32> = Vec::new();
        let mut block: u32 = 0;
        while block < total
            invariant
                block <= total,
                total == self@.total_blocks(),
                missing@ == self@.missing_below(block as int),
            decreases total - block,
        {
            if !self.rebuilt_blocks.contains(&block) {
                missing.push(block);
            }
            block = block + 1;
        }
        missing
    }

    /// Takes in a well-formed symbol for a block of the transfer with the
    /// identifier `transfer_id`.
    pub(crate) fn receive(&mut self, transfer_id: u128, block_id: u32, symbol: Vec<u8>) -> (outcome:
        DatagramOutcome)
        requires
            well_formed_packet(spec_encode_config(), symbol@),
        ensures
            final(self)@.wf(),
            (final(self)@, outcome@) == old(self)@.receive(transfer_id, block_id, symbol@),
            outcome.reports(final(self)@),
    {
        proof {
            use_type_invariant(&*self);
        }
        if block_id as u64 >= block_count(self.file_size) {
            return DatagramOutcome::OutOfRange;
        }
        if self.rebuilt_blocks.contains(&block_id) {
            return DatagramOutcome::AlreadyRebuilt;
        }
        let ghost before = self@;
        // The pending symbols leave the record while they are worked on, and
        // come back when they fit it again.
        let mut blocks: HashMap<u32, Vec<Vec<u8>>> = HashMap::new();
        assert(pending_symbols(blocks) =~= Map::<u32, Seq<Seq<u8>>>::empty());
        core::mem::swap(&mut self.recv_blocks, &mut blocks);
        let mut symbols = match blocks.remove(&block_id) {
            Some(symbols) => symbols,
            None => Vec::new(),
        };
        assert(payloads(symbols@) =~= before.pending(block_id));
        if contains_symbol(&symbols, &symbol) {
            blocks.insert(block_id, symbols);
            assert(pending_symbols(blocks) =~= before.recv_blocks);
            core::mem::swap(&mut self.recv_blocks, &mut blocks);
            return DatagramOutcome::Duplicate;
        }
        let ghost added = symbol@;
        let ghost pending = before.pending(block_id).push(added);
        symbols.push(symbol);
        proof {
            assert(payloads(symbols@) =~= pending);
            assert forall|i: int| 0 <= i < pending.len() implies well_formed_packet(
                spec_encode_config(),
                #[trigger] pending[i],
            ) by {
                if i < before.pending(block_id).len() {
                    assert(before.recv_blocks[block_id][i] == pending[i]);
                }
            }
            assert(pending.no_duplicates()) by {
                assert forall|i: int, j: int|
                    0 <= i < pending.len() && 0 <= j < pending.len() && i != j implies pending[i]
                    != pending[j] by {
                    if i < before.pending(block_id).len() && j < before.pending(block_id).len() {
                    } else if i < before.pending(block_id).len() {
                        assert(before.pending(block_id)[i] == pending[i]);
                    } else {
                        assert(before.pending(block_id)[j] == pending[j]);
                    }
                }
            }
        }
        if symbols.len() < DATA_PACKET_COUNT_PER_BLOCK {
            blocks.insert(block_id, symbols);
            assert(pending_symbols(blocks) =~= before.store(block_id, added).recv_blocks);
            core::mem::swap(&mut self.recv_blocks, &mut blocks);
            return DatagramOutcome::Stored;
        }
        match decode_block(block_id, self.file_size, &symbols) {
            Ok(data) => {
                assert(pending_symbols(blocks) =~= before.store(block_id, added).rebuilt(
                    block_id,
                ).recv_blocks);
                core::mem::swap(&mut self.recv_blocks, &mut blocks);
                let mut rebuilt: HashSet<u32> = HashSet::new();
                core::mem::swap(&mut self.rebuilt_blocks, &mut rebuilt);
                rebuilt.insert(block_id);
                core::mem::swap(&mut self.rebuilt_blocks, &mut rebuilt);
                let event = emit_task_event(transfer_id, self, TaskStatus::Recv);
                DatagramOutcome::Decoded { transfer_id, block_id, data, event }
            },
            Err(_) => {
                blocks.insert(block_id, symbols);
                assert(pending_symbols(blocks) =~= before.store(block_id, added).recv_blocks);
                core::mem::swap(&mut self.recv_blocks, &mut blocks);
                DatagramOutcome::DecodeFailed
            },
        }
    }

    /// Counts a rebuilt block as missing again, because its data was lost.
    pub(crate) fn mark_lost(&mut self, block_id: u32)
        ensures
            final(self)@.wf(),
            final(self)@ == old(self)@.lost(block_id),
    {
        proof {
            use_type_invariant(&*self);
        }
        let mut rebuilt: HashSet<u32> = HashSet::new();
        core::mem::swap(&mut self.rebuilt_blocks, &mut rebuilt);
        rebuilt.remove(&block_id);
        core::mem::swap(&mut self.rebuilt_blocks, &mut rebuilt);
    }
}

} // verus!
