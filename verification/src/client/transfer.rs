//! The sender's side of one transfer.
//!
//! A transfer asks the receiver for an identifier, sends every block as
//! datagrams, and asks whether all of them arrived. As long as the receiver
//! names missing blocks, these are sent again.

use vstd::prelude::*;
use vstd::string::*;
use crate::client::event::{TaskEvent, TaskStatus};
use crate::common::bigendian::{be_value, get_u32};
use crate::common::bytes::payloads;
use crate::common::decimal::{decimal, decimal_string};
use crate::common::erasure::{
    block_count, encode_block, spec_block_count, spec_encode, BlockCodec, MAX_PARITY_RATE_PERCENT,
};
use crate::common::fec::ObjectParameters;
use crate::common::error::ProtocolError;
use crate::common::flags::{FLAG_FILE_DECODE_ERROR, FLAG_FILE_DECODE_OK};
use crate::common::wire::{
    complete_message, parse_id_reply, parse_missing, request_message, spec_complete,
    spec_parse_id_reply, spec_parse_missing, spec_request, spec_upload_packet, upload_packet,
    BLOCK_ID_SIZE, ID_SIZE,
};

verus! {

/// Microseconds in a second.
pub const MICROS_PER_SECOND: u64 = 1_000_000;

/// Time between two datagrams at a rate of `pps` datagrams per second, in
/// microseconds; none at the rate `0`, which stands for no limit.
pub open spec fn spec_pacing_interval(pps: u64) -> Option<u64> {
    if pps == 0 {
        None
    } else {
        Some((MICROS_PER_SECOND / pps) as u64)
    }
}

/// Time between two datagrams at a rate of `pps` datagrams per second, in
/// microseconds. The caller keeps to a fixed schedule of ticks this far
/// apart, so that a delay is made up for by the ticks that follow.
pub fn pacing_interval(pps: u64) -> (interval: Option<u64>)
    ensures
        interval == spec_pacing_interval(pps),
{
    if pps == 0 {
        None
    } else {
        Some(MICROS_PER_SECOND / pps)
    }
}

/// The datagrams of a block: every serialized symbol of the block, in the
/// order in which the codec gives them, each behind the tag, the transfer
/// identifier and the block index.
pub open spec fn spec_block_datagrams(
    config: ObjectParameters,
    transfer_id: u128,
    block_id: u32,
    block: Seq<u8>,
    parity_rate_percent: int,
) -> Seq<Seq<u8>> {
    let symbols = spec_encode(config, block, parity_rate_percent);
    Seq::new(symbols.len(), |i: int| spec_upload_packet(transfer_id, block_id, symbols[i]))
}

/// Codes one block and frames its symbols as datagrams. `block` holds the
/// bytes of the file from the block's offset on, at most a block of them.
/// The parity rate is given in hundredths.
pub fn block_datagrams(
    codec: &BlockCodec,
    transfer_id: u128,
    block_id: u32,
    block: &[u8],
    parity_rate_percent: u32,
) -> (datagrams: Vec<Vec<u8>>)
    requires
        parity_rate_percent <= MAX_PARITY_RATE_PERCENT,
    ensures
        payloads(datagrams@) == spec_block_datagrams(
            codec@,
            transfer_id,
            block_id,
            block@,
            parity_rate_percent as int,
        ),
{
    let symbols = encode_block(codec, block, parity_rate_percent);
    let ghost wanted = spec_block_datagrams(
        codec@,
        transfer_id,
        block_id,
        block@,
        parity_rate_percent as int,
    );
    let mut datagrams: Vec<Vec<u8>> = Vec::with_capacity(symbols.len());
    let mut i: usize = 0;
    assert(payloads(symbols@).len() == symbols.len());
    while i < symbols.len()
        invariant
            i <= symbols.len(),
            payloads(symbols@) == spec_encode(codec@, block@, parity_rate_percent as int),
            wanted == spec_block_datagrams(
                codec@,
                transfer_id,
                block_id,
                block@,
                parity_rate_percent as int,
            ),
            wanted.len() == symbols.len(),
            datagrams.len() == i,
            payloads(datagrams@) == wanted.take(i as int),
        decreases symbols.len() - i,
    {
        let datagram = upload_packet(transfer_id, block_id, symbols[i].as_slice());
        let ghost before = datagrams@;
        proof {
            assert(payloads(symbols@)[i as int] == symbols[i as int]@);
            assert(wanted[i as int] == datagram@);
        }
        datagrams.push(datagram);
        proof {
            assert forall|j: int| 0 <= j < i + 1 implies payloads(datagrams@)[j] == wanted[j] by {
                if j < i {
                    assert(payloads(before)[j] == wanted.take(i as int)[j]);
                }
            }
            assert(payloads(datagrams@) =~= wanted.take(i + 1));
        }
        i = i + 1;
    }
    assert(wanted.take(symbols.len() as int) =~= wanted);
    datagrams
}

/// Where a transfer stands: what `send_file` is handed next.
#[derive(Clone, Copy, Debug, PartialEq, Eq, Structural)]
pub enum SendPhase {
    /// Nothing is sent yet.
    Setup,
    /// The request is out; the identifier comes next.
    AwaitId,
    /// A round of datagrams is under way; nothing comes next but the word
    /// that it is out.
    Transmit,
    /// The end of the round is announced; the tag of the answer comes next.
    AwaitReply,
    /// The answer is `DECODE_ERROR`; the number of missing blocks comes
    /// next.
    AwaitMissingCount,
    /// The list of this many missing blocks comes next.
    AwaitMissingList(u32),
    /// The receiver has the whole file.
    Done,
    /// The transfer failed for good.
    Failed(ProtocolError),
}

/// The state of one transfer on the sending side.
pub struct Transfer {
    filename: String,
    file_size: u64,
    pps: u64,
    transfer_id: u128,
    missing: Vec<u32>,
    phase: SendPhase,
}

/// A `Transfer` as a mathematical value.
pub struct TransferView {
    pub filename: Seq<char>,
    pub file_size: u64,
    /// Target rate in datagrams per second; `0` stands for no limit.
    pub pps: u64,
    /// The identifier that the receiver gave; `0` before it did.
    pub transfer_id: u128,
    /// The blocks that are still to be delivered, in the order in which
    /// they are sent.
    pub missing: Seq<u32>,
    pub phase: SendPhase,
}

/// What the caller does next for a transfer.
#[derive(Clone, Debug, PartialEq, Eq)]
pub enum SendAction {
    /// Open a control stream, write `message`, close the sending half, read
    /// `reply_size` bytes and hand them over.
    Request { message: Vec<u8>, reply_size: u64 },
    /// Publish `event`. Then, for every block of `blocks` in this order,
    /// send the datagrams of the block; after each datagram wait for the
    /// next tick of a timer with the period `interval_micros`, if there is
    /// one. Hand over nothing when all are out.
    Transmit { event: TaskEvent, blocks: Vec<u32>, interval_micros: Option<u64> },
    /// Open a fresh control stream, write `message`, read `reply_size`
    /// bytes and hand them over.
    Complete { message: Vec<u8>, reply_size: u64 },
    /// Read `size` bytes more from the same stream and hand them over.
    Read { size: u64 },
    /// Publish `event` and close the connection: the file is delivered.
    Finish { event: TaskEvent },
    /// Give up: the receiver broke the protocol.
    Fail(ProtocolError),
}

/// All block indices below `count`, in rising order.
pub open spec fn all_blocks(count: int) -> Seq<u32> {
    Seq::new(count as nat, |i: int| i as u32)
}

impl TransferView {
    /// Number of blocks of the file.
    pub open spec fn block_count(self) -> int {
        spec_block_count(self.file_size as int)
    }

    /// The invariant of a transfer: block indices can number the blocks of
    /// the file and the blocks still to be delivered.
    pub open spec fn wf(self) -> bool {
        &&& self.block_count() <= u32::MAX
        &&& self.missing.len() <= u32::MAX
    }

    /// The state that follows when `input` is handed over.
    pub open spec fn step(self, input: Seq<u8>) -> TransferView {
        match self.phase {
            SendPhase::Setup => TransferView { phase: SendPhase::AwaitId, ..self },
            SendPhase::AwaitId => match spec_parse_id_reply(input) {
                Ok(transfer_id) => TransferView {
                    transfer_id,
                    missing: all_blocks(self.block_count()),
                    phase: SendPhase::Transmit,
                    ..self
                },
                Err(e) => TransferView { phase: SendPhase::Failed(e), ..self },
            },
            SendPhase::Transmit => TransferView { phase: SendPhase::AwaitReply, ..self },
            SendPhase::AwaitReply => {
                if input.len() == 0 {
                    TransferView { phase: SendPhase::Failed(ProtocolError::ShortRead), ..self }
                } else if input[0] == FLAG_FILE_DECODE_OK {
                    TransferView { missing: Seq::empty(), phase: SendPhase::Done, ..self }
                } else if input[0] == FLAG_FILE_DECODE_ERROR {
                    TransferView { phase: SendPhase::AwaitMissingCount, ..self }
                } else {
                    TransferView { phase: SendPhase::Failed(ProtocolError::InvalidFlag), ..self }
                }
            },
            SendPhase::AwaitMissingCount => {
                if input.len() < BLOCK_ID_SIZE {
                    TransferView { phase: SendPhase::Failed(ProtocolError::ShortRead), ..self }
                } else {
                    TransferView {
                        phase: SendPhase::AwaitMissingList(
                            be_value(input.take(BLOCK_ID_SIZE as int)) as u32,
                        ),
                        ..self
                    }
                }
            },
            SendPhase::AwaitMissingList(count) => match spec_parse_missing(count, input) {
                Ok(missing) => TransferView { missing, phase: SendPhase::Transmit, ..self },
                Err(e) => TransferView { phase: SendPhase::Failed(e), ..self },
            },
            SendPhase::Done => self,
            SendPhase::Failed(_) => self,
        }
    }
}

impl TaskEvent {
    /// Whether the event tells the state of a transfer: its file, its rate,
    /// its identifier in decimal notation, the number of blocks of the file
    /// and the number of those still to be delivered.
    pub open spec fn reports(self, transfer: TransferView, status: TaskStatus) -> bool {
        &&& self.filename@ == transfer.filename
        &&& self.file_size == transfer.file_size
        &&& self.pps == transfer.pps
        &&& self.uuid@ == decimal(transfer.transfer_id as nat)
        &&& self.block_count == transfer.block_count()
        &&& self.remain_block_count == transfer.missing.len()
        &&& self.status == status
    }
}

impl SendAction {
    /// Whether this is what a transfer calls for in the state `transfer`,
    /// which it has just entered.
    pub open spec fn serves(self, transfer: TransferView) -> bool {
        match transfer.phase {
            SendPhase::Setup => false,
            SendPhase::AwaitId => self matches SendAction::Request { message, reply_size }
                && message@ == spec_request(transfer.file_size, transfer.filename) && reply_size
                == ID_SIZE,
            SendPhase::Transmit => self matches SendAction::Transmit {
                event,
                blocks,
                interval_micros,
            } && event.reports(transfer, TaskStatus::Send) && blocks@ == transfer.missing
                && interval_micros == spec_pacing_interval(transfer.pps),
            SendPhase::AwaitReply => self matches SendAction::Complete { message, reply_size }
                && message@ == spec_complete(transfer.transfer_id) && reply_size == 1,
            SendPhase::AwaitMissingCount => self matches SendAction::Read { size } && size
                == BLOCK_ID_SIZE,
            SendPhase::AwaitMissingList(count) => self matches SendAction::Read { size } && size
                == BLOCK_ID_SIZE * count,
            SendPhase::Done => self matches SendAction::Finish { event } && event.reports(
                transfer,
                TaskStatus::Done,
            ),
            SendPhase::Failed(e) => self matches SendAction::Fail(err) && err == e,
        }
    }
}

impl View for Transfer {
    type V = TransferView;

    closed spec fn view(&self) -> TransferView {
        TransferView {
            filename: self.filename@,
            file_size: self.file_size,
            pps: self.pps,
            transfer_id: self.transfer_id,
            missing: self.missing@,
            phase: self.phase,
        }
    }
}

/// A list with the same block indices.
fn copy_blocks(blocks: &Vec<u32>) -> (copy: Vec<u32>)
    ensures
        copy@ == blocks@,
{
    let mut copy: Vec<u32> = Vec::with_capacity(blocks.len());
    let mut i: usize = 0;
    while i < blocks.len()
        invariant
            i <= blocks.len(),
            copy@ == blocks@.take(i as int),
        decreases blocks.len() - i,
    {
        copy.push(blocks[i]);
        assert(copy@ =~= blocks@.take(i + 1));
        i = i + 1;
    }
    assert(blocks@.take(blocks.len() as int) =~= blocks@);
    copy
}

/// All block indices below `count`, in rising order.
fn first_blocks(count: u32) -> (blocks: Vec<u32>)
    ensures
        blocks@ == all_blocks(count as int),
{
    let mut blocks: Vec<u32> = Vec::new();
    let mut block: u32 = 0;
    while block < count
        invariant
            block <= count,
            blocks@ == all_blocks(block as int),
        decreases count - block,
    {
        blocks.push(block);
        assert(blocks@ =~= all_blocks(block + 1));
        block = block + 1;
    }
    blocks
}

impl Transfer {
    #[verifier::type_invariant]
    pub open spec fn well_formed(self) -> bool {
        self@.wf()
    }

    /// A transfer that has not begun, of the file `filename` of `file_size`
    /// bytes at `pps` datagrams per second. There is none for a file with
    /// more blocks than a block index can number.
    pub fn new(filename: String, file_size: u64, pps: u64) -> (transfer: Result<
        Transfer,
        ProtocolError,
    >)
        ensures
            match transfer {
                Ok(transfer) => {
                    &&& spec_block_count(file_size as int) <= u32::MAX
                    &&& transfer@ == (TransferView {
                        filename: filename@,
                        file_size,
                        pps,
                        transfer_id: 0,
                        missing: Seq::empty(),
                        phase: SendPhase::Setup,
                    })
                    &&& transfer@.wf()
                },
                Err(e) => e == ProtocolError::FileTooLarge && spec_block_count(file_size as int)
                    > u32::MAX,
            },
    {
        if block_count(file_size) > u32::MAX as u64 {
            return Err(ProtocolError::FileTooLarge);
        }
        Ok(
            Transfer {
                filename,
                file_size,
                pps,
                transfer_id: 0,
                missing: Vec::new(),
                phase: SendPhase::Setup,
            },
        )
    }

    pub fn filename(&self) -> (filename: &str)
        ensures
            filename@ == self@.filename,
    {
        self.filename.as_str()
    }

    pub fn file_size(&self) -> (file_size: u64)
        ensures
            file_size == self@.file_size,
    {
        self.file_size
    }

    pub fn pps(&self) -> (pps: u64)
        ensures
            pps == self@.pps,
    {
        self.pps
    }

    pub fn transfer_id(&self) -> (transfer_id: u128)
        ensures
            transfer_id == self@.transfer_id,
    {
        self.transfer_id
    }

    pub fn phase(&self) -> (phase: SendPhase)
        ensures
            phase == self@.phase,
    {
        self.phase
    }

    /// Number of blocks of the file.
    pub fn block_count(&self) -> (count: u32)
        ensures
            count == self@.block_count(),
    {
        proof {
            use_type_invariant(self);
        }
        block_count(self.file_size) as u32
    }

    /// The blocks that are still to be delivered.
    pub fn missing(&self) -> (missing: &Vec<u32>)
        ensures
            missing@ == self@.missing,
    {
        &self.missing
    }

    /// The progress event of the transfer.
    fn event(&self, status: TaskStatus) -> (event: TaskEvent)
        ensures
            event.reports(self@, status),
    {
        proof {
            use_type_invariant(self);
        }
        TaskEvent {
            filename: self.filename.as_str().to_owned(),
            file_size: self.file_size,
            pps: self.pps,
            uuid: decimal_string(self.transfer_id),
            block_count: self.block_count(),
            remain_block_count: self.missing.len() as u32,
            status,
        }
    }

    /// What the state that the transfer is in calls for.
    fn action(&self) -> (action: SendAction)
        requires
            self@.phase != SendPhase::Setup,
        ensures
            action.serves(self@),
    {
        match self.phase {
            SendPhase::Setup => SendAction::Fail(ProtocolError::InvalidFlag),
            SendPhase::AwaitId => SendAction::Request {
                message: request_message(self.file_size, self.filename.as_str()),
                reply_size: ID_SIZE as u64,
            },
            SendPhase::Transmit => SendAction::Transmit {
                event: self.event(TaskStatus::Send),
                blocks: copy_blocks(&self.missing),
                interval_micros: pacing_interval(self.pps),
            },
            SendPhase::AwaitReply => SendAction::Complete {
                message: complete_message(self.transfer_id),
                reply_size: 1,
            },
            SendPhase::AwaitMissingCount => SendAction::Read { size: BLOCK_ID_SIZE as u64 },
            SendPhase::AwaitMissingList(count) => {
                SendAction::Read { size: 4 * (count as u64) }
            },
            SendPhase::Done => SendAction::Finish { event: self.event(TaskStatus::Done) },
            SendPhase::Failed(e) => SendAction::Fail(e),
        }
    }
}

/// Takes a transfer one step further. `input` holds the bytes that the step
/// before asked for, and nothing where it asked for none.
///
/// A transfer begins with the request for an identifier. With the
/// identifier at hand every block of the file is sent. At the end of a
/// round the receiver is asked whether the file is complete: `DECODE_OK`
/// ends the transfer, `DECODE_ERROR` brings the list of the blocks to send
/// in the next round. Any other answer, and any answer that ends too early,
/// is fatal.
pub fn send_file(transfer: &mut Transfer, input: &[u8]) -> (action: SendAction)
    ensures
        final(transfer)@.wf(),
        final(transfer)@ == old(transfer)@.step(input@),
        action.serves(final(transfer)@),
{
    proof {
        use_type_invariant(&*transfer);
    }
    match transfer.phase {
        SendPhase::Setup => {
            transfer.phase = SendPhase::AwaitId;
        },
        SendPhase::AwaitId => {
            match parse_id_reply(input) {
                Ok(transfer_id) => {
                    transfer.transfer_id = transfer_id;
                    transfer.missing = first_blocks(transfer.block_count());
                    transfer.phase = SendPhase::Transmit;
                },
                Err(e) => {
                    transfer.phase = SendPhase::Failed(e);
                },
            }
        },
        SendPhase::Transmit => {
            transfer.phase = SendPhase::AwaitReply;
        },
        SendPhase::AwaitReply => {
            if input.len() == 0 {
                transfer.phase = SendPhase::Failed(ProtocolError::ShortRead);
            } else if input[0] == FLAG_FILE_DECODE_OK {
                transfer.missing = Vec::new();
                transfer.phase = SendPhase::Done;
            } else if input[0] == FLAG_FILE_DECODE_ERROR {
                transfer.phase = SendPhase::AwaitMissingCount;
            } else {
                transfer.phase = SendPhase::Failed(ProtocolError::InvalidFlag);
            }
        },
        SendPhase::AwaitMissingCount => {
            if input.len() < BLOCK_ID_SIZE {
                transfer.phase = SendPhase::Failed(ProtocolError::ShortRead);
            } else {
                assert(input@.subrange(0, 4) =~= input@.take(BLOCK_ID_SIZE as int));
                transfer.phase = SendPhase::AwaitMissingList(get_u32(input, 0));
            }
        },
        SendPhase::AwaitMissingList(count) => {
            match parse_missing(count, input) {
                Ok(missing) => {
                    transfer.missing = missing;
                    transfer.phase = SendPhase::Transmit;
                },
                Err(e) => {
                    transfer.phase = SendPhase::Failed(e);
                },
            }
        },
        SendPhase::Done => {},
        SendPhase::Failed(_) => {},
    }
    transfer.action()
}

} // verus!
