//! The control-stream path of the receiver: one exchange per stream, told
//! apart by the operation tag that opens it.

use vstd::prelude::*;
use vstd::string::*;
use uuid::Uuid;
use crate::common::error::ProtocolError;
use crate::common::flags::{FLAG_HEARTBEAT, FLAG_REQUEST_ID, FLAG_UPLOAD_COMPLETE};
use crate::common::wire::{
    heartbeat_message, id_reply, missing_reply, ok_reply, parse_complete, parse_request,
    spec_heartbeat, spec_id_reply, spec_missing_reply, spec_ok_reply, spec_parse_complete,
    spec_parse_request, FILE_SIZE_SIZE, ID_SIZE, MAX_FILENAME_SIZE,
};
use crate::common::erasure::spec_block_count;
use crate::server::event::{emit_task_event, TaskEvent, TaskStatus};
use crate::server::table::TaskTable;
use crate::server::task::{Task, TaskView};

verus! {

/// `Uuid::new_v4` of the `uuid` crate, as the number that `Uuid::as_u128`
/// makes of it. The identifier is drawn at random: nothing is known of it.
#[verifier::external_body]
fn mint_transfer_id() -> (transfer_id: u128) {
    Uuid::new_v4().as_u128()
}

/// A transfer that was taken into the table.
#[derive(Clone, Debug, PartialEq, Eq)]
pub struct Registration {
    pub transfer_id: u128,
    /// The answer to the sender: the identifier.
    pub reply: Vec<u8>,
    /// The first progress event of the transfer.
    pub event: TaskEvent,
}

/// What a `REQUEST_ID` message with the identifier `transfer_id` at hand
/// makes of the table. It is turned down if it cannot be read, if the file
/// has more blocks than a block index can number, or if the identifier is
/// in use. Else the table gets a record of which nothing has arrived.
pub open spec fn spec_handle_request_id(
    tasks: Map<u128, TaskView>,
    body: Seq<u8>,
    transfer_id: u128,
) -> Result<Map<u128, TaskView>, ProtocolError> {
    match spec_parse_request(body) {
        Err(e) => Err(e),
        Ok((file_size, filename)) => {
            if spec_block_count(file_size as int) > u32::MAX {
                Err(ProtocolError::FileTooLarge)
            } else if tasks.contains_key(transfer_id) {
                Err(ProtocolError::IdCollision)
            } else {
                Ok(tasks.insert(transfer_id, TaskView::fresh(filename, file_size)))
            }
        },
    }
}

/// Registers the transfer that a `REQUEST_ID` message asks for under the
/// identifier `transfer_id`. `body` is what follows the tag.
pub fn handle_request_id(tasks: &mut TaskTable, body: &[u8], transfer_id: u128) -> (result: Result<
    Registration,
    ProtocolError,
>)
    ensures
        final(tasks).wf(),
        match result {
            Ok(registration) => {
                &&& spec_handle_request_id(old(tasks)@, body@, transfer_id) == Ok::<
                    Map<u128, TaskView>,
                    ProtocolError,
                >(final(tasks)@)
                &&& registration.transfer_id == transfer_id
                &&& registration.reply@ == spec_id_reply(transfer_id)
                &&& registration.event.reports(
                    transfer_id,
                    final(tasks)@[transfer_id],
                    TaskStatus::Recv,
                )
            },
            Err(e) => {
                &&& spec_handle_request_id(old(tasks)@, body@, transfer_id) == Err::<
                    Map<u128, TaskView>,
                    ProtocolError,
                >(e)
                &&& final(tasks)@ == old(tasks)@
            },
        },
{
    proof {
        use_type_invariant(&*tasks);
    }
    let request = match parse_request(body) {
        Ok(request) => request,
        Err(e) => {
            return Err(e);
        },
    };
    let task = match Task::new(request.filename, request.file_size) {
        Some(task) => task,
        None => {
            return Err(ProtocolError::FileTooLarge);
        },
    };
    if tasks.contains(transfer_id) {
        return Err(ProtocolError::IdCollision);
    }
    let event = emit_task_event(transfer_id, &task, TaskStatus::Recv);
    tasks.insert(transfer_id, task);
    Ok(Registration { transfer_id, reply: id_reply(transfer_id), event })
}

/// What the receiver does at the end of a round.
#[derive(Clone, Debug, PartialEq, Eq)]
pub enum Completion {
    /// Every block is rebuilt. The caller answers with `reply`, publishes
    /// `event`, joins the saved blocks `0` up to `block_count` in this order
    /// into the file `filename`, and then calls `finish_transfer`.
    Merge {
        transfer_id: u128,
        reply: Vec<u8>,
        event: TaskEvent,
        filename: String,
        block_count: u32,
    },
    /// Blocks are missing. The caller answers with `reply`, which lists
    /// them.
    Retry { transfer_id: u128, reply: Vec<u8>, missing: Vec<u32> },
}

impl Completion {
    /// Whether this is what the end of a round calls for, given the record
    /// of the transfer.
    pub open spec fn answers(self, id: u128, task: TaskView) -> bool {
        match self {
            Completion::Merge { transfer_id, reply, event, filename, block_count } => {
                &&& task.complete()
                &&& transfer_id == id
                &&& reply@ == spec_ok_reply()
                &&& event.reports(id, task, TaskStatus::Merge)
                &&& filename@ == task.filename
                &&& block_count == task.total_blocks()
            },
            Completion::Retry { transfer_id, reply, missing } => {
                &&& !task.complete()
                &&& transfer_id == id
                &&& missing@ == task.missing()
                &&& reply@ == spec_missing_reply(task.missing())
            },
        }
    }
}

/// Answers an `UPLOAD_COMPLETE` message. `body` is what follows the tag. The
/// message is turned down if it cannot be read or names no transfer. Else
/// the answer is `DECODE_OK` if as many blocks are rebuilt as the file has,
/// and `DECODE_ERROR` with the list of the missing blocks if not. The table
/// does not change.
pub fn handle_upload_complete(tasks: &TaskTable, body: &[u8]) -> (result: Result<
    Completion,
    ProtocolError,
>)
    ensures
        match spec_parse_complete(body@) {
            Err(e) => result matches Err(err) && err == e,
            Ok(transfer_id) => {
                if tasks@.contains_key(transfer_id) {
                    result matches Ok(completion) && completion.answers(
                        transfer_id,
                        tasks@[transfer_id],
                    )
                } else {
                    result matches Err(err) && err == ProtocolError::InvalidId
                }
            },
        },
{
    proof {
        use_type_invariant(tasks);
    }
    let transfer_id = match parse_complete(body) {
        Ok(transfer_id) => transfer_id,
        Err(e) => {
            return Err(e);
        },
    };
    let task = match tasks.get(transfer_id) {
        Some(task) => task,
        None => {
            return Err(ProtocolError::InvalidId);
        },
    };
    if task.is_complete() {
        Ok(
            Completion::Merge {
                transfer_id,
                reply: ok_reply(),
                event: emit_task_event(transfer_id, task, TaskStatus::Merge),
                filename: task.filename().to_owned(),
                block_count: task.total_blocks(),
            },
        )
    } else {
        let missing = task.missing_blocks();
        proof {
            task@.lemma_missing_below(task@.total_blocks());
        }
        Ok(Completion::Retry { transfer_id, reply: missing_reply(&missing), missing })
    }
}

/// The table once a complete transfer is over: its record is gone. A
/// transfer with blocks missing stays.
pub open spec fn spec_finish_transfer(tasks: Map<u128, TaskView>, transfer_id: u128) -> Map<
    u128,
    TaskView,
> {
    if tasks.contains_key(transfer_id) && tasks[transfer_id].complete() {
        tasks.remove(transfer_id)
    } else {
        tasks
    }
}

/// Ends a transfer whose blocks were joined into the file. Its record
/// leaves the table. Returns the last progress event of the transfer, or
/// nothing if there is no such transfer or it has blocks missing.
pub fn finish_transfer(tasks: &mut TaskTable, transfer_id: u128) -> (event: Option<TaskEvent>)
    ensures
        final(tasks).wf(),
        final(tasks)@ == spec_finish_transfer(old(tasks)@, transfer_id),
        match event {
            Some(event) => {
                &&& old(tasks)@.contains_key(transfer_id)
                &&& old(tasks)@[transfer_id].complete()
                &&& event.reports(transfer_id, old(tasks)@[transfer_id], TaskStatus::Done)
            },
            None => !(old(tasks)@.contains_key(transfer_id) && old(
                tasks,
            )@[transfer_id].complete()),
        },
{
    proof {
        use_type_invariant(&*tasks);
    }
    match tasks.remove(transfer_id) {
        None => {
            assert(final(tasks)@ =~= old(tasks)@);
            None
        },
        Some(task) => {
            if task.is_complete() {
                Some(emit_task_event(transfer_id, &task, TaskStatus::Done))
            } else {
                tasks.insert(transfer_id, task);
                assert(final(tasks)@ =~= old(tasks)@);
                None
            }
        },
    }
}

/// Where a control stream stands: what the bytes that come next are.
#[derive(Clone, Copy, Debug, PartialEq, Eq, Structural)]
pub enum StreamState {
    /// The operation tag.
    Flag,
    /// What follows the tag of a `REQUEST_ID` message.
    Request,
    /// What follows the tag of an `UPLOAD_COMPLETE` message.
    Complete,
    /// The next ping of a heartbeat.
    Heartbeat,
}

/// What the caller does next on a control stream.
#[derive(Clone, Debug, PartialEq, Eq)]
pub enum StreamAction {
    /// Read exactly `size` bytes and hand them over in state `next`.
    Read { size: usize, next: StreamState },
    /// Read up to the end of the stream, but no more than `limit` bytes,
    /// and hand them over in state `next`.
    ReadToEnd { limit: usize, next: StreamState },
    /// Answer with `reply`, then read one byte and hand it over in state
    /// `next`.
    Pong { reply: Vec<u8>, next: StreamState },
    /// A transfer was registered: publish its event and answer with its
    /// reply. The exchange is over.
    Registered(Registration),
    /// A round is over. The exchange ends with what the completion says.
    Completed(Completion),
    /// Close the stream with a protocol error.
    Reject(ProtocolError),
}

/// The operation tag that opens a stream decides what is read next.
pub open spec fn spec_stream_opening(flag: u8) -> Result<StreamState, ProtocolError> {
    if flag == FLAG_REQUEST_ID {
        Ok(StreamState::Request)
    } else if flag == FLAG_UPLOAD_COMPLETE {
        Ok(StreamState::Complete)
    } else if flag == FLAG_HEARTBEAT {
        Ok(StreamState::Heartbeat)
    } else {
        Err(ProtocolError::InvalidFlag)
    }
}

/// Takes a control stream one step further. `input` holds the bytes that
/// the step before asked for; on a new stream, its first byte.
///
/// The tag `REQUEST_ID` leads to a new transfer under a freshly drawn
/// identifier, `UPLOAD_COMPLETE` to the answer for the round, `HEARTBEAT` to
/// an exchange of pings that ends only with the stream. Any other tag is
/// turned down.
pub fn handle_stream(tasks: &mut TaskTable, state: StreamState, input: &[u8]) -> (action:
    StreamAction)
    ensures
        final(tasks).wf(),
        match state {
            StreamState::Flag => {
                &&& final(tasks)@ == old(tasks)@
                &&& if input.len() == 0 {
                    action matches StreamAction::Reject(e) && e == ProtocolError::ShortRead
                } else {
                    match spec_stream_opening(input[0]) {
                        Ok(StreamState::Request) => action matches StreamAction::ReadToEnd {
                            limit,
                            next,
                        } && limit == FILE_SIZE_SIZE + MAX_FILENAME_SIZE && next
                            == StreamState::Request,
                        Ok(StreamState::Complete) => action matches StreamAction::Read {
                            size,
                            next,
                        } && size == ID_SIZE && next == StreamState::Complete,
                        Ok(_) => action matches StreamAction::Pong { reply, next } && reply@
                            == spec_heartbeat() && next == StreamState::Heartbeat,
                        Err(e) => action matches StreamAction::Reject(err) && err == e,
                    }
                }
            },
            StreamState::Request => match action {
                StreamAction::Registered(registration) => {
                    &&& spec_handle_request_id(old(tasks)@, input@, registration.transfer_id)
                        == Ok::<Map<u128, TaskView>, ProtocolError>(final(tasks)@)
                    &&& registration.reply@ == spec_id_reply(registration.transfer_id)
                    &&& registration.event.reports(
                        registration.transfer_id,
                        final(tasks)@[registration.transfer_id],
                        TaskStatus::Recv,
                    )
                },
                StreamAction::Reject(e) => {
                    &&& final(tasks)@ == old(tasks)@
                    &&& exists|transfer_id: u128|
                        spec_handle_request_id(old(tasks)@, input@, transfer_id) == Err::<
                            Map<u128, TaskView>,
                            ProtocolError,
                        >(e)
                },
                _ => false,
            },
            StreamState::Complete => {
                &&& final(tasks)@ == old(tasks)@
                &&& match spec_parse_complete(input@) {
                    Err(e) => action matches StreamAction::Reject(err) && err == e,
                    Ok(transfer_id) => {
                        if old(tasks)@.contains_key(transfer_id) {
                            action matches StreamAction::Completed(completion)
                                && completion.answers(transfer_id, old(tasks)@[transfer_id])
                        } else {
                            action matches StreamAction::Reject(err) && err
                                == ProtocolError::InvalidId
                        }
                    },
                }
            },
            StreamState::Heartbeat => {
                &&& final(tasks)@ == old(tasks)@
                &&& if input.len() == 0 {
                    action matches StreamAction::Reject(e) && e == ProtocolError::ShortRead
                } else {
                    action matches StreamAction::Pong { reply, next } && reply@
                        == spec_heartbeat() && next == StreamState::Heartbeat
                }
            },
        },
{
    proof {
        use_type_invariant(&*tasks);
    }
    match state {
        StreamState::Flag => {
            if input.len() == 0 {
                return StreamAction::Reject(ProtocolError::ShortRead);
            }
            let flag: u8 = input[0];
            if flag == FLAG_REQUEST_ID {
                StreamAction::ReadToEnd {
                    limit: FILE_SIZE_SIZE + MAX_FILENAME_SIZE,
                    next: StreamState::Request,
                }
            } else if flag == FLAG_UPLOAD_COMPLETE {
                StreamAction::Read { size: ID_SIZE, next: StreamState::Complete }
            } else if flag == FLAG_HEARTBEAT {
                StreamAction::Pong { reply: heartbeat_message(), next: StreamState::Heartbeat }
            } else {
                StreamAction::Reject(ProtocolError::InvalidFlag)
            }
        },
        StreamState::Request => {
            let transfer_id: u128 = mint_transfer_id();
            match handle_request_id(tasks, input, transfer_id) {
                Ok(registration) => StreamAction::Registered(registration),
                Err(e) => StreamAction::Reject(e),
            }
        },
        StreamState::Complete => {
            match handle_upload_complete(tasks, input) {
                Ok(completion) => StreamAction::Completed(completion),
                Err(e) => StreamAction::Reject(e),
            }
        },
        StreamState::Heartbeat => {
            if input.len() == 0 {
                return StreamAction::Reject(ProtocolError::ShortRead);
            }
            StreamAction::Pong { reply: heartbeat_message(), next: StreamState::Heartbeat }
        },
    }
}

} // verus!
