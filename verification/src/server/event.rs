//! Progress events of the receiving side.

use vstd::prelude::*;
use vstd::string::*;
use crate::common::decimal::{decimal, decimal_string};
use crate::server::task::{Task, TaskView};

verus! {

/// State of a transfer as the receiver reports it.
#[derive(Clone, Copy, Debug, PartialEq, Eq, Structural)]
pub enum TaskStatus {
    /// Blocks are coming in.
    Recv,
    /// Every block is rebuilt; the blocks are being joined into the file.
    Merge,
    /// The file is complete.
    Done,
}

impl TaskStatus {
    /// The status as it is written in a serialized event.
    pub open spec fn spec_name(self) -> Seq<char> {
        match self {
            TaskStatus::Recv => "recv"@,
            TaskStatus::Merge => "merge"@,
            TaskStatus::Done => "done"@,
        }
    }

    /// The status as it is written in a serialized event.
    pub fn name(&self) -> (name: &'static str)
        ensures
            name@ == self.spec_name(),
    {
        match self {
            TaskStatus::Recv => "recv",
            TaskStatus::Merge => "merge",
            TaskStatus::Done => "done",
        }
    }
}

/// What the receiver publishes when a transfer changes state.
#[derive(Clone, Debug, PartialEq, Eq)]
pub struct TaskEvent {
    pub filename: String,
    pub file_size: u64,
    /// The transfer identifier in decimal notation.
    pub uuid: String,
    pub block_count: u32,
    /// Blocks that are rebuilt.
    pub done_block_count: u32,
    pub status: TaskStatus,
}

impl TaskEvent {
    /// Whether the event tells the state of a transfer: its file, its
    /// identifier in decimal notation, the number of blocks of the file and
    /// the number of those that are rebuilt.
    pub open spec fn reports(self, uuid: u128, task: TaskView, status: TaskStatus) -> bool {
        &&& self.filename@ == task.filename
        &&& self.file_size == task.file_size
        &&& self.uuid@ == decimal(uuid as nat)
        &&& self.block_count == task.total_blocks()
        &&& self.done_block_count == task.rebuilt_blocks.len()
        &&& self.status == status
    }
}

/// The event that tells the state of a transfer. The caller hands it to
/// whoever listens.
pub fn emit_task_event(uuid: u128, task: &Task, status: TaskStatus) -> (event: TaskEvent)
    ensures
        event.reports(uuid, task@, status),
{
    TaskEvent {
        filename: task.filename().to_owned(),
        file_size: task.file_size(),
        uuid: decimal_string(uuid),
        block_count: task.total_blocks(),
        done_block_count: task.rebuilt_count(),
        status,
    }
}

} // verus!
