//! Progress events of the sending side.

use vstd::prelude::*;

verus! {

/// State of a transfer as the sender reports it.
#[derive(Clone, Copy, Debug, PartialEq, Eq, Structural)]
pub enum TaskStatus {
    /// A round of datagrams is about to go out.
    Send,
    /// The receiver has confirmed the whole file.
    Done,
}

impl TaskStatus {
    /// The status as it is written in a serialized event.
    pub open spec fn spec_name(self) -> Seq<char> {
        match self {
            TaskStatus::Send => "send"@,
            TaskStatus::Done => "done"@,
        }
    }

    /// The status as it is written in a serialized event.
    pub fn name(&self) -> (name: &'static str)
        ensures
            name@ == self.spec_name(),
    {
        match self {
            TaskStatus::Send => "send",
            TaskStatus::Done => "done",
        }
    }
}

/// What the sender publishes when a transfer changes state.
#[derive(Clone, Debug, PartialEq, Eq)]
pub struct TaskEvent {
    pub filename: String,
    pub file_size: u64,
    /// Target rate in datagrams per second; `0` stands for no limit.
    pub pps: u64,
    /// The transfer identifier in decimal notation.
    pub uuid: String,
    pub block_count: u32,
    /// Blocks that the receiver has not rebuilt yet.
    pub remain_block_count: u32,
    pub status: TaskStatus,
}

} // verus!
