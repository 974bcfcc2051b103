//! The heartbeat of the sender: a ping every few seconds on a stream of
//! its own, apart from any transfer.

use vstd::prelude::*;
use crate::common::wire::{heartbeat_message, spec_heartbeat};

verus! {

/// Seconds between two pings.
pub const HEARTBEAT_INTERVAL_SECS: u64 = 5;

/// Where the heartbeat stands: what it does next.
#[derive(Clone, Copy, Debug, PartialEq, Eq, Structural)]
pub enum HeartbeatState {
    /// Send a ping.
    Ping,
    /// Wait for the answer.
    Pong,
    /// Rest until the next ping is due.
    Rest,
}

/// What the caller does next on the heartbeat stream.
#[derive(Clone, Debug, PartialEq, Eq)]
pub enum HeartbeatAction {
    /// Write `message`.
    Send { message: Vec<u8> },
    /// Read `size` bytes; what they hold does not matter.
    Receive { size: usize },
    /// Sleep for `seconds`.
    Sleep { seconds: u64 },
}

impl HeartbeatState {
    /// The state that follows: ping, answer, rest, and again.
    pub open spec fn spec_next(self) -> HeartbeatState {
        match self {
            HeartbeatState::Ping => HeartbeatState::Pong,
            HeartbeatState::Pong => HeartbeatState::Rest,
            HeartbeatState::Rest => HeartbeatState::Ping,
        }
    }
}

/// Takes the heartbeat one step further: says what to do in `state` and
/// which state follows once that is done. The caller starts in `Ping` and
/// goes on until the stream fails.
pub fn handle_heartbeat_stream(state: HeartbeatState) -> (step: (HeartbeatState, HeartbeatAction))
    ensures
        step.0 == state.spec_next(),
        match state {
            HeartbeatState::Ping => step.1 matches HeartbeatAction::Send { message } && message@
                == spec_heartbeat(),
            HeartbeatState::Pong => step.1 matches HeartbeatAction::Receive { size } && size == 1,
            HeartbeatState::Rest => step.1 matches HeartbeatAction::Sleep { seconds } && seconds
                == HEARTBEAT_INTERVAL_SECS,
        },
{
    match state {
        HeartbeatState::Ping => (
            HeartbeatState::Pong,
            HeartbeatAction::Send { message: heartbeat_message() },
        ),
        HeartbeatState::Pong => (HeartbeatState::Rest, HeartbeatAction::Receive { size: 1 }),
        HeartbeatState::Rest => (
            HeartbeatState::Ping,
            HeartbeatAction::Sleep { seconds: HEARTBEAT_INTERVAL_SECS },
        ),
    }
}

} // verus!
