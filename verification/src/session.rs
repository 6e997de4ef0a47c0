//! The broadcast loop's state machine.
//!
//! Each connected observer owns one loop that ticks at a fixed period:
//! `Running` waits for the tick, `Stepping` advances the shared scene,
//! `Serializing` captures a snapshot under the lock, `Sending` pushes it to
//! the one observer outside the lock. A failed send means the observer is
//! gone: the loop closes and never leaves `Closed`. The transport layer
//! drives this machine; every transition it may take is fixed here.

use vstd::prelude::*;

verus! {

/// The phases of one observer's broadcast loop.
#[derive(Clone, Copy, Debug, PartialEq, Eq, Structural)]
pub enum BroadcastState {
    Running,
    Stepping,
    Serializing,
    Sending,
    Closed,
}

/// What happened since the loop last advanced.
#[derive(Clone, Copy, Debug, PartialEq, Eq, Structural)]
pub enum BroadcastEvent {
    TickFired,
    StepDone,
    SnapshotTaken,
    SendSucceeded,
    SendFailed,
}

/// The transition relation: the cycle
/// `Running -> Stepping -> Serializing -> Sending -> Running`, broken only
/// by a failed send, which closes the loop for good; an event that does not
/// belong to the current phase changes nothing.
pub open spec fn broadcast_next(s: BroadcastState, e: BroadcastEvent) -> BroadcastState {
    match (s, e) {
        (BroadcastState::Running, BroadcastEvent::TickFired) => BroadcastState::Stepping,
        (BroadcastState::Stepping, BroadcastEvent::StepDone) => BroadcastState::Serializing,
        (BroadcastState::Serializing, BroadcastEvent::SnapshotTaken) => BroadcastState::Sending,
        (BroadcastState::Sending, BroadcastEvent::SendSucceeded) => BroadcastState::Running,
        (BroadcastState::Sending, BroadcastEvent::SendFailed) => BroadcastState::Closed,
        (other, _) => other,
    }
}

/// Advance the loop by one event.
pub fn advance(s: BroadcastState, e: BroadcastEvent) -> (r: BroadcastState)
    ensures
        r == broadcast_next(s, e),
{
    match (s, e) {
        (BroadcastState::Running, BroadcastEvent::TickFired) => BroadcastState::Stepping,
        (BroadcastState::Stepping, BroadcastEvent::StepDone) => BroadcastState::Serializing,
        (BroadcastState::Serializing, BroadcastEvent::SnapshotTaken) => BroadcastState::Sending,
        (BroadcastState::Sending, BroadcastEvent::SendSucceeded) => BroadcastState::Running,
        (BroadcastState::Sending, BroadcastEvent::SendFailed) => BroadcastState::Closed,
        (other, _) => other,
    }
}

/// Law: a closed loop stays closed — an observer's disconnection terminates
/// only that observer's loop, permanently.
pub proof fn lemma_closed_is_terminal(e: BroadcastEvent)
    ensures
        broadcast_next(BroadcastState::Closed, e) == BroadcastState::Closed,
{
}

} // verus!
