//! The decisions of a reader that keeps one device's input flowing to a receiver: it opens the
//! device (retrying every 500 ms until it is there), reads reports and hands each one on,
//! reconnects after 200 ms when the device is lost, and stops for good once the receiver is
//! gone. The caller performs each action and reports what came of it.
use vstd::prelude::*;

verus! {

/// Pause before the next attempt to open a device that was not found, in milliseconds.
pub const RETRY_OPEN_MS: u64 = 500;

/// Pause before reconnecting to a device whose read failed, in milliseconds.
pub const RECONNECT_MS: u64 = 200;

/// Where the reader stands.
#[derive(Debug, Clone, Copy, PartialEq, Eq, Structural)]
pub enum PollState {
    /// Waiting for the device to open.
    Connecting,
    /// The device is open; waiting for a report.
    Reading,
    /// A report was read; waiting for the receiver to take it.
    Delivering,
    /// The receiver is gone; nothing more is done.
    Stopped,
}

/// What came of the last action.
#[derive(Debug, Clone, Copy, PartialEq, Eq, Structural)]
pub enum PollEvent {
    Opened,
    OpenFailed,
    ReadDone,
    ReadFailed,
    Delivered,
    ReceiverGone,
}

/// What the caller does next.
#[derive(Debug, Clone, Copy, PartialEq, Eq, Structural)]
pub enum PollAction {
    /// Wait this many milliseconds, then try to open the device.
    OpenAfter(u64),
    /// Read the next report from the open device.
    Read,
    /// Hand the report just read to the receiver.
    Deliver,
    /// Stop.
    Stop,
}

/// The action that is pending in `state` (the one that the next event answers).
pub open spec fn pending_action(state: PollState) -> PollAction {
    match state {
        PollState::Connecting => PollAction::OpenAfter(0),
        PollState::Reading => PollAction::Read,
        PollState::Delivering => PollAction::Deliver,
        PollState::Stopped => PollAction::Stop,
    }
}

/// The next state and action after `event` in `state`. An event that does not answer the
/// pending action leaves the state as it is and asks for that action again.
pub open spec fn next(state: PollState, event: PollEvent) -> (PollState, PollAction) {
    match (state, event) {
        (PollState::Connecting, PollEvent::Opened) => (PollState::Reading, PollAction::Read),
        (PollState::Connecting, PollEvent::OpenFailed) => (
            PollState::Connecting,
            PollAction::OpenAfter(RETRY_OPEN_MS),
        ),
        (PollState::Reading, PollEvent::ReadDone) => (PollState::Delivering, PollAction::Deliver),
        (PollState::Reading, PollEvent::ReadFailed) => (
            PollState::Connecting,
            PollAction::OpenAfter(RECONNECT_MS),
        ),
        (PollState::Delivering, PollEvent::Delivered) => (PollState::Reading, PollAction::Read),
        (PollState::Delivering, PollEvent::ReceiverGone) => (PollState::Stopped, PollAction::Stop),
        _ => (state, pending_action(state)),
    }
}

/// The reader's first state and action: open the device right away.
pub fn start() -> (r: (PollState, PollAction))
    ensures
        r == (PollState::Connecting, PollAction::OpenAfter(0)),
{
    (PollState::Connecting, PollAction::OpenAfter(0))
}

/// The next state and action of the reader after `event` in `state`.
pub fn step(state: PollState, event: PollEvent) -> (r: (PollState, PollAction))
    ensures
        r == next(state, event),
{
    match (state, event) {
        (PollState::Connecting, PollEvent::Opened) => (PollState::Reading, PollAction::Read),
        (PollState::Connecting, PollEvent::OpenFailed) => (
            PollState::Connecting,
            PollAction::OpenAfter(RETRY_OPEN_MS),
        ),
        (PollState::Reading, PollEvent::ReadDone) => (PollState::Delivering, PollAction::Deliver),
        (PollState::Reading, PollEvent::ReadFailed) => (
            PollState::Connecting,
            PollAction::OpenAfter(RECONNECT_MS),
        ),
        (PollState::Delivering, PollEvent::Delivered) => (PollState::Reading, PollAction::Read),
        (PollState::Delivering, PollEvent::ReceiverGone) => (PollState::Stopped, PollAction::Stop),
        (PollState::Connecting, _) => (PollState::Connecting, PollAction::OpenAfter(0)),
        (PollState::Reading, _) => (PollState::Reading, PollAction::Read),
        (PollState::Delivering, _) => (PollState::Delivering, PollAction::Deliver),
        (PollState::Stopped, _) => (PollState::Stopped, PollAction::Stop),
    }
}

/// The reader stops only when the receiver is gone, and once stopped it stays stopped.
pub proof fn lemma_stops_only_when_receiver_gone(state: PollState, event: PollEvent)
    ensures
        next(state, event).0 is Stopped <==> (state is Stopped || (state is Delivering
            && event is ReceiverGone)),
        next(state, event).1 is Stop <==> next(state, event).0 is Stopped,
{
}

/// A lost or missing device is never given up on: every failure leads back to opening it.
pub proof fn lemma_failures_reconnect(state: PollState, event: PollEvent)
    requires
        (state is Connecting && event is OpenFailed) || (state is Reading && event is ReadFailed),
    ensures
        next(state, event).0 is Connecting,
        next(state, event).1 is OpenAfter,
{
}

} // verus!
