//! The internal transfer lifecycle as a finite state machine.

use vstd::prelude::*;
use crate::text::owned;

verus! {

/// States of an internal transfer.
#[derive(Debug, Clone, Copy, PartialEq, Eq, Structural)]
pub enum InternalTransferState {
    Requesting,
    Processing,
    Pending,
    Success,
    Failed,
}

/// Events driving the internal transfer.
#[derive(Debug, Clone, Copy, PartialEq, Eq, Structural)]
pub enum InternalTransferEvent {
    Submit,
    RouteToUbs,
    LockFunds,
    Settle,
    Fail,
}

/// Text name of a state.
pub open spec fn internal_state_name(s: InternalTransferState) -> Seq<char> {
    match s {
        InternalTransferState::Requesting => "requesting"@,
        InternalTransferState::Processing => "processing_ubs"@,
        InternalTransferState::Pending => "pending"@,
        InternalTransferState::Success => "success"@,
        InternalTransferState::Failed => "failed"@,
    }
}

/// Debug name of a state (its variant name).
pub open spec fn internal_state_debug(s: InternalTransferState) -> Seq<char> {
    match s {
        InternalTransferState::Requesting => "Requesting"@,
        InternalTransferState::Processing => "Processing"@,
        InternalTransferState::Pending => "Pending"@,
        InternalTransferState::Success => "Success"@,
        InternalTransferState::Failed => "Failed"@,
    }
}

/// Debug name of an event (its variant name).
pub open spec fn internal_event_debug(e: InternalTransferEvent) -> Seq<char> {
    match e {
        InternalTransferEvent::Submit => "Submit"@,
        InternalTransferEvent::RouteToUbs => "RouteToUbs"@,
        InternalTransferEvent::LockFunds => "LockFunds"@,
        InternalTransferEvent::Settle => "Settle"@,
        InternalTransferEvent::Fail => "Fail"@,
    }
}

/// Success and Failed are terminal.
pub open spec fn internal_is_terminal(s: InternalTransferState) -> bool {
    s == InternalTransferState::Success || s == InternalTransferState::Failed
}

/// The allowed transitions; `None` when the event is not allowed.
pub open spec fn internal_next(s: InternalTransferState, e: InternalTransferEvent) -> Option<InternalTransferState> {
    match (s, e) {
        (InternalTransferState::Requesting, InternalTransferEvent::Submit) => Some(InternalTransferState::Processing),
        (InternalTransferState::Requesting, InternalTransferEvent::Fail) => Some(InternalTransferState::Failed),
        (InternalTransferState::Processing, InternalTransferEvent::RouteToUbs) => Some(InternalTransferState::Processing),
        (InternalTransferState::Processing, InternalTransferEvent::LockFunds) => Some(InternalTransferState::Pending),
        (InternalTransferState::Processing, InternalTransferEvent::Fail) => Some(InternalTransferState::Failed),
        (InternalTransferState::Pending, InternalTransferEvent::Settle) => Some(InternalTransferState::Success),
        (InternalTransferState::Pending, InternalTransferEvent::Fail) => Some(InternalTransferState::Failed),
        _ => None,
    }
}

/// The error text for a refused event.
pub open spec fn refusal_text(s: InternalTransferState, e: InternalTransferEvent) -> Seq<char> {
    if internal_is_terminal(s) {
        "Cannot transition from terminal state "@ + internal_state_debug(s) + " with event "@ + internal_event_debug(e)
    } else {
        "Invalid transition from "@ + internal_state_debug(s) + " with event "@ + internal_event_debug(e)
    }
}

impl InternalTransferState {
    /// The state's text name.
    pub fn as_str(&self) -> (res: &'static str)
        ensures
            res@ == internal_state_name(*self),
    {
        match self {
            InternalTransferState::Requesting => "requesting",
            InternalTransferState::Processing => "processing_ubs",
            InternalTransferState::Pending => "pending",
            InternalTransferState::Success => "success",
            InternalTransferState::Failed => "failed",
        }
    }

    /// The state's variant name.
    pub fn debug_name(&self) -> (res: &'static str)
        ensures
            res@ == internal_state_debug(*self),
    {
        match self {
            InternalTransferState::Requesting => "Requesting",
            InternalTransferState::Processing => "Processing",
            InternalTransferState::Pending => "Pending",
            InternalTransferState::Success => "Success",
            InternalTransferState::Failed => "Failed",
        }
    }
}

impl InternalTransferEvent {
    /// The event's variant name.
    pub fn debug_name(&self) -> (res: &'static str)
        ensures
            res@ == internal_event_debug(*self),
    {
        match self {
            InternalTransferEvent::Submit => "Submit",
            InternalTransferEvent::RouteToUbs => "RouteToUbs",
            InternalTransferEvent::LockFunds => "LockFunds",
            InternalTransferEvent::Settle => "Settle",
            InternalTransferEvent::Fail => "Fail",
        }
    }
}

/// The state machine of one internal transfer.
#[derive(Debug, Clone)]
pub struct InternalTransferStateMachine {
    pub state: InternalTransferState,
}

impl InternalTransferStateMachine {
    /// A machine in the initial state, `Requesting`.
    pub fn new() -> (res: Self)
        ensures
            res.state == InternalTransferState::Requesting,
    {
        Self { state: InternalTransferState::Requesting }
    }

    /// The current state.
    pub fn state(&self) -> (res: InternalTransferState)
        ensures
            res == self.state,
    {
        self.state
    }

    /// Applies an event. On an allowed transition the state moves and the
    /// previous state is returned; otherwise the state stays and the error
    /// text says why.
    pub fn consume(&mut self, event: InternalTransferEvent) -> (res: Result<InternalTransferState, String>)
        ensures
            match internal_next(old(self).state, event) {
                Some(next) => res == Ok::<InternalTransferState, String>(old(self).state) && final(self).state == next,
                None => final(self).state == old(self).state && (res matches Err(msg) && msg@ == refusal_text(old(self).state, event)),
            },
    {
        let prev = self.state;
        let next = match (prev, event) {
            (InternalTransferState::Requesting, InternalTransferEvent::Submit) => InternalTransferState::Processing,
            (InternalTransferState::Requesting, InternalTransferEvent::Fail) => InternalTransferState::Failed,
            (InternalTransferState::Processing, InternalTransferEvent::RouteToUbs) => InternalTransferState::Processing,
            (InternalTransferState::Processing, InternalTransferEvent::LockFunds) => InternalTransferState::Pending,
            (InternalTransferState::Processing, InternalTransferEvent::Fail) => InternalTransferState::Failed,
            (InternalTransferState::Pending, InternalTransferEvent::Settle) => InternalTransferState::Success,
            (InternalTransferState::Pending, InternalTransferEvent::Fail) => InternalTransferState::Failed,
            _ => {
                let head = if matches!(prev, InternalTransferState::Success | InternalTransferState::Failed) {
                    owned("Cannot transition from terminal state ")
                } else {
                    owned("Invalid transition from ")
                };
                let msg = head.concat(prev.debug_name()).concat(" with event ").concat(event.debug_name());
                return Err(msg);
            },
        };
        self.state = next;
        Ok(prev)
    }

    /// Whether the transfer has reached Success or Failed.
    pub fn is_terminal(&self) -> (res: bool)
        ensures
            res == internal_is_terminal(self.state),
    {
        matches!(self.state, InternalTransferState::Success | InternalTransferState::Failed)
    }

    /// Text name of the current state.
    pub fn as_str(&self) -> (res: &'static str)
        ensures
            res@ == internal_state_name(self.state),
    {
        self.state.as_str()
    }
}

impl Default for InternalTransferStateMachine {
    fn default() -> (res: Self)
        ensures
            res.state == InternalTransferState::Requesting,
    {
        Self::new()
    }
}

/// Terminal states refuse every event: a settled or failed transfer never
/// moves again.
pub proof fn lemma_internal_terminal_refuses(s: InternalTransferState, e: InternalTransferEvent)
    requires
        internal_is_terminal(s),
    ensures
        internal_next(s, e) is None,
{
}

/// From any non-terminal state, `Fail` is allowed and leads to `Failed`.
pub proof fn lemma_internal_fail_always_possible(s: InternalTransferState)
    requires
        !internal_is_terminal(s),
    ensures
        internal_next(s, InternalTransferEvent::Fail) == Some(InternalTransferState::Failed),
{
}

} // verus!
