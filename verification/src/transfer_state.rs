//! States, events and the transition function of the transfer state machine.

use vstd::prelude::*;
use crate::text::str_equals;

verus! {

/// Transfer state machine states.
#[derive(Debug, Clone, Copy, PartialEq, Eq, Structural)]
pub enum TransferState {
    /// Created, waiting for processing.
    Init,
    /// Source service called, result outstanding.
    SourcePending,
    /// Source confirmed the debit or freeze.
    SourceDone,
    /// Target service called, result outstanding.
    TargetPending,
    /// Target failed; the source is being rolled back.
    Compensating,
    /// Transfer complete.
    Committed,
    /// Transfer cancelled, source restored.
    RolledBack,
    /// Source failed, nothing changed.
    Failed,
}

/// Events that drive the transfer state machine.
#[derive(Debug, Clone, Copy, PartialEq, Eq, Structural)]
pub enum TransferEvent {
    SourceCall,
    SourceOk,
    SourceFail,
    TargetCall,
    TargetOk,
    TargetFail,
    RollbackOk,
    RollbackFail,
}

/// Text name of a state.
pub open spec fn state_name(s: TransferState) -> Seq<char> {
    match s {
        TransferState::Init => "init"@,
        TransferState::SourcePending => "source_pending"@,
        TransferState::SourceDone => "source_done"@,
        TransferState::TargetPending => "target_pending"@,
        TransferState::Compensating => "compensating"@,
        TransferState::Committed => "committed"@,
        TransferState::RolledBack => "rolled_back"@,
        TransferState::Failed => "failed"@,
    }
}

/// A state is terminal when no event moves it.
pub open spec fn state_is_terminal(s: TransferState) -> bool {
    s == TransferState::Committed || s == TransferState::RolledBack || s == TransferState::Failed
}

/// The transition relation: the next state for a state and an event.
/// Pairs that are not listed leave the state as it is.
pub open spec fn next_state(s: TransferState, e: TransferEvent) -> TransferState {
    match (s, e) {
        (TransferState::Init, TransferEvent::SourceCall) => TransferState::SourcePending,
        (TransferState::Init, TransferEvent::SourceOk) => TransferState::SourceDone,
        (TransferState::Init, TransferEvent::SourceFail) => TransferState::Failed,
        (TransferState::SourcePending, TransferEvent::SourceOk) => TransferState::SourceDone,
        (TransferState::SourcePending, TransferEvent::SourceFail) => TransferState::Failed,
        (TransferState::SourceDone, TransferEvent::TargetCall) => TransferState::TargetPending,
        (TransferState::SourceDone, TransferEvent::TargetOk) => TransferState::Committed,
        (TransferState::SourceDone, TransferEvent::TargetFail) => TransferState::Compensating,
        (TransferState::TargetPending, TransferEvent::TargetOk) => TransferState::Committed,
        (TransferState::TargetPending, TransferEvent::TargetFail) => TransferState::Compensating,
        (TransferState::Compensating, TransferEvent::RollbackOk) => TransferState::RolledBack,
        (TransferState::Compensating, TransferEvent::RollbackFail) => TransferState::Compensating,
        _ => s,
    }
}

impl TransferState {
    /// The state's text name.
    pub fn as_str(&self) -> (res: &'static str)
        ensures
            res@ == state_name(*self),
    {
        match self {
            TransferState::Init => "init",
            TransferState::SourcePending => "source_pending",
            TransferState::SourceDone => "source_done",
            TransferState::TargetPending => "target_pending",
            TransferState::Compensating => "compensating",
            TransferState::Committed => "committed",
            TransferState::RolledBack => "rolled_back",
            TransferState::Failed => "failed",
        }
    }

    /// Parses a state from its text name; `None` for any other text.
    pub fn from_str(s: &str) -> (res: Option<TransferState>)
        ensures
            match res {
                Some(st) => state_name(st) == s@,
                None => forall|st: TransferState| state_name(st) != s@,
            },
    {
        if str_equals(s, "init") {
            Some(TransferState::Init)
        } else if str_equals(s, "source_pending") {
            Some(TransferState::SourcePending)
        } else if str_equals(s, "source_done") {
            Some(TransferState::SourceDone)
        } else if str_equals(s, "target_pending") {
            Some(TransferState::TargetPending)
        } else if str_equals(s, "compensating") {
            Some(TransferState::Compensating)
        } else if str_equals(s, "committed") {
            Some(TransferState::Committed)
        } else if str_equals(s, "rolled_back") {
            Some(TransferState::RolledBack)
        } else if str_equals(s, "failed") {
            Some(TransferState::Failed)
        } else {
            None
        }
    }

    /// Whether the state is terminal (committed, rolled back or failed).
    pub fn is_terminal(&self) -> (res: bool)
        ensures
            res == state_is_terminal(*self),
    {
        matches!(self, TransferState::Committed | TransferState::RolledBack | TransferState::Failed)
    }

    /// Whether the background scanner still has to process the transfer.
    pub fn needs_processing(&self) -> (res: bool)
        ensures
            res == !state_is_terminal(*self),
    {
        !self.is_terminal()
    }
}

/// The next state for the current state and an event; an event that does
/// not apply leaves the state unchanged.
pub fn transition(current: TransferState, event: TransferEvent) -> (res: TransferState)
    ensures
        res == next_state(current, event),
{
    match (current, event) {
        (TransferState::Init, TransferEvent::SourceCall) => TransferState::SourcePending,
        (TransferState::Init, TransferEvent::SourceOk) => TransferState::SourceDone,
        (TransferState::Init, TransferEvent::SourceFail) => TransferState::Failed,
        (TransferState::SourcePending, TransferEvent::SourceOk) => TransferState::SourceDone,
        (TransferState::SourcePending, TransferEvent::SourceFail) => TransferState::Failed,
        (TransferState::SourceDone, TransferEvent::TargetCall) => TransferState::TargetPending,
        (TransferState::SourceDone, TransferEvent::TargetOk) => TransferState::Committed,
        (TransferState::SourceDone, TransferEvent::TargetFail) => TransferState::Compensating,
        (TransferState::TargetPending, TransferEvent::TargetOk) => TransferState::Committed,
        (TransferState::TargetPending, TransferEvent::TargetFail) => TransferState::Compensating,
        (TransferState::Compensating, TransferEvent::RollbackOk) => TransferState::RolledBack,
        (TransferState::Compensating, TransferEvent::RollbackFail) => TransferState::Compensating,
        _ => current,
    }
}

/// Terminal states are stable: no event moves a committed, rolled-back or
/// failed transfer.
pub proof fn lemma_terminal_states_are_stable(s: TransferState, e: TransferEvent)
    requires
        state_is_terminal(s),
    ensures
        next_state(s, e) == s,
{
}

/// A state's text name parses back to the same state, and distinct states
/// have distinct names.
pub proof fn lemma_state_name_roundtrip(s: TransferState, t: TransferState)
    ensures
        state_name(s) == state_name(t) ==> s == t,
{
    reveal_strlit("init");
    reveal_strlit("source_pending");
    reveal_strlit("source_done");
    reveal_strlit("target_pending");
    reveal_strlit("compensating");
    reveal_strlit("committed");
    reveal_strlit("rolled_back");
    reveal_strlit("failed");
    if state_name(s) == state_name(t) {
        assert(state_name(s).len() == state_name(t).len());
        assert(state_name(s)[0] == state_name(t)[0]);
    }
}

/// Once a transfer leaves `Init`, no event brings it back there.
pub proof fn lemma_init_never_reentered(s: TransferState, e: TransferEvent)
    requires
        s != TransferState::Init,
    ensures
        next_state(s, e) != TransferState::Init,
{
}

} // verus!
