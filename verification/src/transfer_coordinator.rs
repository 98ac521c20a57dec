//! Decisions of the transfer coordinator. The coordinator loop (database
//! reads and writes, calls into the services) runs outside; each step asks
//! these functions what to do next and what a service's answer means.

use vstd::prelude::*;
use crate::transfer_state::{TransferState, TransferEvent, next_state, state_is_terminal};
use crate::transfer_types::{ServiceId, OpResult, TransferRecord, TransferRequest};

verus! {

/// Why a transfer request is refused.
#[derive(Debug, Clone, Copy, PartialEq, Eq, Structural)]
pub enum RequestError {
    /// The amount is zero.
    ZeroAmount,
    /// Source and target are the same service.
    SameService,
}

/// Checks a transfer request: the amount must be positive and the two
/// services distinct. Returns the (source, target) pair.
pub fn validate_request(req: &TransferRequest) -> (res: Result<(ServiceId, ServiceId), RequestError>)
    ensures
        req.amount == 0 ==> res == Err::<(ServiceId, ServiceId), RequestError>(RequestError::ZeroAmount),
        req.amount != 0 && req.from == req.to ==> res == Err::<(ServiceId, ServiceId), RequestError>(RequestError::SameService),
        req.amount != 0 && req.from != req.to ==> res == Ok::<(ServiceId, ServiceId), RequestError>((req.from, req.to)),
{
    if req.amount == 0 {
        return Err(RequestError::ZeroAmount);
    }
    if req.from == req.to {
        return Err(RequestError::SameService);
    }
    Ok((req.from, req.to))
}

/// A new transfer record, in state `Init`, for a validated request.
pub fn new_record(req: &TransferRequest, req_id: u128, now_ms: i64) -> (rec: TransferRecord)
    ensures
        rec.req_id == req_id,
        rec.source == req.from,
        rec.target == req.to,
        rec.user_id == req.user_id,
        rec.asset_id == req.asset_id,
        rec.amount == req.amount,
        rec.state == TransferState::Init,
        rec.created_at == now_ms,
        rec.updated_at == now_ms,
        rec.error is None,
        rec.retry_count == 0,
{
    TransferRecord {
        req_id,
        source: req.from,
        target: req.to,
        user_id: req.user_id,
        asset_id: req.asset_id,
        amount: req.amount,
        state: TransferState::Init,
        created_at: now_ms,
        updated_at: now_ms,
        error: None,
        retry_count: 0,
    }
}

/// What one coordinator step does in a given state.
#[derive(Debug, Clone, Copy, PartialEq, Eq, Structural)]
pub enum StepAction {
    /// Terminal state: nothing to do.
    Nothing,
    /// Call `withdraw` on the source. With `persist_first`, the state is
    /// first moved (compare-and-set) to `SourcePending`.
    SourceWithdraw { persist_first: bool },
    /// Call `deposit` on the target. With `persist_first`, the state is
    /// first moved (compare-and-set) to `TargetPending`.
    TargetDeposit { persist_first: bool },
    /// Call `rollback` on the source.
    SourceRollback,
}

/// The step to take in a state.
pub open spec fn spec_plan(s: TransferState) -> StepAction {
    match s {
        TransferState::Init => StepAction::SourceWithdraw { persist_first: true },
        TransferState::SourcePending => StepAction::SourceWithdraw { persist_first: false },
        TransferState::SourceDone => StepAction::TargetDeposit { persist_first: true },
        TransferState::TargetPending => StepAction::TargetDeposit { persist_first: false },
        TransferState::Compensating => StepAction::SourceRollback,
        _ => StepAction::Nothing,
    }
}

/// Chooses the step to take in the given state.
pub fn plan_step(state: TransferState) -> (res: StepAction)
    ensures
        res == spec_plan(state),
        res == StepAction::Nothing <==> state_is_terminal(state),
{
    match state {
        TransferState::Init => StepAction::SourceWithdraw { persist_first: true },
        TransferState::SourcePending => StepAction::SourceWithdraw { persist_first: false },
        TransferState::SourceDone => StepAction::TargetDeposit { persist_first: true },
        TransferState::TargetPending => StepAction::TargetDeposit { persist_first: false },
        TransferState::Compensating => StepAction::SourceRollback,
        _ => StepAction::Nothing,
    }
}

/// A call into a service, with the arguments it is made with.
#[derive(Debug, Clone, Copy, PartialEq, Eq, Structural)]
pub enum ServiceCall {
    Withdraw { service: ServiceId, req_id: u128, user_id: u64, asset_id: u32, amount: u64 },
    Deposit { service: ServiceId, req_id: u128, user_id: u64, asset_id: u32, amount: u64 },
    Commit { service: ServiceId, req_id: u128 },
    Rollback { service: ServiceId, req_id: u128 },
}

/// The call a step of `rec` makes: withdraw from the source, deposit to the
/// target or roll the source back, each with the record's request id and,
/// for moves of funds, its user, asset and amount; none in a terminal state.
pub open spec fn spec_step_call(rec: TransferRecord) -> Option<ServiceCall> {
    match spec_plan(rec.state) {
        StepAction::Nothing => None,
        StepAction::SourceWithdraw { .. } => Some(ServiceCall::Withdraw {
            service: rec.source, req_id: rec.req_id, user_id: rec.user_id, asset_id: rec.asset_id, amount: rec.amount,
        }),
        StepAction::TargetDeposit { .. } => Some(ServiceCall::Deposit {
            service: rec.target, req_id: rec.req_id, user_id: rec.user_id, asset_id: rec.asset_id, amount: rec.amount,
        }),
        StepAction::SourceRollback => Some(ServiceCall::Rollback { service: rec.source, req_id: rec.req_id }),
    }
}

/// The service call of the next step of a transfer.
pub fn step_call(rec: &TransferRecord) -> (res: Option<ServiceCall>)
    ensures
        res == spec_step_call(*rec),
{
    match plan_step(rec.state) {
        StepAction::Nothing => None,
        StepAction::SourceWithdraw { .. } => Some(ServiceCall::Withdraw {
            service: rec.source, req_id: rec.req_id, user_id: rec.user_id, asset_id: rec.asset_id, amount: rec.amount,
        }),
        StepAction::TargetDeposit { .. } => Some(ServiceCall::Deposit {
            service: rec.target, req_id: rec.req_id, user_id: rec.user_id, asset_id: rec.asset_id, amount: rec.amount,
        }),
        StepAction::SourceRollback => Some(ServiceCall::Rollback { service: rec.source, req_id: rec.req_id }),
    }
}

/// The call that finalizes the source's withdrawal once the target has
/// taken the funds.
pub fn source_commit_call(rec: &TransferRecord) -> (res: ServiceCall)
    ensures
        res == (ServiceCall::Commit { service: rec.source, req_id: rec.req_id }),
{
    ServiceCall::Commit { service: rec.source, req_id: rec.req_id }
}

/// The state to persist before the call, for steps that persist first.
pub open spec fn spec_persist_target(s: TransferState) -> Option<TransferState> {
    match s {
        TransferState::Init => Some(TransferState::SourcePending),
        TransferState::SourceDone => Some(TransferState::TargetPending),
        _ => None,
    }
}

/// The state written before calling the service (`None` when the step
/// writes nothing first).
pub fn persist_before_call(state: TransferState) -> (res: Option<TransferState>)
    ensures
        res == spec_persist_target(state),
{
    match state {
        TransferState::Init => Some(TransferState::SourcePending),
        TransferState::SourceDone => Some(TransferState::TargetPending),
        _ => None,
    }
}

/// How a step records its outcome in the database.
#[derive(Debug, Clone, Copy, PartialEq, Eq, Structural)]
pub enum DbUpdate {
    /// No write.
    NoWrite,
    /// Compare-and-set the state from `from` to `to`.
    SetState { from: TransferState, to: TransferState },
    /// Compare-and-set the state from `from` to `to`, storing the failure
    /// reason as the record's error.
    SetStateWithError { from: TransferState, to: TransferState },
}

/// Result of interpreting a service answer.
#[derive(Debug, Clone, Copy, PartialEq, Eq, Structural)]
pub struct StepOutcome {
    /// The state after the step.
    pub new_state: TransferState,
    /// What to write to the database.
    pub update: DbUpdate,
    /// Whether the source's pending withdraw must be committed
    /// (after the target accepted the funds).
    pub commit_source: bool,
}

/// The state-machine event a service answer amounts to in a given state
/// (`None` when the answer leaves the state as it is).
pub open spec fn answer_event(s: TransferState, r: OpResult) -> Option<TransferEvent> {
    match s {
        TransferState::Init | TransferState::SourcePending => match r {
            OpResult::Success => Some(TransferEvent::SourceOk),
            OpResult::Failed(_) => Some(TransferEvent::SourceFail),
            OpResult::Pending => None,
        },
        TransferState::SourceDone | TransferState::TargetPending => match r {
            OpResult::Success => Some(TransferEvent::TargetOk),
            OpResult::Failed(_) => Some(TransferEvent::TargetFail),
            OpResult::Pending => None,
        },
        TransferState::Compensating => match r {
            OpResult::Success => Some(TransferEvent::RollbackOk),
            _ => Some(TransferEvent::RollbackFail),
        },
        _ => None,
    }
}

/// Outcome of a step once the called service has answered `result`.
/// `state` is the state the step started in (for steps that persist first,
/// the state before that write).
pub fn on_service_result(state: TransferState, result: &OpResult) -> (out: StepOutcome)
    requires
        !state_is_terminal(state),
    ensures
        // the new state is the state machine's answer to the event
        out.new_state == (match answer_event(state, *result) {
            Some(e) => next_state(after_call(state), e),
            None => after_call(state),
        }),
        out.commit_source == ((state == TransferState::SourceDone || state == TransferState::TargetPending) && result is Success),
        out.update == (match (state, *result) {
            (TransferState::Init, OpResult::Success) | (TransferState::SourcePending, OpResult::Success) =>
                DbUpdate::SetState { from: TransferState::SourcePending, to: TransferState::SourceDone },
            (TransferState::Init, OpResult::Failed(_)) | (TransferState::SourcePending, OpResult::Failed(_)) =>
                DbUpdate::SetStateWithError { from: TransferState::SourcePending, to: TransferState::Failed },
            (TransferState::SourceDone, OpResult::Success) | (TransferState::TargetPending, OpResult::Success) =>
                DbUpdate::SetState { from: TransferState::TargetPending, to: TransferState::Committed },
            (TransferState::SourceDone, OpResult::Failed(_)) | (TransferState::TargetPending, OpResult::Failed(_)) =>
                DbUpdate::SetStateWithError { from: TransferState::TargetPending, to: TransferState::Compensating },
            (TransferState::Compensating, OpResult::Success) =>
                DbUpdate::SetState { from: TransferState::Compensating, to: TransferState::RolledBack },
            _ => DbUpdate::NoWrite,
        }),
{
    match state {
        TransferState::Init | TransferState::SourcePending => match result {
            OpResult::Success => StepOutcome {
                new_state: TransferState::SourceDone,
                update: DbUpdate::SetState { from: TransferState::SourcePending, to: TransferState::SourceDone },
                commit_source: false,
            },
            OpResult::Failed(_) => StepOutcome {
                new_state: TransferState::Failed,
                update: DbUpdate::SetStateWithError { from: TransferState::SourcePending, to: TransferState::Failed },
                commit_source: false,
            },
            OpResult::Pending => StepOutcome {
                new_state: TransferState::SourcePending,
                update: DbUpdate::NoWrite,
                commit_source: false,
            },
        },
        TransferState::SourceDone | TransferState::TargetPending => match result {
            OpResult::Success => StepOutcome {
                new_state: TransferState::Committed,
                update: DbUpdate::SetState { from: TransferState::TargetPending, to: TransferState::Committed },
                commit_source: true,
            },
            OpResult::Failed(_) => StepOutcome {
                new_state: TransferState::Compensating,
                update: DbUpdate::SetStateWithError { from: TransferState::TargetPending, to: TransferState::Compensating },
                commit_source: false,
            },
            OpResult::Pending => StepOutcome {
                new_state: TransferState::TargetPending,
                update: DbUpdate::NoWrite,
                commit_source: false,
            },
        },
        _ => match result {
            OpResult::Success => StepOutcome {
                new_state: TransferState::RolledBack,
                update: DbUpdate::SetState { from: TransferState::Compensating, to: TransferState::RolledBack },
                commit_source: false,
            },
            _ => StepOutcome {
                new_state: TransferState::Compensating,
                update: DbUpdate::NoWrite,
                commit_source: false,
            },
        },
    }
}

/// The state once the step's call is under way: persisting before the
/// call is the `SourceCall` event from `Init` and the `TargetCall` event
/// from `SourceDone`; other steps call without moving the state.
pub open spec fn after_call(s: TransferState) -> TransferState {
    match s {
        TransferState::Init => next_state(s, TransferEvent::SourceCall),
        TransferState::SourceDone => next_state(s, TransferEvent::TargetCall),
        _ => s,
    }
}

/// Whether a step that ended in `new_state`, having started in `old_state`,
/// counts as a retry (the state stayed the same and is not terminal).
pub fn counts_as_retry(old_state: TransferState, new_state: TransferState) -> (res: bool)
    ensures
        res == (!state_is_terminal(new_state) && new_state == old_state),
{
    !new_state.is_terminal() && new_state == old_state
}

/// The coordinator never leaves the state machine: each step moves a
/// transfer exactly as the transition function does for the call made and
/// the answer received, and a terminal state has no step.
pub proof fn lemma_step_follows_state_machine(s: TransferState, r: OpResult)
    requires
        !state_is_terminal(s),
    ensures
        spec_plan(s) != StepAction::Nothing,
        spec_persist_target(s) matches Some(t) ==> t == after_call(s),
        spec_persist_target(s) is None ==> after_call(s) == s,
{
}

} // verus!
