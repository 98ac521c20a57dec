use exchange_core::adapters::{FundingAdapter, ServiceAdapter, TradingAdapter, WorkerConfig};
use exchange_core::transfer_state::{transition, TransferEvent, TransferState};
use exchange_core::transfer_types::{OpResult, ServiceId, TransferRequest};
use exchange_core::transfer_coordinator::{new_record, source_commit_call, step_call, ServiceCall};

#[test]
fn test_terminal_states() {
    assert!(TransferState::Committed.is_terminal());
    assert!(TransferState::RolledBack.is_terminal());
    assert!(TransferState::Failed.is_terminal());

    assert!(!TransferState::Init.is_terminal());
    assert!(!TransferState::SourcePending.is_terminal());
    assert!(!TransferState::SourceDone.is_terminal());
    assert!(!TransferState::TargetPending.is_terminal());
    assert!(!TransferState::Compensating.is_terminal());
}

#[test]
fn test_needs_processing() {
    assert!(!TransferState::Committed.needs_processing());
    assert!(!TransferState::RolledBack.needs_processing());
    assert!(!TransferState::Failed.needs_processing());

    assert!(TransferState::Init.needs_processing());
    assert!(TransferState::SourcePending.needs_processing());
    assert!(TransferState::SourceDone.needs_processing());
    assert!(TransferState::TargetPending.needs_processing());
    assert!(TransferState::Compensating.needs_processing());
}

#[test]
fn test_state_to_string_roundtrip() {
    let states = vec![
        TransferState::Init,
        TransferState::SourcePending,
        TransferState::SourceDone,
        TransferState::TargetPending,
        TransferState::Compensating,
        TransferState::Committed,
        TransferState::RolledBack,
        TransferState::Failed,
    ];

    for state in states {
        let s = state.as_str();
        let parsed = TransferState::from_str(s).unwrap();
        assert_eq!(state, parsed);
    }
}

#[test]
fn test_invalid_state_string() {
    assert!(TransferState::from_str("invalid").is_none());
    assert!(TransferState::from_str("").is_none());
    assert!(TransferState::from_str("COMMITTED").is_none());
}

#[test]
fn test_happy_path_immediate_success() {
    let mut state = TransferState::Init;

    state = transition(state, TransferEvent::SourceOk);
    assert_eq!(state, TransferState::SourceDone);

    state = transition(state, TransferEvent::TargetOk);
    assert_eq!(state, TransferState::Committed);
}

#[test]
fn test_happy_path_with_pending() {
    let mut state = TransferState::Init;

    state = transition(state, TransferEvent::SourceCall);
    assert_eq!(state, TransferState::SourcePending);

    state = transition(state, TransferEvent::SourceOk);
    assert_eq!(state, TransferState::SourceDone);

    state = transition(state, TransferEvent::TargetCall);
    assert_eq!(state, TransferState::TargetPending);

    state = transition(state, TransferEvent::TargetOk);
    assert_eq!(state, TransferState::Committed);
}

#[test]
fn test_source_failure_from_init() {
    let state = transition(TransferState::Init, TransferEvent::SourceFail);
    assert_eq!(state, TransferState::Failed);
}

#[test]
fn test_source_failure_from_pending() {
    let state = transition(TransferState::SourcePending, TransferEvent::SourceFail);
    assert_eq!(state, TransferState::Failed);
}

#[test]
fn test_target_failure_triggers_compensation() {
    let state = transition(TransferState::SourceDone, TransferEvent::TargetFail);
    assert_eq!(state, TransferState::Compensating);
}

#[test]
fn test_target_failure_from_pending() {
    let state = transition(TransferState::TargetPending, TransferEvent::TargetFail);
    assert_eq!(state, TransferState::Compensating);
}

#[test]
fn test_rollback_success() {
    let state = transition(TransferState::Compensating, TransferEvent::RollbackOk);
    assert_eq!(state, TransferState::RolledBack);
}

#[test]
fn test_rollback_failure_stays_compensating() {
    let state = transition(TransferState::Compensating, TransferEvent::RollbackFail);
    assert_eq!(state, TransferState::Compensating);
}

#[test]
fn test_terminal_state_is_stable() {
    let state = transition(TransferState::Committed, TransferEvent::SourceFail);
    assert_eq!(state, TransferState::Committed);

    let state = transition(TransferState::RolledBack, TransferEvent::TargetOk);
    assert_eq!(state, TransferState::RolledBack);

    let state = transition(TransferState::Failed, TransferEvent::RollbackOk);
    assert_eq!(state, TransferState::Failed);
}

#[test]
fn test_invalid_transition_stays_in_current() {
    let state = transition(TransferState::Init, TransferEvent::TargetCall);
    assert_eq!(state, TransferState::Init);

    let state = transition(TransferState::Init, TransferEvent::RollbackOk);
    assert_eq!(state, TransferState::Init);
}

#[test]
fn test_service_id_serialization() {
    assert_eq!(ServiceId::Funding.as_str(), "funding");
    assert_eq!(ServiceId::Trading.as_str(), "trading");

    assert_eq!(ServiceId::from_str("funding"), Some(ServiceId::Funding));
    assert_eq!(ServiceId::from_str("trading"), Some(ServiceId::Trading));
    assert_eq!(ServiceId::from_str("invalid"), None);
}

#[test]
fn test_op_result_clone() {
    let success = OpResult::Success;
    let cloned = success.clone();
    assert!(matches!(cloned, OpResult::Success));

    let failed = OpResult::Failed("error".to_string());
    let cloned = failed.clone();
    assert!(matches!(cloned, OpResult::Failed(e) if e == "error"));

    let pending = OpResult::Pending;
    let cloned = pending.clone();
    assert!(matches!(cloned, OpResult::Pending));
}

#[test]
fn test_worker_config_defaults() {
    let config = WorkerConfig::default();

    assert_eq!(config.scan_interval_ms, 5000);
    assert_eq!(config.process_timeout_ms, 2000);
    assert_eq!(config.stale_after_ms, 30000);
    assert_eq!(config.alert_threshold, 10);
}

#[test]
fn adapters_accept_everything_and_queries_stay_pending() {
    let funding = FundingAdapter::new();
    assert_eq!(funding.withdraw(1, 7, 2, 100), OpResult::Success);
    assert_eq!(funding.deposit(1, 7, 2, 100), OpResult::Success);
    assert_eq!(funding.commit(1), OpResult::Success);
    assert_eq!(funding.rollback(1), OpResult::Success);
    assert_eq!(funding.query(1), OpResult::Pending);
    assert_eq!(funding.name(), "funding");

    let trading = TradingAdapter::default();
    assert_eq!(trading.withdraw(2, 7, 2, 100), OpResult::Success);
    assert_eq!(trading.query(2), OpResult::Pending);
    assert_eq!(trading.name(), "trading");
}

#[test]
fn terminal_states_ignore_every_event() {
    let events = [
        TransferEvent::SourceCall,
        TransferEvent::SourceOk,
        TransferEvent::SourceFail,
        TransferEvent::TargetCall,
        TransferEvent::TargetOk,
        TransferEvent::TargetFail,
        TransferEvent::RollbackOk,
        TransferEvent::RollbackFail,
    ];
    for s in [TransferState::Committed, TransferState::RolledBack, TransferState::Failed] {
        for e in events {
            assert_eq!(transition(s, e), s);
        }
    }
}

fn run_withdraw_then_commit(service: &dyn ServiceAdapter, req_id: u128) -> (OpResult, OpResult, OpResult, String) {
    (
        service.withdraw(req_id, 4001, 1, 1000),
        service.commit(req_id),
        service.query(req_id),
        service.name().to_string(),
    )
}

#[test]
fn services_answer_through_the_adapter_trait() {
    let (w, c, q, n) = run_withdraw_then_commit(&FundingAdapter::new(), 7);
    assert_eq!((w, c, q, n.as_str()), (OpResult::Success, OpResult::Success, OpResult::Pending, "funding"));
    let t = TradingAdapter::default();
    let (w, c, q, n) = run_withdraw_then_commit(&t, 7);
    assert_eq!((w, c, q, n.as_str()), (OpResult::Success, OpResult::Success, OpResult::Pending, "trading"));
    assert_eq!(ServiceAdapter::deposit(&t, 7, 1, 1, 5), OpResult::Success);
    assert_eq!(ServiceAdapter::rollback(&t, 7), OpResult::Success);
}

#[test]
fn each_step_calls_its_service_with_the_record_arguments() {
    let req = TransferRequest { from: ServiceId::Funding, to: ServiceId::Trading, user_id: 7, asset_id: 3, amount: 250 };
    let mut rec = new_record(&req, 42, 1_000);
    let withdraw = ServiceCall::Withdraw { service: ServiceId::Funding, req_id: 42, user_id: 7, asset_id: 3, amount: 250 };
    let deposit = ServiceCall::Deposit { service: ServiceId::Trading, req_id: 42, user_id: 7, asset_id: 3, amount: 250 };
    assert_eq!(step_call(&rec), Some(withdraw));
    rec.state = TransferState::SourcePending;
    assert_eq!(step_call(&rec), Some(withdraw));
    rec.state = TransferState::SourceDone;
    assert_eq!(step_call(&rec), Some(deposit));
    rec.state = TransferState::TargetPending;
    assert_eq!(step_call(&rec), Some(deposit));
    rec.state = TransferState::Compensating;
    assert_eq!(step_call(&rec), Some(ServiceCall::Rollback { service: ServiceId::Funding, req_id: 42 }));
    for s in [TransferState::Committed, TransferState::RolledBack, TransferState::Failed] {
        rec.state = s;
        assert_eq!(step_call(&rec), None);
    }
    assert_eq!(source_commit_call(&rec), ServiceCall::Commit { service: ServiceId::Funding, req_id: 42 });
}
