use exchange_core::balance::{Balance, BalanceError, UserAccount};
use exchange_core::ledger::{CommandCounter, GlobalLedger, LedgerCommand, LedgerError, MatchExecData, ShadowLedger};

fn create_test_ledger() -> GlobalLedger {
    GlobalLedger::new()
}

fn setup_user_with_balance(ledger: &mut GlobalLedger, user_id: u64, asset: u32, amount: u64) {
    ledger.apply(&LedgerCommand::Deposit { user_id, asset, amount }).unwrap();
}

#[test]
fn test_shadow_ledger_isolation() {
    let ledger = create_test_ledger();
    let mut shadow = ShadowLedger::new(&ledger);
    shadow.apply(&LedgerCommand::Deposit { user_id: 1, asset: 100, amount: 1000 }).unwrap();
    assert_eq!(shadow.get_balance(1, 100), 1000);
    assert_eq!(ledger.get_balance(1, 100), 0);
}

#[test]
fn test_batch_commit_atomicity() {
    let mut ledger = create_test_ledger();
    setup_user_with_balance(&mut ledger, 1, 100, 10000);
    setup_user_with_balance(&mut ledger, 2, 200, 5000);

    let batch = vec![
        LedgerCommand::Withdraw { user_id: 1, asset: 100, amount: 5000 },
        LedgerCommand::Withdraw { user_id: 2, asset: 200, amount: 10000 },
    ];

    let mut shadow = ShadowLedger::new(&ledger);
    let result = shadow.apply(&LedgerCommand::Batch(batch));
    assert!(result.is_err(), "Batch should fail");

    assert_eq!(ledger.get_balance(1, 100), 10000);
    assert_eq!(ledger.get_balance(2, 200), 5000);
}

#[test]
fn test_commit_batch_all_or_nothing() {
    let mut ledger = create_test_ledger();
    setup_user_with_balance(&mut ledger, 1, 100, 1000);

    let valid_batch = vec![
        LedgerCommand::Withdraw { user_id: 1, asset: 100, amount: 300 },
        LedgerCommand::Deposit { user_id: 2, asset: 200, amount: 500 },
    ];
    ledger.commit_batch(&valid_batch).unwrap();
    assert_eq!(ledger.get_balance(1, 100), 700);
    assert_eq!(ledger.get_balance(2, 200), 500);

    let invalid_batch = vec![
        LedgerCommand::Withdraw { user_id: 1, asset: 100, amount: 100 },
        LedgerCommand::Withdraw { user_id: 1, asset: 100, amount: 10000 },
    ];
    let result = ledger.commit_batch(&invalid_batch);
    assert!(result.is_err());
    assert_eq!(ledger.get_balance(1, 100), 700);
}

#[test]
fn test_match_exec_atomicity() {
    let mut ledger = create_test_ledger();
    setup_user_with_balance(&mut ledger, 1, 200, 100000);
    ledger.apply(&LedgerCommand::Lock { user_id: 1, asset: 200, amount: 50000 }).unwrap();
    setup_user_with_balance(&mut ledger, 2, 100, 10);
    ledger.apply(&LedgerCommand::Lock { user_id: 2, asset: 100, amount: 5 }).unwrap();

    let match_data = MatchExecData {
        trade_id: 1,
        buy_order_id: 100,
        sell_order_id: 200,
        buyer_user_id: 1,
        seller_user_id: 2,
        price: 10000,
        quantity: 5,
        base_asset: 100,
        quote_asset: 200,
        buyer_refund: 0,
        seller_refund: 0,
        match_seq: 1,
    };
    ledger.apply(&LedgerCommand::MatchExec(match_data)).unwrap();

    assert_eq!(ledger.get_balance(1, 100), 5);
    let buyer_quote = ledger.get_user_balances(1).unwrap();
    let buyer_quote_bal = buyer_quote.iter().find(|(a, _)| *a == 200).unwrap().1;
    assert_eq!(buyer_quote_bal.frozen, 0);
    assert_eq!(buyer_quote_bal.avail, 50000);

    assert_eq!(ledger.get_balance(2, 200), 50000);
    let seller_base = ledger.get_user_balances(2).unwrap();
    let seller_base_bal = seller_base.iter().find(|(a, _)| *a == 100).unwrap().1;
    assert_eq!(seller_base_bal.frozen, 0);
    assert_eq!(seller_base_bal.avail, 5);
}

#[test]
fn test_deposit_overflow_protection() {
    let mut ledger = create_test_ledger();
    setup_user_with_balance(&mut ledger, 1, 100, u64::MAX - 100);
    let result = ledger.apply(&LedgerCommand::Deposit { user_id: 1, asset: 100, amount: 200 });
    assert!(result.is_err(), "Should prevent overflow");
}

#[test]
fn test_withdraw_underflow_protection() {
    let mut ledger = create_test_ledger();
    setup_user_with_balance(&mut ledger, 1, 100, 1000);
    let result = ledger.apply(&LedgerCommand::Withdraw { user_id: 1, asset: 100, amount: 1001 });
    assert!(result.is_err(), "Should prevent underflow");
    assert_eq!(ledger.get_balance(1, 100), 1000, "Balance unchanged");
}

#[test]
fn test_lock_insufficient_funds() {
    let mut ledger = create_test_ledger();
    setup_user_with_balance(&mut ledger, 1, 100, 500);
    let result = ledger.apply(&LedgerCommand::Lock { user_id: 1, asset: 100, amount: 600 });
    assert!(result.is_err(), "Should fail with insufficient funds");
}

#[test]
fn test_unlock_insufficient_frozen() {
    let mut ledger = create_test_ledger();
    setup_user_with_balance(&mut ledger, 1, 100, 1000);
    ledger.apply(&LedgerCommand::Lock { user_id: 1, asset: 100, amount: 300 }).unwrap();
    let result = ledger.apply(&LedgerCommand::Unlock { user_id: 1, asset: 100, amount: 400 });
    assert!(result.is_err(), "Should fail with insufficient frozen");
}

#[test]
fn test_match_exec_overflow_detection() {
    let mut ledger = create_test_ledger();
    setup_user_with_balance(&mut ledger, 1, 200, u64::MAX);
    ledger.apply(&LedgerCommand::Lock { user_id: 1, asset: 200, amount: u64::MAX }).unwrap();
    setup_user_with_balance(&mut ledger, 2, 100, u64::MAX);
    ledger.apply(&LedgerCommand::Lock { user_id: 2, asset: 100, amount: u64::MAX }).unwrap();

    let match_data = MatchExecData {
        trade_id: 1,
        buy_order_id: 100,
        sell_order_id: 200,
        buyer_user_id: 1,
        seller_user_id: 2,
        price: u64::MAX,
        quantity: u64::MAX,
        base_asset: 100,
        quote_asset: 200,
        buyer_refund: 0,
        seller_refund: 0,
        match_seq: 1,
    };
    let result = ledger.apply(&LedgerCommand::MatchExec(match_data));
    assert!(result.is_err(), "Should detect overflow in match execution");
}

#[test]
fn test_batch_performance() {
    let mut ledger = create_test_ledger();
    for i in 1..=100 {
        setup_user_with_balance(&mut ledger, i, 100, 100000);
    }
    let mut batch = Vec::new();
    for i in 1..=100 {
        batch.push(LedgerCommand::Withdraw { user_id: i, asset: 100, amount: 100 });
    }
    let start = std::time::Instant::now();
    ledger.commit_batch(&batch).unwrap();
    let duration = start.elapsed();
    println!("Batch of 100 operations took: {:?}", duration);
    for i in 1..=100 {
        assert_eq!(ledger.get_balance(i, 100), 99900);
    }
    assert!(duration.as_millis() < 100, "Batch processing too slow: {:?}", duration);
}

#[test]
fn test_shadow_ledger_performance() {
    let mut ledger = create_test_ledger();
    for i in 1..=50 {
        setup_user_with_balance(&mut ledger, i, 100, 100000);
    }
    let start = std::time::Instant::now();
    let mut shadow = ShadowLedger::new(&ledger);
    for i in 1..=50 {
        shadow.apply(&LedgerCommand::Withdraw { user_id: i, asset: 100, amount: 1000 }).unwrap();
    }
    let duration = start.elapsed();
    println!("Shadow ledger 50 operations took: {:?}", duration);
    for i in 1..=50 {
        assert_eq!(shadow.get_balance(i, 100), 99000);
    }
    for i in 1..=50 {
        assert_eq!(ledger.get_balance(i, 100), 100000);
    }
    assert!(duration.as_millis() < 10, "Shadow ledger too slow: {:?}", duration);
}

#[test]
fn test_multiple_assets_per_user() {
    let mut ledger = create_test_ledger();
    for asset_id in 100..110 {
        setup_user_with_balance(&mut ledger, 1, asset_id, asset_id as u64 * 1000);
    }
    for asset_id in 100..110 {
        assert_eq!(ledger.get_balance(1, asset_id), asset_id as u64 * 1000);
    }
}

#[test]
fn test_complex_trade_scenario() {
    let mut ledger = create_test_ledger();
    setup_user_with_balance(&mut ledger, 1, 200, 100000);
    setup_user_with_balance(&mut ledger, 2, 100, 50);
    ledger.apply(&LedgerCommand::Lock { user_id: 1, asset: 200, amount: 60000 }).unwrap();
    ledger.apply(&LedgerCommand::Lock { user_id: 2, asset: 100, amount: 30 }).unwrap();

    let match_data = MatchExecData {
        trade_id: 1,
        buy_order_id: 100,
        sell_order_id: 200,
        buyer_user_id: 1,
        seller_user_id: 2,
        price: 2000,
        quantity: 20,
        base_asset: 100,
        quote_asset: 200,
        buyer_refund: 20000,
        seller_refund: 10,
        match_seq: 1,
    };
    ledger.apply(&LedgerCommand::MatchExec(match_data)).unwrap();

    let buyer_balances = ledger.get_user_balances(1).unwrap();
    let buyer_quote = buyer_balances.iter().find(|(a, _)| *a == 200).unwrap().1;
    let buyer_base = buyer_balances.iter().find(|(a, _)| *a == 100).unwrap().1;
    assert_eq!(buyer_quote.avail, 60000);
    assert_eq!(buyer_quote.frozen, 0);
    assert_eq!(buyer_base.avail, 20);

    let seller_balances = ledger.get_user_balances(2).unwrap();
    let seller_base = seller_balances.iter().find(|(a, _)| *a == 100).unwrap().1;
    let seller_quote = seller_balances.iter().find(|(a, _)| *a == 200).unwrap().1;
    assert_eq!(seller_base.avail, 30);
    assert_eq!(seller_base.frozen, 0);
    assert_eq!(seller_quote.avail, 40000);
}

#[test]
fn test_empty_user_account() {
    let ledger = create_test_ledger();
    let balance = ledger.get_balance(999, 100);
    assert_eq!(balance, 0);
    let balances = ledger.get_user_balances(999);
    assert!(balances.is_none());
}

#[test]
fn test_version_tracking() {
    let mut ledger = create_test_ledger();
    setup_user_with_balance(&mut ledger, 1, 100, 1000);
    let balances = ledger.get_user_balances(1).unwrap();
    let initial_version = balances.iter().find(|(a, _)| *a == 100).unwrap().1.version;
    ledger.apply(&LedgerCommand::Withdraw { user_id: 1, asset: 100, amount: 100 }).unwrap();
    let balances = ledger.get_user_balances(1).unwrap();
    let new_version = balances.iter().find(|(a, _)| *a == 100).unwrap().1.version;
    assert!(new_version > initial_version, "Version should increment on updates");
}

#[test]
fn test_shadow_ledger_delta_merge() {
    let mut ledger = create_test_ledger();
    setup_user_with_balance(&mut ledger, 1, 100, 1000);
    setup_user_with_balance(&mut ledger, 2, 100, 2000);

    let cmds = vec![
        LedgerCommand::Lock { user_id: 1, asset: 100, amount: 500 },
        LedgerCommand::Withdraw { user_id: 2, asset: 100, amount: 1000 },
        LedgerCommand::Deposit { user_id: 3, asset: 100, amount: 500 },
    ];
    ledger.commit_batch(&cmds).unwrap();

    let u1 = ledger.get_user_balances(1).unwrap();
    let b1 = u1.iter().find(|(a, _)| *a == 100).unwrap().1;
    assert_eq!(b1.avail, 500);
    assert_eq!(b1.frozen, 500);

    let u2 = ledger.get_user_balances(2).unwrap();
    let b2 = u2.iter().find(|(a, _)| *a == 100).unwrap().1;
    assert_eq!(b2.avail, 1000);
    assert_eq!(b2.frozen, 0);

    let u3 = ledger.get_user_balances(3).unwrap();
    let b3 = u3.iter().find(|(a, _)| *a == 100).unwrap().1;
    assert_eq!(b3.avail, 500);
    assert_eq!(b3.frozen, 0);

    assert_eq!(ledger.last_seq, 5);
}

#[test]
fn replay_skips_old_commands_and_refuses_gaps() {
    let mut ledger = create_test_ledger();
    ledger.replay(1, &LedgerCommand::Deposit { user_id: 1, asset: 100, amount: 10 }).unwrap();
    ledger.replay(1, &LedgerCommand::Deposit { user_id: 1, asset: 100, amount: 10 }).unwrap();
    assert_eq!(ledger.get_balance(1, 100), 10);
    assert!(ledger.replay(5, &LedgerCommand::Deposit { user_id: 1, asset: 100, amount: 10 }).is_err());
    assert_eq!(ledger.last_seq, 1);
}

#[test]
fn refused_commands_name_the_reason() {
    let mut ledger = create_test_ledger();
    setup_user_with_balance(&mut ledger, 1, 100, 5);
    let err = ledger.apply(&LedgerCommand::Withdraw { user_id: 1, asset: 100, amount: 6 }).unwrap_err();
    assert!(matches!(
        err,
        LedgerError::Balance { user_id: 1, asset: 100, error: BalanceError::InsufficientAvailable }
    ));
}

#[test]
fn balances_lock_unlock_and_spend() {
    let mut b = Balance::default();
    b.deposit(100).unwrap();
    b.frozen(40).unwrap();
    assert_eq!((b.avail, b.frozen, b.version), (60, 40, 2));
    b.unfrozen(10).unwrap();
    b.spend_frozen(30).unwrap();
    assert_eq!((b.avail, b.frozen, b.version), (70, 0, 4));
    assert_eq!(b.spend_frozen(1), Err(BalanceError::InsufficientFrozen));
    assert_eq!(b.withdraw(71), Err(BalanceError::InsufficientAvailable));
    assert_eq!(b.deposit(u64::MAX), Err(BalanceError::Overflow));
    assert_eq!((b.avail, b.frozen, b.version), (70, 0, 4));

    let mut acct = UserAccount::new(9);
    assert_eq!(acct.get_balance(3), Balance::default());
    acct.apply_op(3, exchange_core::balance::BalanceOp::Deposit(5)).unwrap();
    assert_eq!(acct.get_balance(3).avail, 5);
}

/// Applies each command to the ledger and returns the log of what was
/// applied, as recovery reads it back: sequence number and command.
fn apply_logged(ledger: &mut GlobalLedger, cmds: Vec<LedgerCommand>) -> Vec<(u64, LedgerCommand)> {
    let mut log = Vec::new();
    for cmd in cmds {
        ledger.apply(&cmd).unwrap();
        log.push((ledger.last_seq, cmd));
    }
    log
}

fn recover(log: &[(u64, LedgerCommand)]) -> Result<GlobalLedger, exchange_core::ledger::ReplayError> {
    let mut ledger = GlobalLedger::new();
    for (seq, cmd) in log {
        ledger.replay(*seq, cmd)?;
    }
    Ok(ledger)
}

#[test]
fn test_sequence_gap_detection() {
    let mut ledger = create_test_ledger();
    let mut log = apply_logged(
        &mut ledger,
        vec![
            LedgerCommand::Deposit { user_id: 1, asset: 100, amount: 1000 },
            LedgerCommand::Deposit { user_id: 1, asset: 100, amount: 500 },
        ],
    );
    // A logged command with seq=100 leaves a gap after seq=2.
    log.push((100, LedgerCommand::Deposit { user_id: 2, asset: 200, amount: 999 }));
    let result = recover(&log);
    assert!(result.is_err(), "Expected sequence gap detection to fail recovery");
}

#[test]
fn test_balance_invariants_after_corruption_recovery() {
    let mut ledger = create_test_ledger();
    let log = apply_logged(
        &mut ledger,
        vec![
            LedgerCommand::Deposit { user_id: 1, asset: 100, amount: 10000 },
            LedgerCommand::Lock { user_id: 1, asset: 100, amount: 3000 },
        ],
    );
    let ledger = recover(&log).unwrap();
    let balances = ledger.get_user_balances(1).unwrap();
    let balance = balances.iter().find(|(a, _)| *a == 100).unwrap().1;
    assert_eq!(balance.avail, 7000, "Available balance incorrect");
    assert_eq!(balance.frozen, 3000, "Frozen balance incorrect");
    assert_eq!(balance.avail + balance.frozen, 10000, "Total balance not preserved");
}

#[test]
fn test_no_double_spend_after_crash() {
    let mut ledger = create_test_ledger();
    let log = apply_logged(
        &mut ledger,
        vec![
            LedgerCommand::Deposit { user_id: 1, asset: 100, amount: 5000 },
            LedgerCommand::Lock { user_id: 1, asset: 100, amount: 5000 },
            LedgerCommand::TradeSettle {
                user_id: 1,
                spend_asset: 100,
                spend_amount: 5000,
                gain_asset: 200,
                gain_amount: 2500,
            },
        ],
    );
    drop(ledger);
    let mut ledger = recover(&log).unwrap();
    let result = ledger.apply(&LedgerCommand::Withdraw { user_id: 1, asset: 100, amount: 1 });
    assert!(result.is_err(), "Should not allow withdrawal of already spent funds");
    assert_eq!(ledger.get_balance(1, 200), 2500, "Gained asset amount incorrect");
}

#[test]
fn test_wal_recovery_preserves_order() {
    let mut ledger = create_test_ledger();
    let cmds: Vec<LedgerCommand> =
        (1..=10u64).map(|i| LedgerCommand::Deposit { user_id: i, asset: 100, amount: i * 1000 }).collect();
    let log = apply_logged(&mut ledger, cmds);
    let ledger = recover(&log).unwrap();
    for i in 1..=10u64 {
        assert_eq!(ledger.get_balance(i, 100), i * 1000, "Balance for user {} incorrect", i);
    }
}

#[test]
fn test_wal_write_throughput() {
    let mut ledger = create_test_ledger();
    let num_ops: u64 = 10000;
    let start = std::time::Instant::now();
    for _ in 0..num_ops {
        ledger.apply(&LedgerCommand::Deposit { user_id: 1, asset: 100, amount: 1 }).unwrap();
    }
    let duration = start.elapsed();
    let ops_per_sec = num_ops as f64 / duration.as_secs_f64();
    println!("throughput: {:.0} ops/sec ({} ops in {:?})", ops_per_sec, num_ops, duration);
    assert_eq!(ledger.get_balance(1, 100), num_ops);
    assert!(ops_per_sec > 10000.0, "throughput too low: {:.0} ops/sec", ops_per_sec);
}

#[test]
fn test_listener_notification() {
    let mut ledger = create_test_ledger();
    let mut listener = CommandCounter::new();

    ledger
        .apply_with_listener(&LedgerCommand::Deposit { user_id: 1, asset: 100, amount: 1000 }, &mut listener)
        .unwrap();
    ledger
        .apply_with_listener(&LedgerCommand::Lock { user_id: 1, asset: 100, amount: 500 }, &mut listener)
        .unwrap();

    assert_eq!(listener.count(), 2, "Listener should receive all commands");
    assert_eq!(ledger.last_seq, 2);
}

#[test]
fn a_refused_command_reaches_no_listener() {
    let mut ledger = create_test_ledger();
    let mut listener = CommandCounter::new();
    ledger
        .apply_with_listener(&LedgerCommand::Deposit { user_id: 1, asset: 100, amount: 100 }, &mut listener)
        .unwrap();
    let r = ledger.apply_with_listener(&LedgerCommand::Withdraw { user_id: 1, asset: 100, amount: 500 }, &mut listener);
    assert!(r.is_err());
    assert_eq!(listener.count(), 1);
    assert_eq!(ledger.last_seq, 1);
    assert_eq!(ledger.get_balance(1, 100), 100);
}

#[test]
fn a_committed_batch_is_handed_to_the_listener_in_order() {
    let mut ledger = create_test_ledger();
    let mut listener = CommandCounter::new();
    let cmds = vec![
        LedgerCommand::Deposit { user_id: 1, asset: 100, amount: 100 },
        LedgerCommand::Lock { user_id: 1, asset: 100, amount: 40 },
    ];
    ledger.commit_batch_with_listener(&cmds, &mut listener).unwrap();
    assert_eq!(listener.count(), 2);

    let refused = vec![LedgerCommand::Withdraw { user_id: 1, asset: 100, amount: 1000 }];
    assert!(ledger.commit_batch_with_listener(&refused, &mut listener).is_err());
    assert_eq!(listener.count(), 2);
    assert_eq!(ledger.last_seq, 2);
}

fn recovery_run() -> Vec<LedgerCommand> {
    vec![
        LedgerCommand::Deposit { user_id: 1, asset: 100, amount: 1000 },
        LedgerCommand::Lock { user_id: 1, asset: 100, amount: 400 },
        LedgerCommand::Withdraw { user_id: 1, asset: 100, amount: 100 },
        LedgerCommand::Deposit { user_id: 2, asset: 200, amount: 50 },
    ]
}

#[test]
fn recovery_from_log_and_snapshot_gives_back_the_state() {
    let mut live = create_test_ledger();
    for cmd in recovery_run() {
        live.apply(&cmd).unwrap();
    }
    let log: Vec<(u64, LedgerCommand)> = recovery_run().into_iter().enumerate().map(|(i, c)| (i as u64 + 1, c)).collect();

    // From the log alone.
    let mut from_log = create_test_ledger();
    from_log.replay_log(&log).unwrap();
    assert_eq!(from_log.last_seq, live.last_seq);
    assert_eq!(from_log.get_balance_full(1, 100), live.get_balance_full(1, 100));
    assert_eq!(from_log.get_balance_full(2, 200), live.get_balance_full(2, 200));

    // From a snapshot taken after two commands, plus the whole log.
    let mut from_snapshot = create_test_ledger();
    for cmd in recovery_run().into_iter().take(2) {
        from_snapshot.apply(&cmd).unwrap();
    }
    from_snapshot.replay_log(&log).unwrap();
    assert_eq!(from_snapshot.last_seq, 4);
    assert_eq!(from_snapshot.get_balance_full(1, 100), live.get_balance_full(1, 100));
    assert_eq!(from_snapshot.get_balance(1, 100), 500);
    assert_eq!(from_snapshot.get_balance(2, 200), 50);

    // A gap in the log is refused.
    let gapped = vec![(1u64, LedgerCommand::Deposit { user_id: 1, asset: 100, amount: 1 }), (3u64, LedgerCommand::Deposit { user_id: 1, asset: 100, amount: 1 })];
    let mut g = create_test_ledger();
    assert!(g.replay_log(&gapped).is_err());
    assert_eq!(g.last_seq, 1);
}

#[test]
fn a_refused_command_is_not_logged() {
    let mut ledger = create_test_ledger();
    let mut log: Vec<(u64, LedgerCommand)> = Vec::new();
    ledger.apply_logged(LedgerCommand::Deposit { user_id: 1, asset: 100, amount: 100 }, &mut log).unwrap();
    let r = ledger.apply_logged(LedgerCommand::Withdraw { user_id: 1, asset: 100, amount: 101 }, &mut log);
    assert!(r.is_err());
    assert_eq!(log.len(), 1);
    assert_eq!(log[0].0, 1);
    ledger.apply_logged(LedgerCommand::Withdraw { user_id: 1, asset: 100, amount: 40 }, &mut log).unwrap();
    assert_eq!(log.len(), 2);
    assert_eq!(log[1].0, 2);
    assert_eq!(ledger.last_seq, 2);

    let mut recovered = create_test_ledger();
    recovered.replay_log(&log).unwrap();
    assert_eq!(recovered.get_balance(1, 100), 60);
    assert_eq!(recovered.last_seq, 2);
}
