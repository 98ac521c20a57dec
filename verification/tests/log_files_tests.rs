use exchange_core::log_files::{
    engine_snapshot_seq, find_latest_engine_snapshot,
    find_latest_snapshot, find_latest_wal, list_snapshots, list_wals, snapshot_fields, snapshot_file_name,
    snapshots_past_retention, wal_file_name, wal_seq, wals_past_retention, LogFileName,
};

fn entry(name: &str) -> LogFileName {
    let p = std::path::Path::new(name);
    LogFileName {
        stem: p.file_stem().unwrap().to_str().unwrap().to_string(),
        extension: p.extension().map(|e| e.to_str().unwrap().to_string()),
    }
}

#[test]
fn segment_names_carry_their_sequence_number() {
    assert_eq!(wal_seq("ledger_42", Some("wal")), Some(42));
    assert_eq!(wal_seq("ledger_42_abc", Some("wal")), Some(42));
    assert_eq!(wal_seq("ledger_+7", Some("wal")), Some(7));
    assert_eq!(wal_seq("ledger_42", Some("snap")), None);
    assert_eq!(wal_seq("ledger_42", None), None);
    assert_eq!(wal_seq("ledger_", Some("wal")), None);
    assert_eq!(wal_seq("ledger_x1", Some("wal")), None);
    assert_eq!(wal_seq("ledger_18446744073709551616", Some("wal")), None);
    assert_eq!(wal_seq("legder_42", Some("wal")), None);
    assert_eq!(wal_file_name(17), "ledger_17.wal");
}

#[test]
fn snapshot_names_carry_number_and_checksum() {
    assert_eq!(snapshot_fields("snapshot_9_abcdef", Some("snap")), Some((9, "abcdef".to_string())));
    assert_eq!(snapshot_fields("snapshot_9_", Some("snap")), Some((9, String::new())));
    assert_eq!(snapshot_fields("snapshot_9", Some("snap")), None);
    assert_eq!(snapshot_fields("snapshot_9_ab_cd", Some("snap")), None);
    assert_eq!(snapshot_fields("snapshot_9_abc", Some("tmp")), None);
    assert_eq!(snapshot_file_name(9, "abc"), "snapshot_9_abc.snap");
    let e = entry(&snapshot_file_name(123, "d41d8cd98f00b204e9800998ecf8427e"));
    assert_eq!(
        snapshot_fields(&e.stem, e.extension.as_deref()),
        Some((123, "d41d8cd98f00b204e9800998ecf8427e".to_string()))
    );
}

#[test]
fn segments_are_listed_in_order() {
    let entries = vec![
        entry("ledger_30.wal"),
        entry("notes.txt"),
        entry("ledger_10.wal"),
        entry("ledger_20_md5.wal"),
        entry("ledger_10.wal.bak"),
        entry("snapshot_5_x.snap"),
        entry("ledger_40.wal"),
        entry("ledger_50.wal"),
    ];
    let wals = list_wals(&entries);
    assert_eq!(wals, vec![(10, 2), (20, 3), (30, 0), (40, 6), (50, 7)]);
    assert_eq!(find_latest_wal(&entries), Some(7));
    assert_eq!(wals_past_retention(&wals), vec![(10, 2), (20, 3)]);
    assert_eq!(wals_past_retention(&wals[..3].to_vec()), vec![]);
    assert_eq!(find_latest_wal(&vec![entry("a.txt")]), None);
}

#[test]
fn equal_numbers_keep_listing_order() {
    let entries = vec![entry("ledger_5.wal"), entry("ledger_5_a.wal"), entry("ledger_1.wal")];
    assert_eq!(list_wals(&entries), vec![(1, 2), (5, 0), (5, 1)]);
    assert_eq!(find_latest_wal(&entries), Some(1));
}

#[test]
fn the_latest_snapshot_is_chosen() {
    let entries = vec![
        entry("snapshot_3_aaa.snap"),
        entry("snapshot_9_bbb.snap"),
        entry("snapshot_9_ccc.snap"),
        entry("snapshot_12.tmp"),
        entry("snapshot_7_ddd.snap"),
        entry("snapshot_1_eee.snap"),
    ];
    assert_eq!(find_latest_snapshot(&entries), Some((1, 9, "bbb".to_string())));
    let snaps = list_snapshots(&entries);
    assert_eq!(snaps, vec![(9, 1), (9, 2), (7, 4), (3, 0), (1, 5)]);
    assert_eq!(snapshots_past_retention(&snaps), vec![(3, 0), (1, 5)]);
    // a snapshot numbered zero is never the one recovery starts from
    assert_eq!(find_latest_snapshot(&vec![entry("snapshot_0_aaa.snap")]), None);
    assert_eq!(list_snapshots(&vec![entry("snapshot_0_aaa.snap")]), vec![(0, 0)]);
}

#[test]
fn the_latest_engine_snapshot_is_chosen_by_its_number() {
    assert_eq!(engine_snapshot_seq("engine_snapshot_12", Some("bin")), Some(12));
    assert_eq!(engine_snapshot_seq("engine_snapshot_12", Some("snap")), None);
    assert_eq!(engine_snapshot_seq("engine_snapshot_1_2", Some("bin")), None);
    assert_eq!(engine_snapshot_seq("snapshot_12", Some("bin")), None);
    assert_eq!(engine_snapshot_seq("engine_snapshot_", Some("bin")), None);

    let entries = vec![
        entry("engine_snapshot_5.bin"),
        entry("engine_snapshot_0.bin"),
        entry("orders.wal"),
        entry("engine_snapshot_9.bin"),
        entry("engine_snapshot_9x.bin"),
        entry("engine_snapshot_9.bin"),
        entry("engine_snapshot_3.bin"),
    ];
    assert_eq!(find_latest_engine_snapshot(&entries), Some((3, 9)));
    assert_eq!(find_latest_engine_snapshot(&vec![entry("engine_snapshot_0.bin"), entry("x.bin")]), None);
}
