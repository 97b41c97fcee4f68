//! What is promoted, what is replayed, and how writes are listed.

use zkv::internal::listing::{
    fill_tx_fee_and_output, history_status, inflight_rank, key_matches, load_audit, load_history, load_history_page,
    replay_status, shown_fee, shown_rows, shown_value, wipe_if_rewound, HistoryOrder, LocalWrite, Reading, ShownRow,
    TxFacts,
};
use zkv::internal::pending::{append, load, now_unix, prune, unix_or_zero, PendingEntry, STALE_AFTER_SECS};
use zkv::internal::pool::{
    pool_output_codes, pool_spends_table, pool_table, received_outputs_sql, scan_memos_sql, spent_outputs_sql,
    unenhanced_floor, OutputRow, ShieldedPool,
};
use zkv::internal::scan::{scan_memos_past_watermark, StoredOutput};
use zkv::internal::snapshot::{Command, Snapshot, Watermark, SAFE_DEPTH};
use zkv::internal::state::{
    check_snapshot, confirmations_at, effective_min_confs, held_back, load_state, load_state_with_height,
    partition_rows, promote_cutoff, take_in, wallet_tip, DecodedRow, HeldBack, WalletRows, INIT_CONFIRMATIONS,
};
use zkv::internal::sync::{
    engine_wallet_name, fresh_at, fresh_chain_tip, mined_with_memo_txids, near_tip_birthday, needs_scan,
    pinned_birthday, pinned_birthday_unchecked, read_sync, read_sync_skippable, read_sync_tolerance,
    read_tip_tolerance, reported_height, sync_label, tip_time_is_fresh, wallet_synced_to_tip, BirthdayPlan, EngineKind,
    ReadAction, ReadEvent, ReadState, TipError, TipStatus, WalletReach, TIP_MAX_AGE_SECS,
};
use zkv::internal::txid::{txid_display, txid_hex};
use zkv::network::Network;
use zkv::protocol::{HistoryEntry, HistoryResult, HistoryStatus, InitState, Op, ReplayResult, WriteStatus};

const US: &[u8] = b"our-account-uuid";
const THEM: &[u8] = b"other-account-id";
const ROOT: &str = "zkvid1root";

#[test]
fn effective_min_confs_confirms_init_at_its_own_depth() {
    assert_eq!(effective_min_confs(true, 3), INIT_CONFIRMATIONS);
    assert_eq!(effective_min_confs(true, 1), 1);
    assert_eq!(effective_min_confs(true, 0), 0);
    assert_eq!(effective_min_confs(false, 3), 3);
    assert_eq!(effective_min_confs(false, 0), 0);
}

#[test]
fn promote_cutoff_uses_reorg_margin_when_fully_synced() {
    let tip = 4_000_000;
    assert_eq!(
        promote_cutoff(tip, tip, None),
        tip - SAFE_DEPTH,
        "a caught-up wallet promotes everything older than SAFE_DEPTH",
    );
    assert_eq!(promote_cutoff(tip, tip + 50, None), tip - SAFE_DEPTH);
}

#[test]
fn promote_cutoff_clamps_to_fully_scanned_during_backfill() {
    let tip = 4_000_000;
    let fully_scanned = 3_900_000;
    assert_eq!(promote_cutoff(tip, fully_scanned, None), fully_scanned);
    assert!(promote_cutoff(tip, fully_scanned, None) < tip - SAFE_DEPTH);
}

#[test]
fn promote_cutoff_is_zero_before_any_scan() {
    assert_eq!(promote_cutoff(4_000_000, 0, None), 0);
    assert_eq!(promote_cutoff(0, 0, None), 0);
}

#[test]
fn promote_cutoff_stays_below_the_lowest_unenhanced_row() {
    let tip = 4_000_000;
    let unenhanced = 3_500_000;
    assert_eq!(
        promote_cutoff(tip, tip, Some(unenhanced)),
        unenhanced - 1,
        "the cutoff stops one block short of the un-enhanced row",
    );
    assert_eq!(
        promote_cutoff(tip, tip, Some(tip - 5)),
        tip - SAFE_DEPTH,
        "an un-enhanced row inside the reorg margin is not the binding constraint",
    );
}

#[test]
fn promote_cutoff_with_unenhanced_genesis_promotes_nothing() {
    assert_eq!(promote_cutoff(4_000_000, 4_000_000, Some(1)), 0);
    assert_eq!(promote_cutoff(4_000_000, 4_000_000, Some(0)), 0);
}

#[test]
fn a_missing_memo_holds_the_snapshot_back() {
    assert_eq!(held_back(4_000_000, 4_000_000, None), HeldBack::No);
    assert_eq!(held_back(1000, 1000, Some(898)), HeldBack::Waiting(3));
    assert_eq!(held_back(4_000_000, 4_000_000, Some(1)), HeldBack::Stuck(4_000_000 - SAFE_DEPTH));
}

fn output(mined_height: Option<i64>, enhanced: bool, account: &[u8], pool: i64) -> OutputRow {
    OutputRow { account: account.to_vec(), pool, mined_height, enhanced }
}

#[test]
fn unenhanced_floor_is_none_when_everything_is_enhanced() {
    let rows = vec![output(Some(100), true, US, 3), output(Some(200), true, US, 4)];
    assert_eq!(unenhanced_floor(&rows, US, ShieldedPool::Orchard), None);
}

#[test]
fn unenhanced_floor_finds_the_lowest_pending_row() {
    let rows = vec![
        output(Some(100), true, US, 3),
        output(Some(300), false, US, 3),
        output(Some(250), false, US, 4),
        output(Some(400), false, US, 3),
    ];
    assert_eq!(
        unenhanced_floor(&rows, US, ShieldedPool::Orchard),
        Some(250),
        "an Orchard database counts both pool codes 3 and 4",
    );
}

#[test]
fn unenhanced_floor_ignores_other_accounts_pools_and_unmined_rows() {
    let rows = vec![
        output(Some(10), false, THEM, 3),
        output(Some(20), false, US, 2),
        output(None, false, US, 3),
        output(Some(900), false, US, 3),
    ];
    assert_eq!(unenhanced_floor(&rows, US, ShieldedPool::Orchard), Some(900));
    assert_eq!(unenhanced_floor(&rows, US, ShieldedPool::Sapling), Some(20));
}

#[test]
fn unenhanced_floor_on_an_empty_wallet_is_none() {
    assert_eq!(unenhanced_floor(&vec![], US, ShieldedPool::Orchard), None);
}

#[test]
fn key_matches_is_case_insensitive_substring() {
    assert!(key_matches("UserName", Some("name")));
    assert!(key_matches("username", Some("NAME")));
    assert!(key_matches("zec_usd", Some("usd")));
    assert!(!key_matches("zec_usd", Some("eur")));
    assert!(key_matches("anything", None));
    assert!(key_matches("anything", Some("")));
    assert!(!key_matches("CAFÉ", Some("é")), "as for recorded keys, only ASCII letters have two cases");
    assert!(key_matches("CAFÉ", Some("fÉ")));
}

#[test]
fn inflight_rank_pins_in_flight_above_confirmed() {
    assert_eq!(inflight_rank(&HistoryStatus::Pending), 0);
    assert_eq!(inflight_rank(&HistoryStatus::Confirming { done: 1, required: 3 }), 1);
    assert_eq!(inflight_rank(&HistoryStatus::Confirmed { confirmations: 5 }), 2);
    assert!(
        inflight_rank(&HistoryStatus::Pending) < inflight_rank(&HistoryStatus::Confirmed { confirmations: 5 })
    );
}

#[test]
fn pending_gc_keeps_mined_tx_until_its_memo_is_decrypted() {
    let mut rows = vec![
        stored(1, Some(730), 0, "ZKV0 INIT ..."),
        stored(2, Some(730), 0, ""),
        stored(3, None, 0, "ZKV0 SET k v"),
    ];
    rows[1].memo = None;
    let seen = mined_with_memo_txids(&rows);
    assert!(seen.contains(&txid_display(&[1; 32]).unwrap()));
    assert!(!seen.contains(&txid_display(&[2; 32]).unwrap()));
    assert!(!seen.contains(&txid_display(&[3; 32]).unwrap()));
    assert_eq!(seen.len(), 1);
}

#[test]
fn read_tip_tolerance_is_confs_minus_one() {
    assert_eq!(read_tip_tolerance(3), 2);
    assert_eq!(read_tip_tolerance(1), 0);
    assert_eq!(read_tip_tolerance(0), 0);
    assert_eq!(read_tip_tolerance(10), 9);
}

fn now_secs() -> u32 {
    std::time::SystemTime::now().duration_since(std::time::UNIX_EPOCH).unwrap().as_secs() as u32
}

#[test]
fn fresh_tip_is_fresh() {
    assert!(tip_time_is_fresh(now_secs().saturating_sub(10)));
}

#[test]
fn stale_tip_is_not_fresh() {
    let stale = now_secs().saturating_sub(TIP_MAX_AGE_SECS as u32 + 60);
    assert!(!tip_time_is_fresh(stale));
}

#[test]
fn future_tip_is_treated_as_fresh() {
    assert!(tip_time_is_fresh(now_secs().saturating_add(120)));
}

#[test]
fn a_tip_is_relied_on_while_it_is_young() {
    assert!(fresh_at(Some(1300), 1000) && !fresh_at(Some(1301), 1000) && !fresh_at(None, 1000));
    let tip = || Ok(TipStatus { height: 700, time: 1000 });
    let down = || Err("unreachable".to_owned());
    assert_eq!(fresh_chain_tip(Network::Main, tip(), Some(1300)), Ok(700));
    let e = fresh_chain_tip(Network::Main, tip(), Some(1301)).unwrap_err();
    assert_eq!(e, TipError::StaleTip);
    assert!(e.message().contains("latest block is over 300s old"));
    assert_eq!(fresh_chain_tip(Network::Main, down(), Some(0)), Err(TipError::Other("unreachable".to_owned())));
    assert_eq!(fresh_chain_tip(Network::Regtest, tip(), None), Ok(700));
    let plan = |height: u32| Ok(BirthdayPlan { height, anchor: 700 });
    assert_eq!(near_tip_birthday(Network::Main, tip(), Some(1300)), plan(690));
    assert_eq!(pinned_birthday(Network::Main, 5, tip(), Some(1300)), plan(5));
    assert_eq!(pinned_birthday(Network::Main, 5, tip(), Some(1301)), Err(TipError::StaleTip));
    assert_eq!(pinned_birthday_unchecked(5, tip()), plan(5));
    assert!(pinned_birthday_unchecked(5, down()).is_err());
    let low = Ok(TipStatus { height: 3, time: 1000 });
    assert_eq!(near_tip_birthday(Network::Main, low, Some(1300)).unwrap().height, 0);
    assert_eq!(reported_height(5), Ok(5));
    assert!(reported_height(u32::MAX as u64 + 1).is_err());
    assert!(now_unix().abs_diff(now_secs() as u64) <= 2);
    assert_eq!(unix_or_zero(None), 0);
}

#[test]
fn a_scan_is_skipped_only_near_the_tip() {
    let reach = WalletReach { importing: false, tip: Some(98), gaps: false };
    assert_eq!(read_sync_skippable(&reach, 100, 2), Some(98));
    assert_eq!(read_sync_skippable(&reach, 101, 2), None);
    assert_eq!(read_sync_skippable(&WalletReach { gaps: true, ..reach.clone() }, 98, 2), None);
    assert!(needs_scan(&WalletReach { importing: true, ..reach.clone() }) && !needs_scan(&reach));
    assert_eq!(read_sync_tolerance(0), None);
    assert_eq!(read_sync_tolerance(3), Some(2));
    assert!(wallet_synced_to_tip(Some(99), false, 100));
    assert!(!wallet_synced_to_tip(Some(98), false, 100) && !wallet_synced_to_tip(Some(100), true, 100));
    assert!(!wallet_synced_to_tip(None, false, 0));
    assert_eq!(engine_wallet_name(EngineKind::Own, "prices"), "default");
    assert_eq!(engine_wallet_name(EngineKind::Fleet, "prices"), "prices");
    assert_eq!(sync_label(5, Some(9)), "Syncing... (block 5 of 9)");
    assert_eq!(sync_label(0, Some(9)), "Syncing...");
}

fn command(op: Op, key: &str, value: Option<&str>, seq: u64) -> Command {
    Command {
        op,
        key: key.to_owned(),
        target: None,
        value: value.map(str::to_owned),
        seq,
        sig_hex: "aa".to_owned(),
        signer: ROOT.to_owned(),
        comment: None,
    }
}

fn decoded(n: u8, height: Option<i64>, c: Option<Command>, ours: bool) -> DecodedRow {
    DecodedRow {
        text: format!("memo {n}"),
        parsed_op: c.as_ref().map(|c| c.op),
        command: c,
        mined_height: height,
        block_time: Some(1_700_000_000),
        from_uuid: if ours { Some(US.to_vec()) } else { None },
        txid: vec![n; 32],
        output_index: 0,
    }
}

fn chain() -> Vec<DecodedRow> {
    vec![
        decoded(1, Some(100), Some(command(Op::Init, "zkv1addr", None, 0)), true),
        decoded(2, Some(101), Some(command(Op::Put, "deep", Some("1"), 0)), true),
        decoded(3, Some(299), Some(command(Op::Put, "shallow", Some("2"), 0)), true),
        decoded(4, Some(300), Some(command(Op::Put, "foreign", Some("3"), 0)), false),
        decoded(5, None, Some(command(Op::Put, "mempool", Some("4"), 0)), true),
    ]
}

#[test]
fn rows_are_promoted_replayed_or_left_out() {
    let (deep, tail) = partition_rows(&chain(), US, 300, 3, 200);
    assert_eq!(deep.len(), 2);
    let statuses: Vec<WriteStatus> = tail.iter().map(|t| t.status).collect();
    assert_eq!(
        statuses,
        vec![
            WriteStatus::Confirming { done: 2, required: 3 },
            WriteStatus::Confirming { done: 0, required: 3 },
        ],
        "a foreign write that is too shallow is left out"
    );
    assert_eq!(tail[0].txid, txid_display(&[3; 32]).unwrap());
    let (_, at_one) = partition_rows(&chain(), US, 300, 1, 200);
    assert_eq!(at_one.len(), 3);
    assert_eq!(confirmations_at(Some(300), 300), 1);
    assert_eq!(confirmations_at(Some(301), 300), 1);
    assert_eq!(confirmations_at(None, 300), 0);
}

#[test]
fn a_load_promotes_and_hands_out_the_rest() {
    let mut s = Snapshot::new();
    let r = take_in(&mut s, &chain(), US, 300, 300, None, 3, ROOT, 64).unwrap();
    assert_eq!(r.height, 300);
    assert_eq!(s.watermark.height, 101);
    assert_eq!(r.seed.state.get("deep").and_then(|k| k.confirmed.clone()).as_deref(), Some("1"));
    assert_eq!(r.tail.len(), 2);
    // A chain that was rewound below the mark wipes the snapshot.
    assert!(!check_snapshot(&mut s, 101));
    assert!(check_snapshot(&mut s, 100));
    assert_eq!(s.watermark.height, 0);
    assert!(!wipe_if_rewound(&mut s, 0));
    let r = take_in(&mut s, &chain(), US, 300, 300, Some(101), 3, ROOT, 64).unwrap();
    assert_eq!(r.seed.state.len(), 0, "held back below the missing memo");
    assert_eq!(r.tail.len(), 3);
    assert_eq!(wallet_tip(None), 0);
    assert_eq!(wallet_tip(Some(9)), 9);
}

#[test]
fn a_row_is_listed_with_its_depth() {
    let rows = chain();
    assert_eq!(history_status(&rows[1], US, 300, 3), Some(HistoryStatus::Confirmed { confirmations: 200 }));
    assert_eq!(history_status(&rows[2], US, 300, 3), Some(HistoryStatus::Confirming { done: 2, required: 3 }));
    assert_eq!(history_status(&rows[3], US, 300, 3), None);
    assert_eq!(history_status(&rows[4], US, 300, 3), Some(HistoryStatus::Pending));
    assert_eq!(
        replay_status(HistoryStatus::Pending, 3),
        WriteStatus::Confirming { done: 0, required: 3 }
    );
    let shown = shown_rows(&rows, US, 300, 3);
    assert_eq!(shown.len(), 4, "the shallow one from elsewhere is left out");
    assert_eq!(shown[0].write_status, WriteStatus::Confirmed);
    assert_eq!(shown[2].write_status, WriteStatus::Confirming { done: 2, required: 3 });
    assert_eq!((shown[3].height, shown[3].status), (None, HistoryStatus::Pending));
    let audit = load_audit(&rows, 300, 3);
    assert_eq!(audit.len(), 5);
    assert_eq!(audit[0].status, WriteStatus::Confirmed);
    assert_eq!(audit[4].mined_height, None);
}

fn pending(n: u8, at: u64) -> PendingEntry {
    PendingEntry {
        txid: format!("tx{n}"),
        op: "SET".to_owned(),
        key: format!("key{n}"),
        value: None,
        memo: Some(format!("memo {n}")),
        broadcast_at_unix: at,
    }
}

#[test]
fn broadcast_writes_are_waited_for_until_seen_or_lost() {
    let now = 100_000;
    let stored = append(&vec![pending(1, now - STALE_AFTER_SECS - 1)], pending(2, now), now);
    assert_eq!(stored, vec![pending(2, now)], "a lost one is dropped on the way");
    assert_eq!(load(&stored, now + STALE_AFTER_SECS), stored);
    assert!(load(&stored, now + STALE_AFTER_SECS + 1).is_empty());
    assert_eq!(prune(&stored, &vec!["tx2".to_owned()], now), Some(vec![]));
    assert_eq!(prune(&stored, &vec!["tx9".to_owned()], now), Some(stored.clone()));
    assert_eq!(prune(&vec![], &vec!["tx9".to_owned()], now), None, "nothing to write");
}

fn listed(n: u8, key: &str, status: HistoryStatus) -> HistoryEntry {
    HistoryEntry {
        op: Op::Put,
        key: key.to_owned(),
        value: Some("v".to_owned()),
        height: Some(300),
        timestamp: None,
        txid: txid_display(&[n; 32]).unwrap(),
        output_index: 0,
        signature: None,
        seq: None,
        signer: None,
        verified: None,
        status,
        memo: None,
        fee: None,
        output_value: None,
    }
}

#[test]
fn writes_in_flight_lead_the_history() {
    let mut s = Snapshot::new();
    take_in(&mut s, &chain(), US, 300, 300, None, 3, ROOT, 64).unwrap();
    let live = vec![listed(3, "shallow", HistoryStatus::Confirming { done: 2, required: 3 })];
    let locals = vec![LocalWrite { entry: pending(7, 0), parsed: Some(listed(7, "key7", HistoryStatus::Pending)) }];
    let page = |limit: Option<u32>, offset: u32, locate: Option<&str>| {
        load_history_page(
            &s,
            &live,
            &locals,
            300,
            ROOT,
            "zkv1addr",
            3,
            None,
            None,
            HistoryOrder::Desc,
            limit,
            offset,
            locate,
        )
    };
    let all = page(None, 0, None);
    let keys: Vec<&str> = all.entries.iter().map(|e| e.key.as_str()).collect();
    assert_eq!(keys, vec!["key7", "shallow", "deep", "zkv1addr"]);
    assert_eq!(all.total, 4);
    let second = page(Some(2), 2, None);
    assert_eq!(second.entries.len(), 2);
    assert_eq!(second.entries[0].key, "deep");
    // A page is found by a transaction on it.
    let found = page(Some(2), 0, Some(&txid_display(&[2; 32]).unwrap()));
    assert_eq!(found.offset, 2);
    assert_eq!(found.entries[0].key, "deep");
    assert_eq!(page(Some(2), 0, Some("nonsense")).offset, 0);
}

#[test]
fn fees_are_shown_to_the_one_who_paid() {
    assert_eq!(shown_fee(Some(10), true), Some(10));
    assert_eq!(shown_fee(Some(10), false), None);
    assert_eq!(shown_fee(None, true), None);
    assert_eq!(shown_value(Some(5)), Some(5));
    assert_eq!(shown_value(Some(-5)), None);
    let mut entries = vec![listed(1, "k", HistoryStatus::Pending)];
    fill_tx_fee_and_output(&mut entries, &vec![TxFacts { fee: Some(10), spent: true, value: Some(0) }]);
    assert_eq!((entries[0].fee, entries[0].output_value), (Some(10), shown_value(Some(0))));
}

#[test]
fn queries_name_the_tables_of_a_pool() {
    assert_eq!(pool_output_codes(ShieldedPool::Sapling), vec![2]);
    assert_eq!(pool_output_codes(ShieldedPool::Orchard), vec![3, 4]);
    assert_eq!(pool_table(2), ("sapling_received_notes", "output_index"));
    assert_eq!(pool_table(3), ("orchard_received_notes", "action_index"));
    assert_eq!(pool_table(4).0, "ironwood_received_notes");
    assert_eq!(pool_spends_table(2), "sapling_received_note_spends");
    assert!(received_outputs_sql(ShieldedPool::Orchard).contains("UNION ALL"));
    assert!(!received_outputs_sql(ShieldedPool::Sapling).contains("UNION ALL"));
    assert!(spent_outputs_sql(ShieldedPool::Sapling).contains("sapling_received_note_spends"));
    assert!(scan_memos_sql(ShieldedPool::Ironwood).contains("ironwood_received_notes"));
}

fn memo_bytes(text: &str) -> Vec<u8> {
    let mut b = vec![0u8; 512];
    b[..text.len()].copy_from_slice(text.as_bytes());
    b
}

fn stored(n: u8, height: Option<i64>, index: u32, text: &str) -> StoredOutput {
    StoredOutput {
        account: US.to_vec(),
        pool: 3,
        memo: Some(memo_bytes(text)),
        sent_memo: None,
        from_account: None,
        mined_height: height,
        expiry_height: None,
        block_time: None,
        txid: vec![n; 32],
        output_index: index,
    }
}

fn mark(height: u32, n: u8, output_index: u32) -> Watermark {
    Watermark { height, txid: vec![n; 32], output_index }
}

fn texts(rows: &Vec<StoredOutput>, tip: u32, watermark: &Watermark) -> Vec<String> {
    scan_memos_past_watermark(rows, US, tip, watermark, ShieldedPool::Orchard).into_iter().map(|m| m.text).collect()
}

#[test]
fn a_scan_runs_in_chain_order_past_the_mark() {
    let rows = vec![
        stored(9, None, 0, "mempool"),
        stored(2, Some(101), 1, "second output"),
        stored(2, Some(101), 0, "first output"),
        stored(1, Some(101), 5, "earlier transaction"),
        stored(3, Some(100), 0, "earlier block"),
    ];
    let all = vec!["earlier block", "earlier transaction", "first output", "second output", "mempool"];
    assert_eq!(texts(&rows, 200, &Watermark::default()), all);
    assert_eq!(texts(&rows, 200, &mark(101, 1, 5)), all[2..]);
    assert_eq!(texts(&rows, 200, &mark(101, 2, 0)), all[3..]);
    assert_eq!(texts(&rows, 200, &mark(101, 2, 1)), all[4..]);
    assert_eq!(texts(&rows, 200, &mark(150, 0, 0)), all[4..], "what is not mined is always looked at");
}

#[test]
fn the_scan_sees_only_what_belongs_to_the_database() {
    let other = StoredOutput { account: THEM.to_vec(), ..stored(1, Some(100), 0, "another account") };
    let sapling = StoredOutput { pool: 2, ..stored(2, Some(100), 0, "another pool") };
    let ironwood = StoredOutput { pool: 4, ..stored(3, Some(100), 0, "ironwood") };
    let expired = StoredOutput { expiry_height: Some(199), ..stored(4, None, 0, "expired") };
    let pending = StoredOutput { expiry_height: Some(200), ..stored(5, None, 0, "pending") };
    let forever = StoredOutput { expiry_height: Some(0), ..stored(6, None, 0, "forever") };
    let empty = StoredOutput { memo: None, ..stored(7, Some(100), 0, "") };
    let sent = StoredOutput {
        memo: None,
        sent_memo: Some(memo_bytes("as it was sent")),
        from_account: Some(US.to_vec()),
        ..stored(8, Some(100), 0, "")
    };
    let both = StoredOutput { sent_memo: Some(memo_bytes("a")), ..stored(9, Some(100), 0, "b") };
    let mut raw = memo_bytes("");
    raw[0] = 0xff;
    let binary = StoredOutput { memo: Some(raw), ..stored(10, Some(100), 0, "") };
    let rows = vec![other, sapling, ironwood, expired, pending, forever, empty, sent, both, binary];
    assert_eq!(
        texts(&rows, 200, &Watermark::default()),
        vec!["ironwood", "as it was sent", "b", "pending", "forever"]
    );
}

#[test]
fn a_scanned_memo_becomes_a_row() {
    let found = scan_memos_past_watermark(
        &vec![stored(1, Some(100), 3, "memo")],
        US,
        200,
        &Watermark::default(),
        ShieldedPool::Orchard,
    );
    let row = found.into_iter().next().unwrap().decoded(Some(Op::Put), None);
    assert_eq!((row.text.as_str(), row.parsed_op, row.command), ("memo", Some(Op::Put), None));
    assert_eq!((row.mined_height, row.output_index, row.txid), (Some(100), 3, vec![1; 32]));
}

/// A decoder for memos of the form `OP key value`, all signed by the root.
fn decode(text: &str) -> (Option<Op>, Option<Command>) {
    let words: Vec<&str> = text.split(' ').collect();
    let op = match words[0] {
        "INIT" => Op::Init,
        "SET" => Op::Put,
        "DEL" => Op::Del,
        _ => return (None, None),
    };
    (Some(op), Some(command(op, words[1], words.get(2).copied(), 0)))
}

fn wallet_rows(tip: u32, arrivals: Vec<OutputRow>) -> WalletRows {
    WalletRows {
        outputs: vec![
            stored(3, Some(299), 0, "SET shallow 2"),
            stored(2, Some(101), 0, "SET deep 1"),
            stored(1, Some(100), 0, "INIT zkv1addr"),
            stored(4, Some(150), 0, "hello"),
        ],
        arrivals,
        tip,
        fully_scanned: tip,
    }
}

#[test]
fn a_read_scans_decodes_and_promotes() {
    let mut s = Snapshot::new();
    let wallet = wallet_rows(301, vec![]);
    let r = load_state_with_height(&mut s, &wallet, US, ShieldedPool::Orchard, 3, ROOT, 64, decode).unwrap();
    assert_eq!(r.height, 301);
    assert_eq!(r.seed.state.get("deep").and_then(|k| k.confirmed.clone()).as_deref(), Some("1"));
    assert_eq!(s.watermark.height, 150, "a memo that is none of ours is passed over");
    let tail: Vec<&str> = r.tail.iter().map(|t| t.text.as_str()).collect();
    assert_eq!(tail, vec!["SET shallow 2"]);
    // What lies above the cutoff is in the confirmed state, not in the seed.
    assert!(!r.seed.state.contains_key("shallow"));
    let confirmed = r.confirmed.clone().unwrap();
    assert_eq!(confirmed.state.get("shallow").and_then(|k| k.confirmed.clone()).as_deref(), Some("2"));
    assert_eq!(confirmed.state.get("deep").and_then(|k| k.confirmed.clone()).as_deref(), Some("1"));
    assert_eq!(confirmed.init, InitState::Initialized);
    // Reading again scans from the mark and finds the same.
    let (confirmed, tail) = load_state(&mut s, &wallet, US, ShieldedPool::Orchard, 3, ROOT, 64, decode).unwrap();
    assert_eq!(tail.len(), 1);
    assert_eq!(confirmed, r.confirmed);
    assert_eq!(s.history.len(), 2);
}

#[test]
fn a_read_behind_the_snapshot_starts_over() {
    let mut s = Snapshot::new();
    let pool = ShieldedPool::Orchard;
    load_state_with_height(&mut s, &wallet_rows(301, vec![]), US, pool, 3, ROOT, 64, decode).unwrap();
    // The chain was rewound, and a memo has not arrived: nothing may be promoted.
    let waiting = vec![output(Some(100), false, US, 3)];
    let r = load_state_with_height(&mut s, &wallet_rows(149, waiting), US, pool, 1, ROOT, 64, decode).unwrap();
    assert_eq!(s.watermark.height, 0);
    assert_eq!((r.seed.state.len(), r.seed.init), (0, InitState::Uninitialized));
    assert_eq!(r.tail.len(), 4);
}

#[test]
fn two_reads_take_in_what_one_would_have() {
    let pool = ShieldedPool::Orchard;
    let mut twice = Snapshot::new();
    // The first read reaches the first two blocks, the second one everything.
    load_state(&mut twice, &wallet_rows(201, vec![]), US, pool, 1, ROOT, 64, decode).unwrap();
    assert_eq!(twice.watermark.height, 101);
    load_state(&mut twice, &wallet_rows(400, vec![]), US, pool, 1, ROOT, 64, decode).unwrap();
    let mut once = Snapshot::new();
    load_state(&mut once, &wallet_rows(400, vec![]), US, pool, 1, ROOT, 64, decode).unwrap();
    assert_eq!(twice, once);
    assert_eq!(once.watermark.height, 299);
}

#[test]
fn a_read_scans_unless_it_may_skip() {
    let reach = WalletReach { importing: false, tip: Some(98), gaps: false };
    let (state, action) = read_sync(ReadState::Begin(Some(2)), ReadEvent::Started);
    assert_eq!(action, ReadAction::Measure);
    let (asking, action) = read_sync(state.clone(), ReadEvent::Measured(reach.clone()));
    assert_eq!(action, ReadAction::AskTip);
    let (done, action) = read_sync(asking.clone(), ReadEvent::TipIs(100));
    assert_eq!((done.clone(), action), (ReadState::Done(98), ReadAction::PruneAndFinish(98)));
    assert_eq!(read_sync(done, ReadEvent::Started).1, ReadAction::PruneAndFinish(98));
    let (scanning, action) = read_sync(asking, ReadEvent::TipIs(101));
    assert_eq!(action, ReadAction::Scan);
    assert_eq!(read_sync(scanning, ReadEvent::Scanned(101)).1, ReadAction::PruneAndFinish(101));
    let gappy = WalletReach { gaps: true, ..reach };
    assert_eq!(read_sync(state, ReadEvent::Measured(gappy)).1, ReadAction::Scan);
    assert_eq!(read_sync(ReadState::Begin(None), ReadEvent::Started).1, ReadAction::Scan);
}

/// A wallet with every shape of output that a read tells apart.
fn fixture() -> Vec<StoredOutput> {
    let note = |txid: u8, pool: i64, index: u32, mined: Option<i64>, expiry: i64, memo: Option<&str>| StoredOutput {
        account: US.to_vec(),
        pool,
        memo: memo.map(|m| m.as_bytes().to_vec()),
        sent_memo: None,
        from_account: None,
        mined_height: mined,
        expiry_height: Some(expiry),
        block_time: mined.map(|h| h * 10),
        txid: vec![txid; 32],
        output_index: index,
    };
    vec![
        // A write of our own, and a plain receipt in the other pool.
        StoredOutput {
            sent_memo: Some(b"one".to_vec()),
            from_account: Some(US.to_vec()),
            ..note(0xA1, 3, 0, Some(100), 150, Some("one"))
        },
        note(0xB2, 4, 1, Some(200), 250, Some("two")),
        // Mined, but its memo has not arrived.
        note(0xC3, 3, 0, Some(200), 250, None),
        // Not mined, and not expired.
        note(0xD4, 3, 0, None, 500, Some("four")),
        StoredOutput { account: THEM.to_vec(), ..note(0xE5, 3, 0, Some(100), 150, Some("them")) },
        note(0xF6, 2, 0, Some(100), 150, Some("sapling")),
        note(0x17, 3, 0, Some(100), 150, None),
        // A write of our own whose memo is known from its sending alone.
        StoredOutput {
            sent_memo: Some(b"eight".to_vec()),
            from_account: Some(US.to_vec()),
            ..note(0x28, 3, 0, Some(100), 150, None)
        },
        note(0x39, 3, 0, Some(100), 150, Some("prior")),
    ]
}

#[test]
fn the_scan_sees_the_writes_the_fixture_planted() {
    let start = Watermark::default();
    let rows = scan_memos_past_watermark(&fixture(), US, 400, &start, ShieldedPool::Ironwood);
    let memos: Vec<&str> = rows.iter().map(|m| m.text.as_str()).collect();
    assert_eq!(
        memos,
        vec!["eight", "prior", "one", "two", "four"],
        "mined rows in chain order, then the unmined one"
    );
    assert_eq!(rows[0].from_uuid.as_deref(), Some(US));
    assert_eq!(rows[2].from_uuid.as_deref(), Some(US));
    assert_eq!(rows[3].from_uuid, None);
    assert!(!memos.contains(&"them"));
    assert!(!memos.contains(&"sapling"));
}

#[test]
fn the_pending_gc_set_is_what_the_read_path_can_see() {
    let mut seen = mined_with_memo_txids(&fixture());
    let mut visible: Vec<String> = Vec::new();
    for account in [US, THEM] {
        for pool in [ShieldedPool::Ironwood, ShieldedPool::Sapling] {
            for m in scan_memos_past_watermark(&fixture(), account, 400, &Watermark::default(), pool) {
                if m.mined_height.is_some() {
                    visible.push(txid_display(&m.txid).unwrap());
                }
            }
        }
    }
    seen.sort();
    visible.sort();
    assert_eq!(seen, visible);
    let mut planted: Vec<String> =
        [0xA1, 0xB2, 0xE5, 0xF6, 0x28, 0x39].iter().map(|b| txid_display(&[*b; 32]).unwrap()).collect();
    planted.sort();
    assert_eq!(seen, planted);
}

/// A reader that knows which keys are there, from the state and from the memos
/// before, and says so in `verified`.
fn read(seed: &ReplayResult, rows: &Vec<ShownRow>, i: usize) -> Option<Reading> {
    let (_, command) = decode(&rows[i].text);
    let c = command?;
    let written = |t: &ShownRow| decode(&t.text).1.is_some_and(|d| d.key == c.key);
    let known = seed.state.contains_key(&c.key) || rows[..i].iter().any(written);
    Some(Reading {
        op: c.op,
        key: c.key,
        value: c.value,
        signature: Some(c.sig_hex),
        seq: Some(c.seq),
        signer: Some(c.signer),
        verified: Some(known),
    })
}

fn history(s: &mut Snapshot, order: HistoryOrder, limit: Option<u32>, offset: u32) -> HistoryResult {
    let mut wallet = wallet_rows(301, vec![]);
    wallet.outputs.push(stored(5, Some(300), 0, "SET deep 9"));
    wallet.outputs.push(stored(6, None, 0, "SET shallow 8"));
    let locals = vec![LocalWrite { entry: PendingEntry { txid: txid_hex(&[6; 32]), ..pending(6, 0) }, parsed: None }];
    load_history(
        s,
        &wallet,
        US,
        ShieldedPool::Orchard,
        decode,
        read,
        &locals,
        ROOT,
        "zkv1addr",
        1,
        None,
        None,
        order,
        limit,
        offset,
        None,
    )
}

#[test]
fn the_history_is_read_from_the_wallet() {
    let mut s = Snapshot::new();
    load_state(&mut s, &wallet_rows(301, vec![]), US, ShieldedPool::Orchard, 1, ROOT, 64, decode).unwrap();
    let all = history(&mut s, HistoryOrder::Desc, None, 0);
    let keys: Vec<&str> = all.entries.iter().map(|e| e.key.as_str()).collect();
    assert_eq!(keys, vec!["shallow", "deep", "shallow", "deep", "zkv1addr"]);
    assert_eq!(all.entries[0].status, HistoryStatus::Pending);
    assert_eq!(all.entries[0].memo.as_deref(), Some("SET shallow 8"));
    assert_eq!(all.entries[0].verified, Some(true), "the memo before it writes the key");
    assert_eq!(all.entries[1].height, Some(300));
    assert_eq!(all.entries[1].status, HistoryStatus::Confirmed { confirmations: 2 });
    assert_eq!(all.entries[1].verified, Some(true), "the confirmed state holds the key");
    assert_eq!(all.entries[2].verified, Some(false));
    assert_eq!((all.total, all.signer.as_str()), (5, ROOT));
}

#[test]
fn every_page_is_cut_from_the_one_list() {
    let mut s = Snapshot::new();
    load_state(&mut s, &wallet_rows(301, vec![]), US, ShieldedPool::Orchard, 1, ROOT, 64, decode).unwrap();
    let newest = history(&mut s, HistoryOrder::Desc, None, 0).entries;
    let mut oldest = history(&mut s, HistoryOrder::Asc, None, 0).entries;
    for (order, all) in [(HistoryOrder::Desc, newest.clone()), (HistoryOrder::Asc, oldest.clone())] {
        for offset in 0..7usize {
            for limit in 0..7usize {
                let page = history(&mut s, order, Some(limit as u32), offset as u32);
                let n = all.len();
                assert_eq!(page.entries, all[offset.min(n)..(offset + limit).min(n)]);
                assert_eq!(page.total, n as u64);
            }
        }
    }
    oldest.reverse();
    assert_eq!(oldest, newest);
}

#[test]
fn a_history_behind_the_snapshot_starts_over() {
    let mut s = Snapshot::new();
    load_state(&mut s, &wallet_rows(301, vec![]), US, ShieldedPool::Orchard, 1, ROOT, 64, decode).unwrap();
    s.watermark.height = 400;
    assert_eq!(history(&mut s, HistoryOrder::Desc, None, 0).total, 5, "all of it is read from the wallet");
    assert_eq!(s.history.len(), 0);
}

#[test]
fn the_cutoff_makes_no_difference_to_what_is_read() {
    let pool = ShieldedPool::Orchard;
    let wallet = wallet_rows(301, vec![]);
    let free = load_state_with_height(&mut Snapshot::new(), &wallet, US, pool, 1, ROOT, 64, decode).unwrap();
    for missing in [1, 100, 101, 102, 150] {
        let held = wallet_rows(301, vec![output(Some(missing), false, US, 3)]);
        let r = load_state_with_height(&mut Snapshot::new(), &held, US, pool, 1, ROOT, 64, decode).unwrap();
        assert_eq!(r.confirmed, free.confirmed, "a memo is missing at {missing}");
    }
    assert_eq!(free.confirmed.unwrap().state.len(), 2);
}

#[test]
fn a_recent_delete_is_read_back() {
    let mut wallet = wallet_rows(301, vec![]);
    wallet.outputs.push(stored(7, Some(300), 0, "DEL shallow"));
    wallet.outputs.push(stored(8, Some(300), 0, "SET late 5"));
    let rows = |depth: u32| {
        load_state(&mut Snapshot::new(), &wallet, US, ShieldedPool::Orchard, depth, ROOT, 64, numbered).unwrap().0
    };
    let now = rows(1).unwrap();
    assert!(!now.state.contains_key("shallow"));
    assert_eq!(now.state.get("late").and_then(|k| k.confirmed.clone()).as_deref(), Some("5"));
    let deeper = rows(3).unwrap();
    assert!(deeper.state.contains_key("shallow") && !deeper.state.contains_key("late"));
}

/// The decoder, with the sequences that a `DEL` after a `SET` has.
fn numbered(text: &str) -> (Option<Op>, Option<Command>) {
    let (op, command) = decode(text);
    (op, command.map(|c| Command { seq: if c.op == Op::Del { 1 } else { 0 }, ..c }))
}

#[test]
fn a_history_that_is_out_of_order_is_noticed() {
    let mut s = Snapshot::new();
    assert!(s.is_sound());
    load_state(&mut s, &wallet_rows(400, vec![]), US, ShieldedPool::Orchard, 1, ROOT, 64, decode).unwrap();
    assert!(s.history.len() == 3 && s.is_sound());
    let mut swapped = s.copy();
    swapped.history.swap(0, 2);
    assert!(!swapped.is_sound());
    let mut twice = s.copy();
    twice.history.push(twice.history[2].clone());
    assert!(!twice.is_sound());
    s.history[1].op = "OWNERSET".to_owned();
    assert!(!s.is_sound());
}
