//! What the browser is told of a database.

use zkv::config::Role;
use zkv::db::ZkvError;
use zkv::gui::engine::{
    count_keys, funding_resp, history_resp, init_parts, key_rows, last_update, rejections_resp, role_str, roles_resp,
};
use zkv::gui::session::{
    server_endpoint, servers, CurrentDb, DbConfig, DbFacts, DetailFacts, Engine, OpenedDb, ServerInfo, StatusFacts,
    MAX_SYNC_WORKERS,
};
use zkv::internal::funding::{FundingDirection, FundingResult, FundingTx};
use zkv::internal::pool::ShieldedPool;
use zkv::internal::snapshot::Snapshot;
use zkv::network::Network;
use zkv::ordmap::OrdMap;
use zkv::protocol::{
    AuditResult, AuditRow, AuthRegistry, DropReason, GrantedRole, HistoryEntry, HistoryResult, HistoryStatus, InitState,
    KeyState, Op, PendingOp, RevokedRole, RowOutcome, VersionState, BlockSet,
};

fn entry(key: &str, status: HistoryStatus) -> HistoryEntry {
    HistoryEntry {
        op: Op::Put,
        key: key.to_owned(),
        value: Some("v".to_owned()),
        height: Some(10),
        timestamp: Some(1_700_000_000),
        txid: format!("tx-{key}"),
        output_index: 0,
        signature: Some("ab".to_owned()),
        seq: Some(0),
        signer: Some("cafe".to_owned()),
        verified: Some(true),
        status,
        memo: Some("ZKV0 SET k v\n<sig>".to_owned()),
        fee: Some(10_000),
        output_value: None,
    }
}

#[test]
fn history_resp_maps_fields_and_paging() {
    let result = HistoryResult {
        signer: "deadbeef".to_owned(),
        entries: vec![
            entry("newest", HistoryStatus::Pending),
            entry("mid", HistoryStatus::Confirming { done: 1, required: 3 }),
            entry("oldest", HistoryStatus::Confirmed { confirmations: 9 }),
        ],
        total: 42,
        offset: 0,
        limit: Some(100),
    };
    let resp = history_resp(result, None);
    assert_eq!(resp.creator, "deadbeef");
    assert_eq!(resp.total, 42);
    assert_eq!(resp.limit, Some(100));
    assert_eq!(resp.entries[0].signer.as_deref(), Some("cafe"));
    assert_eq!(resp.entries[0].signer_role, None);
    assert_eq!(resp.entries[0].key, "newest");
    assert_eq!(resp.entries[2].key, "oldest");
    assert_eq!(resp.entries[0].status.kind, "pending");
    assert_eq!(resp.entries[1].status.kind, "confirming");
    assert_eq!(resp.entries[1].status.done, 1);
    assert_eq!(resp.entries[1].status.required, 3);
    assert_eq!(resp.entries[2].status.kind, "confirmed");
    assert_eq!(resp.entries[2].status.confirmations, 9);
    assert_eq!(resp.entries[0].op, "SET");
}

#[test]
fn a_signer_is_shown_with_its_role() {
    let mut auth = AuthRegistry::default();
    auth.insert_owner("cafe".to_owned());
    let result = HistoryResult {
        signer: "cafe".to_owned(),
        entries: vec![entry("k", HistoryStatus::Pending)],
        total: 1,
        offset: 0,
        limit: None,
    };
    assert_eq!(history_resp(result, Some(&auth)).entries[0].signer_role.as_deref(), Some("owner"));
}

fn audit_row(h: u32, op: Op, key: &str, outcome: RowOutcome) -> AuditRow {
    AuditRow {
        mined_height: Some(h),
        timestamp: None,
        txid: format!("tx{h}"),
        op: Some(op),
        key: Some(key.to_owned()),
        value: Some("v".to_owned()),
        raw: String::new(),
        signer: None,
        outcome,
    }
}

#[test]
fn rejections_resp_keeps_only_dropped_newest_first() {
    let audit = AuditResult {
        rows: vec![
            audit_row(1, Op::Put, "a", RowOutcome::Applied),
            audit_row(2, Op::Put, "b", RowOutcome::Dropped(DropReason::NoWriteAuthority)),
            audit_row(3, Op::Del, "c", RowOutcome::Pending),
            audit_row(4, Op::OwnerDel, "d", RowOutcome::Dropped(DropReason::LastOwnerProtected)),
        ],
        init: InitState::Initialized,
        state: OrdMap::new(),
        auth: AuthRegistry::default(),
        version: VersionState::default(),
    };
    let resp = rejections_resp(audit);
    assert_eq!(resp.total, 2);
    assert_eq!(resp.entries.len(), 2);
    assert_eq!(resp.entries[0].height, Some(4));
    assert_eq!(resp.entries[0].op.as_deref(), Some("OWNERDEL"));
    assert_eq!(resp.entries[0].reason, "attempt to remove the last owner");
    assert_eq!(resp.entries[1].height, Some(2));
    assert_eq!(resp.entries[1].reason, "signer has no write authority");
}

#[test]
fn roles_resp_maps_owners_then_writers_with_caps() {
    let owner_key = "zkvid1owner".to_owned();
    let writer_key = "zkvid1aaa".to_owned();
    let mut auth = AuthRegistry::default();
    auth.insert_owner(owner_key.clone());
    auth.apply_management(Op::WriterSet, Some(&writer_key), Some("CREATE,DESTROY"));
    let resp = roles_resp(&auth, Vec::new(), Vec::new(), Some(owner_key.clone()));
    assert_eq!(resp.creator.as_deref(), Some(owner_key.as_str()));
    assert!(owner_key.starts_with("zkvid1"));
    assert_eq!(resp.rows.len(), 2);
    assert_eq!(resp.rows[0].role, "owner");
    assert_eq!(resp.rows[0].pubkey, owner_key);
    assert!(resp.rows[0].capabilities.is_empty(), "owners carry no scope");
    assert_eq!(resp.rows[1].role, "writer");
    assert_eq!(resp.rows[1].pubkey, writer_key);
    assert_eq!(resp.rows[1].capabilities, vec!["CREATE", "DESTROY"]);
    let empty = roles_resp(&AuthRegistry::default(), Vec::new(), Vec::new(), None);
    assert!(empty.rows.is_empty());
    assert!(empty.creator.is_none());
}

fn funding_tx(txid: &str, direction: FundingDirection, amount: u64) -> FundingTx {
    FundingTx {
        txid: txid.to_owned(),
        height: Some(42),
        timestamp: Some(1_700_000_000),
        direction,
        amount,
        self_sent: None,
        fee: Some(10_000),
        memo: None,
        recipients: vec![],
        is_zkv: false,
        pending: false,
        confirmations: 5,
        required: 3,
        confirmed: true,
    }
}

#[test]
fn funding_resp_maps_fields_and_direction() {
    let result = FundingResult {
        entries: vec![
            FundingTx {
                height: None,
                timestamp: None,
                fee: None,
                memo: Some("thanks".to_owned()),
                pending: true,
                confirmations: 0,
                required: 10,
                confirmed: false,
                ..funding_tx("tx-in", FundingDirection::Received, 100_000_000)
            },
            FundingTx {
                recipients: vec!["u1recipient".to_owned()],
                ..funding_tx("tx-out", FundingDirection::Sent, 50_000_000)
            },
            FundingTx {
                height: Some(43),
                timestamp: Some(1_700_000_100),
                self_sent: Some(25_000_000),
                confirmations: 2,
                confirmed: false,
                ..funding_tx("tx-self", FundingDirection::SelfTransfer, 10_000)
            },
            FundingTx {
                height: Some(44),
                timestamp: Some(1_700_000_200),
                is_zkv: true,
                confirmations: 4,
                ..funding_tx("tx-zkv", FundingDirection::ZkvOperation, 10_000)
            },
        ],
        total: 4,
        offset: 0,
        limit: Some(100),
    };
    let resp = funding_resp(result);
    assert_eq!(resp.total, 4);
    assert_eq!(resp.entries.len(), 4);
    assert_eq!(resp.entries[0].direction, "received");
    assert_eq!(resp.entries[0].amount, 100_000_000);
    assert_eq!(resp.entries[0].fee, None);
    assert!(resp.entries[0].pending);
    assert!(!resp.entries[0].is_zkv);
    assert_eq!(resp.entries[1].direction, "sent");
    assert_eq!(resp.entries[1].fee, Some(10_000));
    assert_eq!(resp.entries[1].recipients, vec!["u1recipient".to_owned()]);
    assert!(!resp.entries[1].pending);
    assert_eq!(resp.entries[2].direction, "self");
    assert_eq!(resp.entries[2].amount, 10_000);
    assert_eq!(resp.entries[2].self_sent, Some(25_000_000));
    assert_eq!(resp.entries[2].fee, Some(10_000));
    assert_eq!(resp.entries[3].direction, "zkv");
    assert_eq!(resp.entries[3].amount, 10_000);
    assert_eq!(resp.entries[3].fee, Some(10_000));
    assert!(resp.entries[3].is_zkv);
    assert_eq!(resp.entries[0].confirmations, 0);
    assert_eq!(resp.entries[0].required, 10);
    assert!(!resp.entries[0].confirmed);
    assert!(resp.entries[1].confirmed);
    assert_eq!(resp.entries[2].required, 3);
    assert!(!resp.entries[2].confirmed);
}

#[test]
fn grants_and_revocations_carry_where_they_come_from() {
    let mut auth = AuthRegistry::default();
    auth.insert_owner("zkvid1o".to_owned());
    auth.apply_management(Op::WriterSet, Some("zkvid1w"), Some("UPDATE"));
    let granted = vec![GrantedRole {
        pubkey: "zkvid1w".to_owned(),
        height: Some(7),
        timestamp: Some(70),
        granted_by: Some("zkvid1o".to_owned()),
    }];
    let revoked = vec![RevokedRole {
        pubkey: "zkvid1x".to_owned(),
        was_owner: false,
        capabilities: vec!["CREATE".to_owned()],
        height: Some(9),
        timestamp: None,
        revoked_by: None,
    }];
    let resp = roles_resp(&auth, granted, revoked, None);
    assert_eq!(resp.rows[1].height, Some(7));
    assert_eq!(resp.rows[1].granted_by.as_deref(), Some("zkvid1o"));
    assert_eq!(resp.rows[0].height, None);
    assert_eq!(resp.revoked.len(), 1);
    assert_eq!(resp.revoked[0].role, "writer");
    assert_eq!(resp.revoked[0].capabilities, vec!["CREATE"]);
    assert_eq!(resp.revoked[0].height, Some(9));
}

fn state() -> OrdMap<KeyState> {
    let mut m: OrdMap<KeyState> = OrdMap::new();
    let put = |value: &str| PendingOp::Put {
        value: value.to_owned(),
        done: 1,
        required: 3,
        txid: "tx-new".to_owned(),
    };
    m.insert(
        "a".to_owned(),
        KeyState {
            confirmed: Some("1é".to_owned()),
            pending: Vec::new(),
            updated_at: Some(100),
            last_txid: Some("tx-a".to_owned()),
        },
    );
    m.insert(
        "b".to_owned(),
        KeyState { confirmed: None, pending: vec![put("2")], updated_at: Some(90), last_txid: None },
    );
    m.insert(
        "gone".to_owned(),
        KeyState { confirmed: None, pending: Vec::new(), updated_at: Some(200), last_txid: None },
    );
    m
}

#[test]
fn keys_are_listed_and_counted() {
    let s = state();
    let rows = key_rows(&s);
    assert_eq!(rows.len(), 2);
    assert_eq!(rows[0].key, "a");
    assert_eq!(rows[0].value.as_deref(), Some("1é"));
    assert_eq!(rows[0].size, Some(3), "sizes are in bytes");
    assert_eq!(rows[0].status.kind, "confirmed");
    assert_eq!(rows[1].key, "b");
    assert_eq!(rows[1].status.kind, "confirming");
    assert_eq!((rows[1].status.done, rows[1].status.required), (1, 3));
    let (keys, unsynced) = count_keys(&s);
    assert_eq!((keys, unsynced), (2, 1));
    assert_eq!(last_update(&s), Some(200));
    let mut doomed: OrdMap<KeyState> = OrdMap::new();
    let del = PendingOp::Del { done: 0, required: 3, txid: "t".to_owned() };
    let key = |confirmed: Option<&str>| KeyState {
        confirmed: confirmed.map(str::to_owned),
        pending: vec![del.clone()],
        updated_at: None,
        last_txid: None,
    };
    doomed.insert("k".to_owned(), key(None));
    assert_eq!(count_keys(&doomed), (0, 0), "a key that is neither there nor coming");
    doomed.insert("l".to_owned(), key(Some("v")));
    assert_eq!(count_keys(&doomed), (1, 1));
    assert_eq!(role_str(Role::Admin), "admin");
    assert_eq!(role_str(Role::Watch), "watch");
    assert_eq!(init_parts(&InitState::Initializing { done: 1, required: 2 }).1, 1);
    assert_eq!(init_parts(&InitState::Initialized).0, "initialized");
}

#[test]
fn api_pause_toggles_without_wallet() {
    let mut e = Engine::new("server".to_owned());
    assert!(e.set_pause("a".to_owned(), true).paused);
    assert!(e.is_paused("a") && !e.is_paused("b"));
    let names = vec!["a".to_owned(), "b".to_owned()];
    assert_eq!(e.run_auto_sync(&names).unwrap().0, vec!["b"]);
    assert!(!e.set_pause("a".to_owned(), false).paused);
    assert!(!e.is_paused("a"));
    e.set_pause("a".to_owned(), true);
    assert!(e.forget("a").ok);
    assert!(!e.is_paused("a"));
}

#[test]
fn api_settings_clamps_workers() {
    let mut e = Engine::new("server".to_owned());
    assert_eq!(e.set_settings(3).sync_workers, 3);
    assert_eq!(e.set_settings(999).sync_workers, MAX_SYNC_WORKERS);
    assert_eq!(e.set_settings(0).sync_workers, 1);
    assert_eq!(e.run_auto_sync(&Vec::new()), Some((Vec::new(), 1)));
}

#[test]
fn api_pause_all_toggles_state() {
    let mut e = Engine::new("server".to_owned());
    assert!(e.set_pause_all(true).paused);
    assert_eq!(e.run_auto_sync(&vec!["a".to_owned()]), None);
    assert!(!e.set_pause_all(false).paused);
    assert!(e.run_auto_sync(&vec!["a".to_owned()]).is_some());
}

fn facts(now_unix: u64, opened: Option<CurrentDb>) -> StatusFacts {
    StatusFacts {
        version: "1.0".to_owned(),
        git_sha: "abc".to_owned(),
        platform: "linux".to_owned(),
        current: Some("prices".to_owned()),
        databases: 2,
        opened,
        mainnet_probe: Some(10),
        demo_reimport_available: false,
        onboarded: true,
        build_unix: 1_000_000,
        now_unix,
    }
}

#[test]
fn the_verdict_on_the_build_stands() {
    let mut e = Engine::new("label".to_owned());
    let s = e.status(facts(1_000_001, None));
    assert!(!s.build_out_of_date);
    assert_eq!(s.server, "label");
    let open = CurrentDb {
        network: Network::Test,
        server: "https://test".to_owned(),
        synced: Some(5),
        chain_tip: Some((9, 12)),
    };
    let s = e.status(facts(u64::MAX, Some(open)));
    assert!(!s.build_out_of_date, "asked once");
    assert_eq!((s.chain_tip, s.latency_ms, s.synced), (Some(9), Some(12), Some(5)));
    assert_eq!(s.network.as_deref(), Some("testnet"));
    assert_eq!(s.server, "https://test");
    assert!(Engine::new("label".to_owned()).status(facts(u64::MAX, None)).build_out_of_date);
}

#[test]
fn databases_are_listed() {
    let mut e = Engine::new("label".to_owned());
    e.set_pause("one".to_owned(), true);
    let config =
        DbConfig { role: Role::Watch, network: Network::Main, pool: ShieldedPool::Orchard, birthday: 77 };
    let dbs = vec![
        DbFacts {
            name: "one".to_owned(),
            server: "s".to_owned(),
            config: Some(config.clone()),
            opened: Some(OpenedDb { synced: Some(4), state: Some(state()) }),
        },
        DbFacts { name: "broken".to_owned(), server: "s".to_owned(), config: None, opened: None },
        DbFacts { name: "two".to_owned(), server: "s".to_owned(), config: Some(config), opened: None },
    ];
    let rows = e.list_databases(&dbs);
    assert_eq!(rows.len(), 2);
    assert!(rows[0].paused && !rows[1].paused);
    assert_eq!((rows[0].keys, rows[0].unsynced, rows[0].synced), (2, 1, Some(4)));
    assert_eq!((rows[1].keys, rows[1].birthday), (0, 77));
}

fn detail_facts() -> DetailFacts {
    let mut result = Snapshot::new().load_seed();
    result.version = VersionState { version: 1, blocks: BlockSet { sync: false, read: true, write: true } };
    DetailFacts {
        name: "one".to_owned(),
        role: Role::Watch,
        network: Network::Main,
        pool: ShieldedPool::Orchard,
        server: "s".to_owned(),
        birthday: 1,
        state: result,
        synced_to_tip: Some(true),
        balance: Err(ZkvError::WatchOnly),
        confirming: Ok(5),
        funding_address: Err(ZkvError::WatchOnly),
        address: Ok("zkv1".to_owned()),
        signer: None,
        synced: Ok(Some(3)),
    }
}

#[test]
fn a_database_is_shown_in_detail() {
    let e = Engine::new("label".to_owned());
    let d = e.detail(detail_facts()).unwrap();
    assert_eq!((d.balance, d.confirming, d.synced), (None, Some(5), Some(3)));
    assert!(d.synced_to_tip, "an uninitialized database says whether it has reached the tip");
    assert!(d.blocks_read && d.blocks_write && !d.blocks_sync);
    assert_eq!(d.block_flags, "blockread,blockwrite");
    let mut f = detail_facts();
    f.balance = Err(ZkvError::NotSynced);
    assert_eq!(e.detail(f), Err(ZkvError::NotSynced));
    let mut f = detail_facts();
    f.state.init = InitState::Initialized;
    assert!(!e.detail(f).unwrap().synced_to_tip);
}

#[test]
fn servers_are_shown_as_they_answer() {
    let info = ServerInfo { endpoint: "https://m".to_owned(), block_height: 5, backend: "b".to_owned() };
    let r = servers("m".to_owned(), Some(info), "t".to_owned(), None, None);
    assert_eq!(r.mainnet.server, "https://m");
    assert_eq!(r.mainnet.backend.as_deref(), Some("b"));
    assert!(r.mainnet.online && !r.testnet.online);
    assert_eq!(r.testnet.server, "t");
    assert_eq!(r.data_dir, "");
    assert_eq!(server_endpoint(None, Some("ZecRocks")), "zecrocks");
    assert_eq!(server_endpoint(None, None), "custom");
    assert_eq!(server_endpoint(Some("e".to_owned()), None), "e");
}
