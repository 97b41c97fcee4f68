//! Writes: their sequences, their refusals and their memos.

use zkv::config::Role;
use zkv::internal::pending::PendingEntry;
use zkv::internal::snapshot::Snapshot;
use zkv::internal::write::{
    augment_insufficient_funds, batch_records, broadcast_init, ensure_client_supported, ensure_initialized,
    ensure_not_finalized, ensure_open, finish_write, inflight_count, manage_and_broadcast, manage_and_print,
    pending_zats, plan_batch, prepare, prepare_batch, prepare_common, prepare_init, prepare_management, record_pending,
    request_fault_text, sequence_versions, write_and_broadcast, write_and_print, write_many_and_broadcast, Access,
    BatchItem, BatchPlanItem, OpKind, PayFault, Refusal, UnsettledBalance, WalletFacts, WriteError,
};
use zkv::internal::payment::{PaymentIssue, RequestIssue};
use zkv::network::Network;
use zkv::protocol::{
    bump_hw, decide, seq_in_window, BlockSet, InitState, KeyState, Op, PendingOp, ReplayResult, Verdict, VersionState,
    WriteStatus, MAX_DB_VERSION,
};

const ZS: &str = "zs1z7rejlpsa98s2rrrfkwmaxu53e4ue0ulcrw0h4x5g8jl04tak0d3mm47vdtahatqrlkngh9slya";

fn item<'a>(op: Op, key: &'a str, value: Option<&'a str>) -> BatchItem<'a> {
    BatchItem { op, key, value }
}

fn present(keys: &[&str]) -> Vec<String> {
    keys.iter().map(|k| k.to_string()).collect()
}

fn vx(plan: &[BatchPlanItem]) -> Vec<(u64, bool)> {
    plan.iter().map(|p| (p.version, p.key_exists)).collect()
}

#[test]
fn empty_batch_yields_empty_plan() {
    let plan = sequence_versions(&[], |_: &str| 0, &present(&[]));
    assert!(plan.is_empty());
}

#[test]
fn distinct_keys_use_independent_bases() {
    let items = [item(Op::Put, "a", Some("1")), item(Op::Put, "b", Some("2"))];
    let plan = sequence_versions(&items, |k: &str| if k == "b" { 5 } else { 0 }, &present(&[]));
    assert_eq!(plan.iter().map(|p| p.version).collect::<Vec<_>>(), vec![0, 5]);
}

#[test]
fn same_key_gets_consecutive_versions() {
    let items = [item(Op::Put, "a", Some("1")), item(Op::Put, "a", Some("2")), item(Op::Del, "a", None)];
    let plan = sequence_versions(&items, |_: &str| 2, &present(&["a"]));
    assert_eq!(plan.iter().map(|p| p.version).collect::<Vec<_>>(), vec![2, 3, 4]);
}

#[test]
fn in_batch_create_makes_later_op_an_update() {
    let items = [item(Op::Put, "a", Some("1")), item(Op::Del, "a", None)];
    let plan = sequence_versions(&items, |_: &str| 0, &present(&[]));
    assert_eq!(vx(&plan), vec![(0, false), (1, true)]);
}

#[test]
fn in_batch_del_makes_later_set_a_create() {
    let items = [item(Op::Del, "a", None), item(Op::Put, "a", Some("1"))];
    let plan = sequence_versions(&items, |_: &str| 0, &present(&["a"]));
    assert_eq!(vx(&plan), vec![(0, true), (1, false)]);
}

#[test]
fn interleaved_keys_track_per_key_state() {
    let items =
        [item(Op::Put, "a", Some("1")), item(Op::Put, "b", Some("2")), item(Op::Put, "a", Some("3"))];
    let plan = sequence_versions(&items, |_: &str| 0, &present(&[]));
    assert_eq!(
        plan.iter().map(|p| (p.key.as_str(), p.version)).collect::<Vec<_>>(),
        vec![("a", 0), ("b", 0), ("a", 1)],
    );
}

#[test]
fn ensure_initialized_initializing_message() {
    let init = InitState::Initializing { done: 1, required: 3 };
    let msg = ensure_initialized("demo", &init).unwrap_err().message();
    assert!(msg.contains("is not yet initialized"), "{msg}");
    assert!(msg.contains("INIT seen at 1/3"), "{msg}");
}

#[test]
fn ensure_initialized_uninitialized_message() {
    let msg = ensure_initialized("demo", &InitState::Uninitialized).unwrap_err().message();
    assert!(msg.contains("is not yet initialized"), "{msg}");
    assert!(!msg.contains("INIT seen at"), "{msg}");
}

#[test]
fn ensure_initialized_passes_when_initialized() {
    assert!(ensure_initialized("demo", &InitState::Initialized).is_ok());
}

#[test]
fn ensure_client_supported_blockwrite_message() {
    let v = VersionState { version: MAX_DB_VERSION + 1, blocks: BlockSet::parse("blockwrite").unwrap() };
    let msg = ensure_client_supported(&v).unwrap_err().message();
    assert!(msg.contains("blocks writes for clients older"), "{msg}");
    assert!(msg.contains(&format!("upgraded to version {}", MAX_DB_VERSION + 1)), "{msg}");
    assert!(msg.contains(&format!("supports up to version {MAX_DB_VERSION}")), "{msg}");
}

#[test]
fn ensure_client_supported_passes_when_not_blocking() {
    let v = VersionState { version: MAX_DB_VERSION, blocks: BlockSet::parse("warn").unwrap() };
    assert!(ensure_client_supported(&v).is_ok());
}

fn open_state() -> ReplayResult {
    let mut r = Snapshot::new().load_seed();
    r.init = InitState::Initialized;
    r.auth.insert_owner("me".to_owned());
    r.auth.apply_management(Op::WriterSet, Some("creator"), Some("CREATE"));
    bump_hw(&mut r.kv_versions, "k".to_owned(), 4);
    r.state.insert(
        "k".to_owned(),
        KeyState {
            confirmed: Some("v".to_owned()),
            pending: vec![PendingOp::Put {
                value: "w".to_owned(),
                done: 1,
                required: 3,
                txid: "tx1".to_owned(),
            }],
            updated_at: None,
            last_txid: None,
        },
    );
    r
}

fn access(signer: &str) -> Access {
    Access {
        role: Role::Admin,
        derived: true,
        signer: signer.to_owned(),
        zkv_addr: "zkv1addr".to_owned(),
        recipient_ua: ZS.to_owned(),
    }
}

fn local(txid: &str, op: Op, key: &str) -> PendingEntry {
    record_pending(txid, op, key, None, "memo", 1)
}

#[test]
fn writes_in_flight_are_counted_once() {
    let r = open_state();
    let locals =
        vec![local("tx1", Op::Put, "k"), local("tx2", Op::Del, "k"), local("tx3", Op::Put, "other"),
            local("tx4", Op::OwnerSet, "zkvid1t")];
    assert_eq!(inflight_count(&r, &locals, "k", OpKind::Data), 2, "tx1 is known to both");
    assert_eq!(inflight_count(&r, &locals, "zkvid1t", OpKind::Registry), 1);
    let p = prepare("db", &r, &access("me"), &locals, Op::Put, "k", Some("x")).unwrap();
    assert_eq!(p.version, 7, "past the mark and past both writes in flight");
}

#[test]
fn a_write_is_refused_with_its_reason() {
    let none: Vec<PendingEntry> = Vec::new();
    let r = open_state();
    assert_eq!(
        prepare("db", &r, &access("creator"), &none, Op::Put, "k", Some("x")),
        Err(Refusal::Write(WriteError::UnauthorizedData { op: "SET".to_owned(), key: "k".to_owned() }))
    );
    assert!(prepare("db", &r, &access("creator"), &none, Op::Put, "new", Some("x")).is_ok());
    let mut watch = access("me");
    watch.role = Role::Watch;
    assert_eq!(
        prepare_common("db", &watch),
        Err(Refusal::Write(WriteError::WatchOnly { db: "db".to_owned() }))
    );
    let mut bare = access("me");
    bare.derived = false;
    assert_eq!(prepare_common("db", &bare), Err(Refusal::Other("watch-only account can't sign".to_owned())));
    let mut sealed = open_state();
    sealed.finalized = true;
    assert_eq!(
        ensure_open("db", &sealed),
        Err(Refusal::Other("database \"db\" is finalized; no further writes are possible".to_owned()))
    );
    assert!(ensure_not_finalized("db", false).is_ok());
    let m = |signer: &str, op: Op, target: Option<&str>, scope: Option<&str>| {
        prepare_management("db", &r, &access(signer), &none, op, "text", target, scope)
    };
    assert_eq!(
        m("creator", Op::OwnerSet, Some("t"), None),
        Err(Refusal::Write(WriteError::OwnerOnly { op: "OWNERSET".to_owned() }))
    );
    assert!(matches!(m("me", Op::OwnerSet, None, None), Err(Refusal::Other(t)) if t.starts_with("target \"text\"")));
    assert_eq!(
        m("me", Op::WriterSet, Some("t"), None),
        Err(Refusal::Other("WRITERSET requires a scope".to_owned()))
    );
    let p = m("me", Op::WriterSet, Some("t"), Some("CREATE")).unwrap();
    assert_eq!((p.key.as_str(), p.value.as_deref(), p.version), ("t", Some("CREATE"), 0));
    assert_eq!(m("me", Op::Finalize, None, None).unwrap().key, "");
}

fn fault() -> PayFault {
    PayFault { text: "insufficient".to_owned(), shortage: Some((1, 20_000)) }
}

fn facts(pending: Option<u64>, pending_text: &str) -> WalletFacts {
    WalletFacts { pending, pending_text: pending_text.to_owned(), network: None }
}

fn told(r: &Refusal) -> String {
    match r {
        Refusal::Write(e) => e.message(),
        Refusal::Other(t) => t.clone(),
    }
}

#[test]
fn a_payment_is_recorded_or_refused() {
    let p = finish_write(&access("me"), "memo".to_owned()).unwrap();
    let paid = || Ok("tx9".to_owned());
    let (txid, record) = write_and_broadcast(Op::Put, "k", Some("v"), &p, paid(), facts(None, ""), 7).unwrap();
    assert_eq!(txid, "tx9");
    assert_eq!(record, record_pending("tx9", Op::Put, "k", Some("v"), "memo", 7));
    let (_, record) = broadcast_init(&p, paid(), 7).unwrap();
    assert_eq!((record.op.as_str(), record.key.as_str()), ("INIT", "zkv1addr"));
    assert_eq!(broadcast_init(&p, Err(fault()), 7), Err(Refusal::Other("insufficient".to_owned())));
    let (_, record) =
        manage_and_broadcast(Op::WriterSet, "t", Some("CREATE"), &p, paid(), facts(None, ""), 7).unwrap();
    assert_eq!((record.op.as_str(), record.value.as_deref()), ("WRITERSET", Some("CREATE")));
    let other = PayFault { text: "offline".to_owned(), shortage: None };
    assert_eq!(
        write_and_broadcast(Op::Del, "k", None, &p, Err(other), facts(None, ""), 7),
        Err(Refusal::Other("offline".to_owned()))
    );
    assert_eq!(
        write_and_broadcast(Op::Del, "k", None, &p, Err(fault()), facts(Some(3), "x"), 7),
        Err(Refusal::Write(WriteError::InsufficientFunds {
            available: 1,
            required: 20_000,
            pending: 3,
            pending_text: "x".to_owned(),
            network: Network::Main,
        }))
    );
}

#[test]
fn refusals_are_told() {
    assert_eq!(
        WriteError::WatchOnly { db: "a\"b".to_owned() }.message(),
        "\"a\\\"b\" is a watch-only database; you can't sign writes"
    );
    let poor = augment_insufficient_funds(fault(), facts(None, ""));
    assert_eq!(
        told(&poor),
        "Insufficient balance: 1 zats spendable, 20000 zats needed (including fee).\nSend funds to this \
         database's funding UA (see `zkv show`) and re-run after they confirm."
    );
    let soon = augment_insufficient_funds(fault(), facts(Some(5), " 0.00000005 ZEC"));
    assert!(told(&soon).ends_with(
        "5 zats incoming (0.00000005 ZEC, confirming). Wait for confirmations and try again."
    ));
    let balances = vec![
        UnsettledBalance { incoming: 1, change: 2, unshielded: 3 },
        UnsettledBalance { incoming: 10, change: 0, unshielded: 0 },
    ];
    assert_eq!(pending_zats(&balances), 16);
    assert!(request_fault_text(RequestIssue::Payment(PaymentIssue::BadAddress("e".to_owned())))
        .contains("bad recipient UA"));
}

#[test]
fn a_batch_is_planned_checked_and_recorded() {
    let r = open_state();
    let none: Vec<PendingEntry> = Vec::new();
    let items = [item(Op::Del, "k", None), item(Op::Put, "k", Some("2")), item(Op::Put, "n", Some("3"))];
    assert!(matches!(plan_batch("db", &r, &access("me"), &none, &[]), Err(Refusal::Other(_))));
    let plan = plan_batch("db", &r, &access("me"), &none, &items).unwrap();
    assert_eq!(vx(&plan), vec![(6, true), (7, false), (0, false)]);
    let memos = vec![Ok("m1".to_owned()), Ok("m2".to_owned()), Ok("m3".to_owned())];
    let batch = prepare_batch(&r.auth, &access("me"), &plan, &memos).unwrap();
    assert_eq!(batch.memo_texts, vec!["m1", "m2", "m3"]);
    assert!(batch.request.contains("memo.2="), "{}", batch.request);
    let (_, records) = write_many_and_broadcast(&batch, Ok("tx9".to_owned()), facts(None, ""), 5).unwrap();
    assert_eq!(records, batch_records("tx9", &batch, 5));
    assert_eq!(records.len(), 3);
    assert!(records.iter().all(|e| e.txid == "tx9" && e.broadcast_at_unix == 5));
    assert_eq!(records[1].memo.as_deref(), Some("m2"));
    // The first refusal decides.
    assert_eq!(
        prepare_batch(&r.auth, &access("creator"), &plan, &memos),
        Err(Refusal::Write(WriteError::UnauthorizedData { op: "DEL".to_owned(), key: "k".to_owned() }))
    );
    let unsigned = vec![Ok("m1".to_owned()), Err("too long".to_owned()), Ok("m3".to_owned())];
    assert_eq!(
        prepare_batch(&r.auth, &access("me"), &plan, &unsigned),
        Err(Refusal::Other("too long".to_owned()))
    );
}

#[test]
fn a_signed_memo_is_sent_or_printed() {
    let p = finish_write(&access("me"), "ZKV0 SET k v\nsig".to_owned()).unwrap();
    assert!(p.request.starts_with("zcash:"));
    assert!(prepare_init("db", &access("me"), "ZKV0 INIT".to_owned()).is_ok());
    let mut lost = access("me");
    lost.recipient_ua = "x".to_owned();
    assert!(matches!(prepare_init("db", &lost, "m".to_owned()), Err(Refusal::Other(_))));
    let printed = write_and_print(Op::Put, "k", &p);
    assert_eq!(printed.before[0], "zkv SET k → zkv1addr");
    assert_eq!(printed.before[1], format!("  recipient (single-pool UA): {ZS}"));
    assert_eq!(printed.memo, "ZKV0 SET k v\nsig");
    assert_eq!(printed.after[0], "--- end zkv memo ---");
    assert_eq!(manage_and_print(Op::OwnerSet, "t", &p).before[0], "zkv OWNERSET t → zkv1addr");
}

#[test]
fn what_is_prepared_is_honored() {
    let r = open_state();
    let locals = vec![local("tx2", Op::Del, "k")];
    let p = prepare("db", &r, &access("me"), &locals, Op::Put, "k", Some("x")).unwrap();
    assert!(seq_in_window(p.op, &p.key, p.version, &r.kv_versions, &r.target_versions, 2));
    assert!(!seq_in_window(p.op, &p.key, p.version, &r.kv_versions, &r.target_versions, 1), "more in flight");
    let status = WriteStatus::Confirmed;
    assert_eq!(decide(p.op, "me", "root", status, true, &r.auth, r.finalized, true), Verdict::Applied);
    let m = prepare_management("db", &r, &access("me"), &locals, Op::OwnerSet, "t", Some("t"), None).unwrap();
    assert!(seq_in_window(m.op, &m.key, m.version, &r.kv_versions, &r.target_versions, 0));
    assert_eq!(decide(m.op, "me", "root", status, true, &r.auth, r.finalized, false), Verdict::Applied);
}
