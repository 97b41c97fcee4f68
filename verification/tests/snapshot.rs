//! The confirmed state of a database, batch by batch.

use zkv::internal::history::{history_where, like_escape};
use zkv::internal::snapshot::{
    cached_version, Command, HistRow, PromoteError, PromoteRow, Snapshot, SCHEMA_VERSION,
};
use zkv::internal::stored::{
    layout_action, load_auth, loaded_mark, loaded_time, persist_auth, read_version, stored_mark, LayoutAction,
};
use zkv::internal::txid::txid_display;
use zkv::protocol::{Authority, BlockSet, InitState, Op, VersionState};

const WINDOW: u64 = 64;
const ADDR: &str = "zkv1test1";
const ROOT: &str = "zkvid1root";

fn synth_txid(seed: u8) -> Vec<u8> {
    let mut t = vec![0u8; 32];
    t[0] = seed;
    t
}

fn command(signer: &str, op: Op, key: &str, value: Option<&str>, seq: u64) -> Command {
    Command {
        op,
        key: key.to_owned(),
        target: if key.starts_with("zkvid1") { Some(key.to_owned()) } else { None },
        value: value.map(str::to_owned),
        seq,
        sig_hex: format!("sig-{signer}-{key}-{seq}"),
        signer: signer.to_owned(),
        comment: None,
    }
}

fn row(seed: u8, height: u32, command: Option<Command>) -> PromoteRow {
    PromoteRow {
        mined_height: height,
        txid: synth_txid(seed),
        output_index: 0,
        block_time: None,
        memo_text: match &command {
            Some(c) => format!("ZKV0 {} {}", c.op.as_str(), c.key),
            None => "plain text, not a zkv memo".to_owned(),
        },
        command,
    }
}

fn init(seed: u8, height: u32) -> PromoteRow {
    row(seed, height, Some(command(ROOT, Op::Init, ADDR, None, 0)))
}

fn op_v(seed: u8, height: u32, signer: &str, op: Op, key: &str, value: Option<&str>, seq: u64) -> PromoteRow {
    row(seed, height, Some(command(signer, op, key, value, seq)))
}

fn op(seed: u8, height: u32, signer: &str, o: Op, key: &str, value: Option<&str>) -> PromoteRow {
    op_v(seed, height, signer, o, key, value, 0)
}

fn at(mut r: PromoteRow, txid: &[u8], output_index: u32, time: Option<u32>) -> PromoteRow {
    r.txid = txid.to_vec();
    r.output_index = output_index;
    r.block_time = time;
    r
}

fn promote(s: &mut Snapshot, rows: Vec<PromoteRow>) {
    assert_eq!(s.promote(&rows, ROOT, WINDOW), Ok(()));
}

fn value(s: &Snapshot, key: &str) -> Option<String> {
    s.kv.get(key).map(|c| c.value.clone())
}

fn kv(s: &Snapshot) -> Vec<(String, String)> {
    (0..s.kv.len()).map(|i| (s.kv.key_at(i).clone(), s.kv.value_at(i).value.clone())).collect()
}

fn hist(s: &Snapshot) -> Vec<(u32, String, String, Option<String>)> {
    s.history.iter().map(|h| (h.mined_height, h.key.clone(), h.op.clone(), h.value.clone())).collect()
}

fn auth_rows(s: &Snapshot) -> Vec<(String, String)> {
    let mut rows = persist_auth(&s.auth);
    rows.sort();
    rows
}

#[test]
fn promote_init_then_sets_and_dels_populates_kv_and_history() {
    let mut s = Snapshot::new();
    promote(
        &mut s,
        vec![
            init(1, 100),
            op(2, 101, ROOT, Op::Put, "a", Some("1")),
            op(3, 102, ROOT, Op::Put, "b", Some("stable")),
            op_v(4, 103, ROOT, Op::Put, "a", Some("2"), 1),
            op_v(5, 104, ROOT, Op::Del, "b", None, 1),
        ],
    );
    assert_eq!(kv(&s), vec![("a".to_owned(), "2".to_owned())]);
    assert_eq!(
        hist(&s),
        vec![
            (100, ADDR.to_owned(), "INIT".to_owned(), None),
            (101, "a".to_owned(), "SET".to_owned(), Some("1".to_owned())),
            (102, "b".to_owned(), "SET".to_owned(), Some("stable".to_owned())),
            (103, "a".to_owned(), "SET".to_owned(), Some("2".to_owned())),
            (104, "b".to_owned(), "DEL".to_owned(), None),
        ]
    );
    assert_eq!(s.watermark.height, 104);
    assert_eq!(s.watermark.txid, synth_txid(5));
    assert_eq!(s.watermark.output_index, 0);
    assert_eq!(s.load_seed().init, InitState::Initialized);
}

#[test]
fn promote_drops_stale_sequence() {
    let mut s = Snapshot::new();
    promote(
        &mut s,
        vec![
            init(1, 100),
            op_v(2, 101, ROOT, Op::Put, "k", Some("v1"), 0),
            op_v(3, 102, ROOT, Op::Put, "k", Some("v2"), 1),
            op_v(4, 103, ROOT, Op::Put, "k", Some("v1"), 0),
        ],
    );
    assert_eq!(value(&s, "k").as_deref(), Some("v2"));
    assert_eq!(s.history_count(Some("k"), None), 3, "two writes and the address");
    assert_eq!(hist(&s).iter().filter(|h| h.1 == "k").count(), 2);
    assert_eq!(s.load_seed().kv_versions.get("k").copied(), Some(2));
}

#[test]
fn promote_drops_sequence_beyond_window() {
    let mut s = Snapshot::new();
    promote(&mut s, vec![init(1, 100), op_v(2, 101, ROOT, Op::Put, "k", Some("v"), WINDOW + 1)]);
    assert!(value(&s, "k").is_none());
    assert_eq!(s.load_seed().kv_versions.get("k").copied(), None);
    // The last sequence of the window is accepted.
    promote(&mut s, vec![op_v(3, 102, ROOT, Op::Put, "k", Some("v"), WINDOW)]);
    assert_eq!(value(&s, "k").as_deref(), Some("v"));
    assert_eq!(s.load_seed().kv_versions.get("k").copied(), Some(WINDOW + 1));
}

#[test]
fn promote_sendmany_multiple_memos_one_tx_parsed_in_output_order() {
    let txid = synth_txid(7);
    let t = Some(1_700_000_101);
    let mut s = Snapshot::new();
    promote(
        &mut s,
        vec![
            init(1, 100),
            at(op(7, 101, ROOT, Op::Put, "a", Some("first")), &txid, 0, t),
            at(op(7, 101, ROOT, Op::Put, "b", Some("x")), &txid, 1, t),
            at(row(7, 101, None), &txid, 2, t),
            at(op_v(7, 101, ROOT, Op::Put, "a", Some("second"), 1), &txid, 3, t),
            at(op_v(7, 101, ROOT, Op::Del, "b", None, 1), &txid, 4, t),
        ],
    );
    let seed = s.load_seed();
    assert_eq!(seed.state.get("a").and_then(|k| k.confirmed.as_deref()), Some("second"));
    assert!(!seed.state.contains_key("b"));
    let of_tx: Vec<(u32, String, String, Option<String>)> = s
        .history
        .iter()
        .filter(|h| h.txid == txid)
        .map(|h| (h.output_index, h.key.clone(), h.op.clone(), h.value.clone()))
        .collect();
    assert_eq!(
        of_tx,
        vec![
            (0, "a".to_owned(), "SET".to_owned(), Some("first".to_owned())),
            (1, "b".to_owned(), "SET".to_owned(), Some("x".to_owned())),
            (3, "a".to_owned(), "SET".to_owned(), Some("second".to_owned())),
            (4, "b".to_owned(), "DEL".to_owned(), None),
        ]
    );
    assert_eq!(s.watermark.height, 101);
    assert_eq!(s.watermark.txid, txid);
    assert_eq!(s.watermark.output_index, 4);
}

#[test]
fn promote_persists_comment_and_memo_round_trips() {
    let mut commented = op(2, 101, ROOT, Op::Put, "a", Some("1"));
    commented.memo_text = "# just testing\nZKV0 SET a 1\nsig".to_owned();
    if let Some(c) = &mut commented.command {
        c.comment = Some(" just testing".to_owned());
    }
    let mut s = Snapshot::new();
    promote(&mut s, vec![init(1, 100), commented]);
    assert_eq!(value(&s, "a").as_deref(), Some("1"));
    let back: Vec<HistRow> = s.history_page(Some("a"), None, true, None, 0);
    assert_eq!(back.len(), 1);
    assert_eq!(back[0].comment.as_deref(), Some(" just testing"));
    assert_eq!(back[0].memo, "# just testing\nZKV0 SET a 1\nsig");
}

#[test]
fn promote_drops_pre_init_writes() {
    let mut s = Snapshot::new();
    promote(
        &mut s,
        vec![
            op(1, 100, ROOT, Op::Put, "pre", Some("ghost")),
            init(2, 101),
            op(3, 102, ROOT, Op::Put, "post", Some("kept")),
        ],
    );
    let seed = s.load_seed();
    assert_eq!(seed.init, InitState::Initialized);
    assert!(!seed.state.contains_key("pre"));
    assert_eq!(seed.state.get("post").and_then(|k| k.confirmed.as_deref()), Some("kept"));
    let keys: Vec<String> = s.history.iter().map(|h| h.key.clone()).collect();
    assert_eq!(keys, vec![ADDR.to_owned(), "post".to_owned()]);
}

#[test]
fn promote_pre_init_batch_does_not_advance_watermark() {
    let mut s = Snapshot::new();
    promote(&mut s, vec![op(7, 200, ROOT, Op::Put, "early", Some("ghost")), row(8, 201, None)]);
    assert_eq!(s.watermark.height, 0);
    assert_eq!(s.read_init_state(), InitState::Uninitialized);
    assert_eq!(s.history.len(), 0);
    promote(&mut s, vec![op(7, 200, ROOT, Op::Put, "early", Some("ghost")), init(9, 202)]);
    assert_eq!(s.read_init_state(), InitState::Initialized);
    assert_eq!(s.watermark.height, 202);
}

#[test]
fn promote_advances_watermark_even_for_garbage_rows() {
    let mut s = Snapshot::new();
    promote(&mut s, vec![init(1, 100), row(2, 101, None)]);
    assert_eq!(s.watermark.height, 101);
    assert_eq!(s.watermark.txid, synth_txid(2));
}

#[test]
fn promote_is_atomic_per_call() {
    let mut s = Snapshot::new();
    promote(&mut s, vec![init(1, 100), op(2, 101, ROOT, Op::Put, "a", Some("1"))]);
    let conflict = vec![
        op(3, 102, ROOT, Op::Put, "c", Some("1")),
        op(2, 101, ROOT, Op::Put, "b", Some("1")),
    ];
    assert_eq!(s.promote(&conflict, ROOT, WINDOW), Err(PromoteError::DuplicateRow));
    assert_eq!(kv(&s), vec![("a".to_owned(), "1".to_owned())]);
    assert_eq!(s.history.len(), 2);
    assert_eq!(s.watermark.height, 101);
    assert_eq!(s.load_seed().kv_versions.get("c").copied(), None);
    // A write without a value refuses the batch as well.
    let broken = vec![op(3, 102, ROOT, Op::Put, "c", None)];
    assert_eq!(s.promote(&broken, ROOT, WINDOW), Err(PromoteError::SetWithoutValue));
    assert_eq!(s.watermark.height, 101);
}

#[test]
fn wipe_clears_state_and_resets_meta() {
    let mut s = Snapshot::new();
    promote(&mut s, vec![init(1, 100), op(2, 101, ROOT, Op::Put, "a", Some("1"))]);
    assert!(s.load_seed().state.len() > 0);
    s.wipe();
    let seed = s.load_seed();
    assert_eq!(seed.state.len(), 0);
    assert_eq!(seed.init, InitState::Uninitialized);
    assert_eq!(s.watermark.height, 0);
    assert!(s.watermark.txid.is_empty());
}

#[test]
fn promote_empty_batch_is_noop() {
    let mut s = Snapshot::new();
    promote(&mut s, vec![]);
    assert_eq!(s.watermark.height, 0);
}

#[test]
fn promote_records_signature_and_history_query_round_trips() {
    let mut s = Snapshot::new();
    let set_a = at(op(2, 101, ROOT, Op::Put, "a", Some("1")), &synth_txid(2), 0, Some(1_700_000_101));
    let sig_a = set_a.command.as_ref().map(|c| c.sig_hex.clone());
    let memo_a = set_a.memo_text.clone();
    promote(
        &mut s,
        vec![
            init(1, 100),
            set_a,
            at(op(3, 102, ROOT, Op::Put, "b", Some("x")), &synth_txid(3), 1, Some(1_700_000_102)),
            op_v(4, 103, ROOT, Op::Del, "a", None, 1),
        ],
    );
    let all = s.history_page(None, None, false, None, 0);
    assert_eq!(all.len(), 4);
    assert_eq!((all[0].key.as_str(), all[0].op.as_str()), ("a", "DEL"));
    assert_eq!((all[1].key.as_str(), all[1].op.as_str()), ("b", "SET"));
    assert_eq!((all[2].key.as_str(), all[2].op.as_str()), ("a", "SET"));
    assert_eq!((all[3].key.as_str(), all[3].op.as_str()), (ADDR, "INIT"));
    assert_eq!(all[1].output_index, 1);
    assert_eq!(all[0].value, None);
    assert_eq!(all[2].block_time, Some(1_700_000_101));
    assert_eq!(all[1].block_time, Some(1_700_000_102));
    assert_eq!(Some(all[2].signature.clone()), sig_a);
    assert!(all.iter().all(|r| r.signer == ROOT));
    assert_eq!(all[2].memo, memo_a);

    let page0 = s.history_page(None, None, false, Some(1), 0);
    assert_eq!(page0.len(), 1);
    assert_eq!(page0[0].op, "DEL");
    let page1 = s.history_page(None, None, false, Some(1), 1);
    assert_eq!(page1.len(), 1);
    assert_eq!((page1[0].key.as_str(), page1[0].op.as_str()), ("b", "SET"));
    assert_eq!(s.history_count(None, None), 4);

    let asc = s.history_page(None, None, true, None, 0);
    assert_eq!(asc.first().map(|r| r.op.as_str()), Some("INIT"));
    assert_eq!(asc.last().map(|r| r.op.as_str()), Some("DEL"));

    let only_set = vec!["SET".to_owned()];
    assert_eq!(s.history_count(None, Some(&only_set)), 2);
    let sets = s.history_page(None, Some(&only_set), false, None, 0);
    assert!(sets.iter().all(|r| r.op == "SET"));
    assert_eq!(sets.len(), 2);

    let only_a = s.history_page(Some("a"), None, false, None, 0);
    assert_eq!(only_a.len(), 2);
    assert!(only_a.iter().all(|r| r.key == "a"));
    assert_eq!(only_a[0].op, "DEL");
    assert_eq!(only_a[1].op, "SET");
    assert_eq!(s.history_count(Some("a"), None), 2);

    let seed = s.load_seed();
    assert!(!seed.state.contains_key("a"));
    let b = seed.state.get("b").expect("b present");
    assert_eq!(b.updated_at, Some(1_700_000_102));
    assert_eq!(b.last_txid.as_deref(), txid_display(&synth_txid(3)).as_deref());
}

#[test]
fn promote_records_delegated_writer_signer() {
    let writer = "zkvid1writer";
    let mut s = Snapshot::new();
    promote(
        &mut s,
        vec![
            init(1, 100),
            op(2, 101, ROOT, Op::WriterSet, writer, Some("CREATE,UPDATE")),
            op(3, 102, writer, Op::Put, "price", Some("v")),
        ],
    );
    let all = s.history_page(Some("price"), None, false, None, 0);
    assert_eq!(all.len(), 1);
    assert_eq!(all[0].signer, writer);
    assert_ne!(all[0].signer, ROOT);
}

#[test]
fn history_locate_ranks_newest_first() {
    let mut s = Snapshot::new();
    promote(
        &mut s,
        vec![
            init(1, 100),
            op(2, 101, ROOT, Op::Put, "a", Some("1")),
            op(3, 102, ROOT, Op::Put, "b", Some("x")),
            op_v(4, 103, ROOT, Op::Del, "a", None, 1),
        ],
    );
    assert_eq!(s.history_locate(None, &synth_txid(4)), Some(0));
    assert_eq!(s.history_locate(None, &synth_txid(3)), Some(1));
    assert_eq!(s.history_locate(None, &synth_txid(2)), Some(2));
    assert_eq!(s.history_locate(None, &synth_txid(1)), Some(3));
    assert_eq!(s.history_locate(None, &synth_txid(9)), None);
    let page = s.history_page(None, None, false, Some(2), 2);
    assert_eq!((page[0].key.as_str(), page[0].op.as_str()), ("a", "SET"));
    assert_eq!(s.history_locate(Some("a"), &synth_txid(4)), Some(0));
    assert_eq!(s.history_locate(Some("a"), &synth_txid(2)), Some(1));
    assert_eq!(s.history_locate(Some("a"), &synth_txid(3)), None);
}

#[test]
fn promote_setl_records_wire_op_in_history() {
    let mut s = Snapshot::new();
    promote(
        &mut s,
        vec![
            init(1, 100),
            op(2, 101, ROOT, Op::Put, "a", Some("plain")),
            op_v(3, 102, ROOT, Op::SetL, "a", Some("multi\nline"), 1),
        ],
    );
    assert_eq!(value(&s, "a").as_deref(), Some("multi\nline"));
    let of_a: Vec<(String, Option<String>)> = s
        .history
        .iter()
        .filter(|h| h.key == "a")
        .map(|h| (h.op.clone(), h.value.clone()))
        .collect();
    assert_eq!(
        of_a,
        vec![
            ("SET".to_owned(), Some("plain".to_owned())),
            ("SETL".to_owned(), Some("multi\nline".to_owned())),
        ]
    );
}

#[test]
fn promote_setl_with_empty_value_lands_as_empty_string() {
    let mut s = Snapshot::new();
    promote(&mut s, vec![init(1, 100), op(2, 101, ROOT, Op::SetL, "k", Some(""))]);
    assert_eq!(value(&s, "k").as_deref(), Some(""));
    assert_eq!(s.load_seed().state.get("k").and_then(|k| k.confirmed.as_deref()), Some(""));
}

#[test]
fn incremental_promote_with_mixed_set_setl_round_trips_through_load_seed() {
    let chain = |from: usize, to: usize| -> Vec<PromoteRow> {
        let all = vec![
            init(1, 100),
            op(2, 101, ROOT, Op::Put, "a", Some("1")),
            op(3, 102, ROOT, Op::SetL, "blank", Some("")),
            op(4, 103, ROOT, Op::SetL, "multi", Some("x\ny")),
            op(5, 104, ROOT, Op::SetL, "a", Some("setl-wins\n")),
            op(6, 105, ROOT, Op::Put, "b", Some("keep")),
            op(7, 106, ROOT, Op::SetL, "doomed", Some("byebye")),
            op(8, 107, ROOT, Op::Del, "doomed", None),
        ];
        all.into_iter().skip(from).take(to - from).collect()
    };
    let mut single = Snapshot::new();
    promote(&mut single, chain(0, 8));
    for split in 1..9 {
        let mut s = Snapshot::new();
        promote(&mut s, chain(0, split));
        let mid = s.load_seed();
        for i in 0..mid.state.len() {
            let key = mid.state.key_at(i);
            assert_eq!(mid.state.value_at(i).confirmed, value(&s, key), "split={split}");
        }
        promote(&mut s, chain(split, 8));
        assert_eq!(kv(&s), kv(&single), "split={split}");
        assert_eq!(hist(&s), hist(&single), "split={split}");
    }
}

#[test]
fn open_wipes_on_schema_version_mismatch() {
    assert_eq!(layout_action(1), LayoutAction::Wipe);
    assert_eq!(layout_action(SCHEMA_VERSION), LayoutAction::Keep);
    assert_eq!(layout_action(0), LayoutAction::Create);
    assert_eq!(layout_action(SCHEMA_VERSION + 1), LayoutAction::Wipe);
}

#[test]
fn promote_seats_root_owner_at_init() {
    let mut s = Snapshot::new();
    promote(&mut s, vec![init(1, 100)]);
    assert_eq!(auth_rows(&s), vec![(ROOT.to_owned(), "owner".to_owned())]);
    assert!(s.load_seed().auth.is_owner(ROOT));
}

#[test]
fn promote_persists_owner_and_writer_grants() {
    let mut s = Snapshot::new();
    promote(
        &mut s,
        vec![
            init(1, 100),
            op(2, 101, ROOT, Op::OwnerSet, "zkvid1owner2", None),
            op(3, 102, ROOT, Op::WriterSet, "zkvid1w", Some("CREATE,UPDATE")),
        ],
    );
    let seed = s.load_seed();
    assert!(seed.auth.is_owner(ROOT));
    assert!(seed.auth.is_owner("zkvid1owner2"));
    match seed.auth.authority_of("zkvid1w") {
        Some(Authority::Writer(scope)) => assert_eq!(scope.to_wire(), "CREATE,UPDATE"),
        other => panic!("expected writer, got {other:?}"),
    }
    let back = load_auth(&persist_auth(&seed.auth));
    assert!(back.is_owner(ROOT) && back.is_owner("zkvid1owner2"));
    assert_eq!(back.authority_of("zkvid1w"), seed.auth.authority_of("zkvid1w"));
}

#[test]
fn promote_finalize_seals_and_persists_and_drops_later_writes() {
    let mut s = Snapshot::new();
    promote(
        &mut s,
        vec![
            init(1, 100),
            op(2, 101, ROOT, Op::Put, "k", Some("v")),
            op(3, 102, ROOT, Op::Finalize, "", None),
            op(4, 103, ROOT, Op::Put, "k", Some("after")),
            op_v(5, 104, ROOT, Op::Put, "k", Some("later still"), 1),
        ],
    );
    assert!(s.load_seed().finalized);
    assert_eq!(value(&s, "k").as_deref(), Some("v"));
}

#[test]
fn promote_remembers_finalize_across_calls() {
    let mut s = Snapshot::new();
    promote(&mut s, vec![init(1, 100), op(2, 101, ROOT, Op::Finalize, "", None)]);
    promote(&mut s, vec![op(3, 102, ROOT, Op::Put, "k", Some("v"))]);
    assert!(s.load_seed().finalized);
    assert!(value(&s, "k").is_none());
    assert_eq!(s.watermark.height, 102);
}

#[test]
fn promote_enforces_writer_scope() {
    let w = "zkvid1w";
    let mut s = Snapshot::new();
    promote(
        &mut s,
        vec![
            init(1, 100),
            op(2, 101, ROOT, Op::WriterSet, w, Some("CREATE")),
            op(3, 102, ROOT, Op::Put, "k", Some("owner")),
            op(4, 103, w, Op::Put, "k", Some("hijack")),
            op(5, 104, w, Op::Put, "fresh", Some("ok")),
            op_v(6, 105, w, Op::Put, "k", Some("hijack"), 1),
            op_v(7, 106, w, Op::Del, "fresh", None, 1),
        ],
    );
    assert_eq!(value(&s, "k").as_deref(), Some("owner"));
    assert_eq!(value(&s, "fresh").as_deref(), Some("ok"));
}

#[test]
fn promote_drops_unauthorized_writes() {
    let mut s = Snapshot::new();
    promote(&mut s, vec![init(1, 100), op(2, 101, "zkvid1attacker", Op::Put, "k", Some("evil"))]);
    assert_eq!(s.load_seed().state.len(), 0);
    assert!(hist(&s).iter().all(|h| h.1 != "k"));
}

#[test]
fn promote_drops_management_from_non_owner() {
    let w = "zkvid1w";
    let mut s = Snapshot::new();
    promote(
        &mut s,
        vec![
            init(1, 100),
            op(2, 101, ROOT, Op::WriterSet, w, Some("CREATE")),
            op(3, 102, w, Op::OwnerSet, w, None),
            op_v(4, 103, w, Op::OwnerSet, w, None, 1),
        ],
    );
    assert!(!s.load_seed().auth.is_owner(w));
}

#[test]
fn incremental_promote_matches_single_shot_for_registry() {
    let chain = |from: usize, to: usize| -> Vec<PromoteRow> {
        let all = vec![
            init(1, 100),
            op(2, 101, ROOT, Op::OwnerSet, "zkvid1owner2", None),
            op(3, 102, "zkvid1owner2", Op::WriterSet, "zkvid1w", Some("CREATE,UPDATE")),
            op(4, 103, "zkvid1w", Op::Put, "k", Some("v1")),
            op(5, 104, ROOT, Op::WriterDel, "zkvid1w", None),
        ];
        all.into_iter().skip(from).take(to - from).collect()
    };
    let mut single = Snapshot::new();
    promote(&mut single, chain(0, 5));
    for split in 1..5 {
        let mut s = Snapshot::new();
        promote(&mut s, chain(0, split));
        promote(&mut s, chain(split, 5));
        assert_eq!(auth_rows(&s), auth_rows(&single), "split={split}");
    }
}

#[test]
fn promote_drops_unsupported_version_init() {
    let mut s = Snapshot::new();
    promote(&mut s, vec![row(1, 100, None)]);
    assert_eq!(s.load_seed().init, InitState::Uninitialized);
    // An INIT of anybody but the root signer is no INIT either.
    promote(&mut s, vec![row(1, 100, Some(command("zkvid1other", Op::Init, ADDR, None, 0)))]);
    assert_eq!(s.load_seed().init, InitState::Uninitialized);
}

#[test]
fn promote_folds_version_into_meta() {
    let mut s = Snapshot::new();
    promote(&mut s, vec![init(1, 100), op(2, 101, ROOT, Op::Version, "1", Some("blockwrite"))]);
    let version = s.load_seed().version;
    assert_eq!(version.version, 1);
    assert_eq!(version.blocks.to_wire(), "blockwrite");
    assert_eq!(read_version(Some("1"), Some("blockwrite")), Some(version));
    assert_eq!(cached_version(Some(&s)), version);
    assert_eq!(cached_version(None), VersionState::default());
    assert_eq!(s.kv.len(), 0);
    assert_eq!(s.history.len(), 1);
}

#[test]
fn promote_drops_version_jump_and_non_owner() {
    let mut s = Snapshot::new();
    promote(&mut s, vec![init(1, 100), op(2, 101, ROOT, Op::Version, "2", Some("warn"))]);
    assert_eq!(s.load_seed().version.version, 0);
    let mut s = Snapshot::new();
    promote(&mut s, vec![init(1, 100), op(2, 101, "zkvid1stranger", Op::Version, "1", Some("blockall"))]);
    assert_eq!(s.load_seed().version.version, 0);
}

#[test]
fn promote_version_composes_across_split_batches() {
    let chain = |from: usize, to: usize| -> Vec<PromoteRow> {
        let all = vec![
            init(1, 100),
            op(2, 101, ROOT, Op::Version, "1", Some("warn")),
            op(3, 102, ROOT, Op::Version, "2", Some("blockall")),
        ];
        all.into_iter().skip(from).take(to - from).collect()
    };
    for split in 1..3 {
        let mut s = Snapshot::new();
        promote(&mut s, chain(0, split));
        let mut rest = chain(split, 3);
        for (i, r) in rest.iter_mut().enumerate() {
            r.mined_height = 100 + i as u32;
        }
        promote(&mut s, rest);
        let v = s.load_seed().version;
        assert_eq!(v.version, 2, "split={split}");
        assert_eq!(v.blocks, BlockSet::all(), "split={split}");
    }
}

#[test]
fn mixed_stream_keeps_what_is_authorized() {
    let w = "zkvid1w";
    let mut s = Snapshot::new();
    promote(
        &mut s,
        vec![
            init(1, 100),
            op(2, 101, ROOT, Op::Version, "1", Some("blocksync,blockwrite")),
            op(3, 102, ROOT, Op::WriterSet, w, Some("CREATE,UPDATE")),
            op(4, 103, w, Op::Put, "k", Some("v1")),
            op_v(5, 104, w, Op::Put, "k", Some("v2"), 1),
            op_v(6, 105, "zkvid1stranger", Op::Put, "k", Some("evil"), 2),
            op(7, 106, ROOT, Op::OwnerDel, ROOT, None),
            op(8, 107, ROOT, Op::Put, "other", Some("x")),
        ],
    );
    let seed = s.load_seed();
    assert_eq!(seed.version.version, 1);
    assert_eq!(
        kv(&s),
        vec![("k".to_owned(), "v2".to_owned()), ("other".to_owned(), "x".to_owned())]
    );
    assert_eq!(
        auth_rows(&s),
        vec![
            (ROOT.to_owned(), "owner".to_owned()),
            (w.to_owned(), "CREATE,UPDATE".to_owned()),
        ]
    );
}

#[test]
fn last_owner_stays_and_the_mark_still_moves() {
    let mut s = Snapshot::new();
    promote(&mut s, vec![init(1, 100), op(2, 101, ROOT, Op::OwnerDel, ROOT, None)]);
    assert!(s.auth.is_owner(ROOT));
    assert_eq!(s.target_versions.get(ROOT).copied(), Some(1));
    // Once there is another owner, the old memo still has no effect.
    promote(
        &mut s,
        vec![
            op(3, 102, ROOT, Op::OwnerSet, "zkvid1owner2", None),
            op(4, 103, ROOT, Op::OwnerDel, ROOT, None),
        ],
    );
    assert!(s.auth.is_owner(ROOT));
    promote(&mut s, vec![op_v(5, 104, ROOT, Op::OwnerDel, ROOT, None, 1)]);
    assert!(!s.auth.is_owner(ROOT));
    assert!(s.auth.is_owner("zkvid1owner2"));
}

#[test]
fn a_target_that_names_no_identity_changes_nothing() {
    let mut s = Snapshot::new();
    promote(&mut s, vec![init(1, 100), op(2, 101, ROOT, Op::OwnerSet, "nobody", None)]);
    assert_eq!(auth_rows(&s).len(), 1);
    assert_eq!(s.target_versions.get("nobody").copied(), Some(1));
}

#[test]
fn late_rows_take_their_place_in_chain_order() {
    let mut s = Snapshot::new();
    promote(&mut s, vec![init(5, 100), op(6, 103, ROOT, Op::Put, "late", Some("2"))]);
    promote(&mut s, vec![op(7, 101, ROOT, Op::Put, "early", Some("1"))]);
    let heights: Vec<u32> = s.history.iter().map(|h| h.mined_height).collect();
    assert_eq!(heights, vec![100, 101, 103]);
}

#[test]
fn history_pages_fit_together() {
    let mut s = Snapshot::new();
    let mut rows = vec![init(1, 100)];
    for i in 0..9u8 {
        rows.push(op(i + 2, 101 + i as u32, ROOT, Op::Put, &format!("key{i}"), Some("v")));
    }
    promote(&mut s, rows);
    let whole: Vec<String> = s.history_page(None, None, false, None, 0).iter().map(|h| h.key.clone()).collect();
    let mut pages: Vec<String> = Vec::new();
    for offset in [0u32, 4, 8] {
        pages.extend(s.history_page(None, None, false, Some(4), offset).iter().map(|h| h.key.clone()));
    }
    assert_eq!(pages, whole);
    assert!(s.history_page(None, None, false, Some(4), 10).is_empty());
    // The filter takes either case.
    assert_eq!(s.history_count(Some("KEY3"), None), 1);
    assert_eq!(s.history_count(Some("key%"), None), 0);
}

#[test]
fn filter_pattern_is_escaped_and_bound() {
    assert_eq!(like_escape("zec_usd"), "zec\\_usd");
    assert_eq!(like_escape("50%\\"), "50\\%\\\\");
    let ops = vec!["SET".to_owned(), "SETL".to_owned()];
    let (sql, binds) = history_where(Some("zec_usd"), Some(&ops));
    assert_eq!(sql, "WHERE key LIKE ? ESCAPE '\\' AND op IN (?, ?)");
    assert_eq!(binds, vec!["%zec\\_usd%".to_owned(), "SET".to_owned(), "SETL".to_owned()]);
    assert_eq!(history_where(None, None), (String::new(), Vec::new()));
    assert_eq!(history_where(None, Some(&Vec::new())).0, "");
    assert_eq!(history_where(Some("a"), None).0, "WHERE key LIKE ? ESCAPE '\\'");
    assert_eq!(history_where(None, Some(&ops)).0, "WHERE op IN (?, ?)");
}

#[test]
fn stored_settings_are_read_back() {
    assert_eq!(read_version(None, None), Some(VersionState::default()));
    assert_eq!(read_version(Some("x"), None), None);
    assert_eq!(read_version(Some("3"), Some("nonsense")).map(|v| v.blocks), Some(BlockSet::default()));
    for v in [0u64, 1, u32::MAX as u64, i64::MAX as u64] {
        assert_eq!(loaded_mark(stored_mark(v)), v);
    }
    assert_eq!(stored_mark(u64::MAX), -1);
    assert_eq!(loaded_mark(-1), 0);
    assert_eq!(loaded_time(1_700_000_000), 1_700_000_000);
    assert_eq!(loaded_time(-5), u32::MAX);
    assert_eq!(loaded_time(i64::MAX), u32::MAX);
    let rows = vec![
        ("zkvid1w".to_owned(), "CREATE".to_owned()),
        ("zkvid1w".to_owned(), "owner".to_owned()),
        ("zkvid1w".to_owned(), "UPDATE".to_owned()),
        ("zkvid1x".to_owned(), "what".to_owned()),
    ];
    let auth = load_auth(&rows);
    assert_eq!(auth.authority_of("zkvid1w"), Some(Authority::Owner));
    assert_eq!(auth.authority_of("zkvid1x"), None);
}

#[test]
fn the_values_are_what_the_history_adds_up_to() {
    let mut s = Snapshot::new();
    promote(&mut s, vec![init(1, 100), op(2, 101, ROOT, Op::Put, "a", Some("1"))]);
    promote(
        &mut s,
        vec![
            op(3, 102, ROOT, Op::Put, "b", Some("2")),
            op_v(4, 103, ROOT, Op::SetL, "a", Some("3"), 1),
            op_v(5, 104, ROOT, Op::Del, "b", None, 1),
        ],
    );
    let mut replayed = std::collections::BTreeMap::new();
    for h in &s.history {
        match (h.op.as_str(), &h.value) {
            ("SET" | "SETL", Some(v)) => {
                replayed.insert(h.key.clone(), v.clone());
            }
            ("DEL", _) => {
                replayed.remove(&h.key);
            }
            _ => {}
        }
    }
    assert_eq!(kv(&s), replayed.into_iter().collect::<Vec<_>>());
}
