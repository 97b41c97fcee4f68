//! Writing: what may be written, over which sequence it is signed, and the
//! request that carries it.

use crate::config::Role;
use crate::internal::history::list_contains;
use crate::internal::payment::{
    built, make_request, text_result, IssueModel, PaymentIssue, PaymentPlan, PlanModel,
    RequestIssue,
};
use crate::internal::pending::{LocalModel, PendingEntry};
use crate::internal::snapshot::{
    a_write_moves_the_mark_of_its_key, accepts, an_accepted_write_is_recorded, fold, follows,
    has_row, lemma_pos_trichotomy, pos_lt, RowModel, SnapModel,
};
use crate::lex::str_equal;
use crate::network::Network;
use crate::protocol::{
    high_water, honored, is_blocked, is_data_op, is_registry_op, op_name, op_names_are_distinct, seq_accepted,
    version_of, write_allowed, AuthModel, AuthRegistry, InitState, KeyModel, Op, PendingModel,
    PendingOp, ReplayResult, Scope, VersionState, MAX_DB_VERSION,
};
use crate::sort::views;
use crate::text::{
    copy_opt, decimal, opt_str, opt_text, push_decimal, push_text, quote, quoted, texts, trim, trimmed,
};
use vstd::prelude::*;
use vstd::string::*;

verus! {

/// Why a write is refused.
#[allow(inconsistent_fields)]
#[derive(Clone, Debug, PartialEq, Eq)]
pub enum WriteError {
    /// This machine holds no seed for the database.
    WatchOnly { db: String },
    /// The signer may not perform the data operation.
    UnauthorizedData { op: String, key: String },
    /// Only an owner may perform the operation.
    OwnerOnly { op: String },
    /// No `INIT` has been broadcast.
    NotInitialized { db: String },
    /// The `INIT` is not deep enough yet.
    Initializing { db: String, done: u32, required: u32 },
    /// The database asks older clients not to write.
    ClientUpgradeRequired { required: u32, supported: u32 },
    /// The wallet cannot pay the fee. `pending_text` is the incoming amount as
    /// it is shown.
    InsufficientFunds {
        available: u64,
        required: u64,
        pending: u64,
        pending_text: String,
        network: Network,
    },
}

/// What is said of a refused write.
pub open spec fn write_error_text(e: WriteError) -> Seq<char> {
    match e {
        WriteError::WatchOnly { db } => quoted(db@)
            + " is a watch-only database; you can't sign writes"@,
        WriteError::UnauthorizedData { op, key } =>
        "this database's signing key is not authorized to "@ + op@ + " "@ + quoted(key@)
            + " (no owner/writer entry, or out of scope)"@,
        WriteError::OwnerOnly { op } => "only an owner can run "@ + op@
            + "; this database's signing key is not an owner"@,
        WriteError::NotInitialized { db } => "database "@ + quoted(db@)
            + " is not yet initialized; broadcast INIT via `zkv init` (or fund this wallet so `zkv sync` can)"@,
        WriteError::Initializing { db, done, required } => "database "@ + quoted(db@)
            + " is not yet initialized (INIT seen at "@ + decimal(done as nat) + "/"@ + decimal(
            required as nat,
        ) + " confirmations; wait "@ + decimal(
            if required >= done {
                (required - done) as nat
            } else {
                0
            },
        ) + " more block(s))"@,
        WriteError::ClientUpgradeRequired { required, supported } =>
        "this database has been upgraded to version "@ + decimal(required as nat)
            + " and blocks writes for clients older than that (this build supports up to version "@
            + decimal(supported as nat) + "); update zkv to the latest version"@,
        WriteError::InsufficientFunds { available, required, pending, pending_text, network } =>
        "Insufficient balance: "@ + decimal(available as nat) + " zats spendable, "@ + decimal(
            required as nat,
        ) + " zats needed (including fee).\n"@ + (if pending > 0 {
            decimal(pending as nat) + " zats incoming ("@ + trimmed(pending_text@)
                + ", confirming). Wait for confirmations and try again."@
        } else {
            "Send funds to this database's funding UA (see `zkv show`) and re-run after they confirm."@
        }),
    }
}

impl WriteError {
    /// What is said of the refused write.
    pub fn message(&self) -> (r: String)
        ensures
            r@ == write_error_text(*self),
    {
        let mut r = String::new();
        match self {
            WriteError::WatchOnly { db } => {
                r.append(quote(db.as_str()).as_str());
                r.append(" is a watch-only database; you can't sign writes");
            },
            WriteError::UnauthorizedData { op, key } => {
                r.append("this database's signing key is not authorized to ");
                r.append(op.as_str());
                r.append(" ");
                r.append(quote(key.as_str()).as_str());
                r.append(" (no owner/writer entry, or out of scope)");
            },
            WriteError::OwnerOnly { op } => {
                r.append("only an owner can run ");
                r.append(op.as_str());
                r.append("; this database's signing key is not an owner");
            },
            WriteError::NotInitialized { db } => {
                r.append("database ");
                r.append(quote(db.as_str()).as_str());
                r.append(
                    " is not yet initialized; broadcast INIT via `zkv init` (or fund this wallet so `zkv sync` can)",
                );
            },
            WriteError::Initializing { db, done, required } => {
                r.append("database ");
                r.append(quote(db.as_str()).as_str());
                r.append(" is not yet initialized (INIT seen at ");
                push_decimal(&mut r, *done as u64);
                r.append("/");
                push_decimal(&mut r, *required as u64);
                r.append(" confirmations; wait ");
                push_decimal(&mut r, required.saturating_sub(*done) as u64);
                r.append(" more block(s))");
            },
            WriteError::ClientUpgradeRequired { required, supported } => {
                r.append("this database has been upgraded to version ");
                push_decimal(&mut r, *required as u64);
                r.append(
                    " and blocks writes for clients older than that (this build supports up to version ",
                );
                push_decimal(&mut r, *supported as u64);
                r.append("); update zkv to the latest version");
            },
            WriteError::InsufficientFunds { available, required, pending, pending_text, network: _ } => {
                r.append("Insufficient balance: ");
                push_decimal(&mut r, *available);
                r.append(" zats spendable, ");
                push_decimal(&mut r, *required);
                r.append(" zats needed (including fee).\n");
                if *pending > 0 {
                    push_decimal(&mut r, *pending);
                    r.append(" zats incoming (");
                    r.append(trim(pending_text.as_str()).as_str());
                    r.append(", confirming). Wait for confirmations and try again.");
                } else {
                    r.append(
                        "Send funds to this database's funding UA (see `zkv show`) and re-run after they confirm.",
                    );
                }
            },
        }
        assert(r@ =~= write_error_text(*self));
        r
    }
}

/// Why a write cannot be prepared.
#[derive(Clone, Debug, PartialEq, Eq)]
pub enum Refusal {
    Write(WriteError),
    Other(String),
}

/// [`Refusal`] as mathematics: what is said, and whether it is a refused write.
pub open spec fn refusal_text(r: Refusal) -> Seq<char> {
    match r {
        Refusal::Write(e) => write_error_text(e),
        Refusal::Other(t) => t@,
    }
}

/// The record of a write that was broadcast.
pub fn record_pending(
    txid: &str,
    op: Op,
    key: &str,
    value: Option<&str>,
    memo: &str,
    now: u64,
) -> (r: PendingEntry)
    ensures
        r@ == broadcast_record(txid@, op, key@, opt_str(value), memo@, now),
{
    PendingEntry {
        txid: txid.to_owned(),
        op: op.as_str().to_owned(),
        key: key.to_owned(),
        value: match value {
            Some(v) => Some(v.to_owned()),
            None => None,
        },
        memo: Some(memo.to_owned()),
        broadcast_at_unix: now,
    }
}

/// Whether `op` is a data operation, which share the sequence of a key.
pub open spec fn is_data_name(op: Seq<char>) -> bool {
    op == "SET"@ || op == "SETL"@ || op == "DEL"@
}

/// Whether `op` is a management operation, which share the sequence of a target.
pub open spec fn is_registry_name(op: Seq<char>) -> bool {
    op == "OWNERSET"@ || op == "OWNERDEL"@ || op == "WRITERSET"@ || op == "WRITERDEL"@
}

/// Which operations are counted.
#[derive(Clone, Copy, Debug, PartialEq, Eq, Structural)]
pub enum OpKind {
    Data,
    Registry,
}

/// Whether an operation is of a kind.
pub open spec fn is_of_kind(op: Seq<char>, kind: OpKind) -> bool {
    match kind {
        OpKind::Data => is_data_name(op),
        OpKind::Registry => is_registry_name(op),
    }
}

fn of_kind(op: &str, kind: OpKind) -> (r: bool)
    ensures
        r == is_of_kind(op@, kind),
{
    match kind {
        OpKind::Data => str_equal(op, "SET") || str_equal(op, "SETL") || str_equal(op, "DEL"),
        OpKind::Registry => str_equal(op, "OWNERSET") || str_equal(op, "OWNERDEL") || str_equal(
            op,
            "WRITERSET",
        ) || str_equal(op, "WRITERDEL"),
    }
}

/// The transaction of a write in flight.
pub open spec fn pending_txid(p: PendingModel) -> Seq<char> {
    match p {
        PendingModel::Put { txid, .. } => txid,
        PendingModel::Del { txid, .. } => txid,
    }
}

/// Whether the wallet has a write in flight in this transaction.
pub open spec fn in_flight_in(s: Seq<PendingModel>, txid: Seq<char>) -> bool {
    exists|i: int| 0 <= i < s.len() && pending_txid(#[trigger] s[i]) == txid
}

/// Whether this client broadcast a write of the kind to the key in this
/// transaction.
pub open spec fn broadcast_in(
    locals: Seq<LocalModel>,
    key: Seq<char>,
    kind: OpKind,
    txid: Seq<char>,
) -> bool {
    exists|i: int|
        0 <= i < locals.len() && (#[trigger] locals[i]).txid == txid && locals[i].key == key
            && is_of_kind(locals[i].op, kind)
}

/// The writes in flight that the wallet knows of a key.
pub open spec fn key_pending(state: Map<Seq<char>, KeyModel>, key: Seq<char>) -> Seq<PendingModel> {
    if state.dom().contains(key) {
        state[key].pending
    } else {
        Seq::empty()
    }
}

/// The transactions of the writes to a key that are in flight.
pub open spec fn inflight_set(
    state: Map<Seq<char>, KeyModel>,
    locals: Seq<LocalModel>,
    key: Seq<char>,
    kind: OpKind,
) -> Set<Seq<char>> {
    Set::new(
        |t: Seq<char>|
            t.len() > 0 && (in_flight_in(key_pending(state, key), t) || broadcast_in(
                locals,
                key,
                kind,
                t,
            )),
    )
}

/// Appends a text to a list unless it is empty or there already.
fn push_once(v: &mut Vec<String>, s: &str)
    requires
        texts(old(v)@).no_duplicates(),
    ensures
        texts(final(v)@).no_duplicates(),
        forall|t: Seq<char>|
            #[trigger] texts(final(v)@).contains(t) <==> texts(old(v)@).contains(t) || (t == s@
                && s@.len() > 0),
        final(v).len() <= old(v).len() + 1,
{
    if !s.is_empty() && !list_contains(v, s) {
        let ghost before = texts(v@);
        push_text(v, s);
        proof {
            assert forall|t: Seq<char>| #[trigger]
                before.push(s@).contains(t) <==> before.contains(t) || t == s@ by {
                if before.contains(t) {
                    let i = choose|i: int| 0 <= i < before.len() && before[i] == t;
                    assert(before.push(s@)[i] == t);
                }
                if t == s@ {
                    assert(before.push(s@)[before.len() as int] == t);
                }
            }
            assert(v.len() == texts(v@).len());
        }
    }
}

/// How many transactions hold writes to a key that are in flight: those that the
/// wallet has seen, and those that this client broadcast.
pub fn inflight_count(result: &ReplayResult, locals: &Vec<PendingEntry>, key: &str, kind: OpKind)
    -> (r: u64)
    requires
        result.wf(),
    ensures
        inflight_set(result.state.map(), views(locals@), key@, kind).finite(),
        r == inflight_set(result.state.map(), views(locals@), key@, kind).len(),
{
    let ghost pend = key_pending(result.state.map(), key@);
    let ghost loc = views(locals@);
    let mut found: Vec<String> = Vec::new();
    assert(texts(found@) =~= Seq::<Seq<char>>::empty());
    match result.state.get(key) {
        None => {},
        Some(ks) => {
            let mut i: usize = 0;
            while i < ks.pending.len()
                invariant
                    i <= ks.pending.len(),
                    ks@.pending == pend,
                    texts(found@).no_duplicates(),
                    forall|t: Seq<char>|
                        #[trigger] texts(found@).contains(t) <==> t.len() > 0 && in_flight_in(
                            pend.take(i as int),
                            t,
                        ),
                decreases ks.pending.len() - i,
            {
                let ghost p = pend[i as int];
                assert(p == ks.pending@[i as int]@);
                let txid = match &ks.pending[i] {
                    PendingOp::Put { txid, .. } => txid,
                    PendingOp::Del { txid, .. } => txid,
                };
                assert(txid@ == pending_txid(p));
                push_once(&mut found, txid.as_str());
                proof {
                    assert forall|t: Seq<char>| #[trigger]
                        in_flight_in(pend.take(i + 1), t) <==> in_flight_in(pend.take(i as int), t)
                            || t == pending_txid(p) by {
                        let a = pend.take(i as int);
                        let b = pend.take(i + 1);
                        if in_flight_in(a, t) {
                            let k = choose|k: int|
                                0 <= k < a.len() && pending_txid(#[trigger] a[k]) == t;
                            assert(b[k] == a[k]);
                        }
                        if t == pending_txid(p) {
                            assert(b[i as int] == p);
                        }
                        if in_flight_in(b, t) {
                            let k = choose|k: int|
                                0 <= k < b.len() && pending_txid(#[trigger] b[k]) == t;
                            if k < i {
                                assert(a[k] == b[k]);
                            }
                        }
                    }
                }
                i += 1;
            }
            assert(pend.take(i as int) =~= pend);
        },
    }
    let mut j: usize = 0;
    while j < locals.len()
        invariant
            j <= locals.len(),
            loc == views(locals@),
            texts(found@).no_duplicates(),
            forall|t: Seq<char>|
                #[trigger] texts(found@).contains(t) <==> t.len() > 0 && (in_flight_in(pend, t)
                    || broadcast_in(loc.take(j as int), key@, kind, t)),
        decreases locals.len() - j,
    {
        let e = &locals[j];
        let ghost m = loc[j as int];
        assert(m == e@);
        let counts: bool = str_equal(e.key.as_str(), key) && of_kind(e.op.as_str(), kind);
        if counts {
            push_once(&mut found, e.txid.as_str());
        }
        proof {
            assert forall|t: Seq<char>| #[trigger]
                broadcast_in(loc.take(j + 1), key@, kind, t) <==> broadcast_in(
                    loc.take(j as int),
                    key@,
                    kind,
                    t,
                ) || (counts && t == m.txid) by {
                let a = loc.take(j as int);
                let b = loc.take(j + 1);
                if broadcast_in(a, key@, kind, t) {
                    let k = choose|k: int|
                        0 <= k < a.len() && (#[trigger] a[k]).txid == t && a[k].key == key@
                            && is_of_kind(a[k].op, kind);
                    assert(b[k] == a[k]);
                }
                if counts && t == m.txid {
                    assert(b[j as int] == m);
                }
                if broadcast_in(b, key@, kind, t) {
                    let k = choose|k: int|
                        0 <= k < b.len() && (#[trigger] b[k]).txid == t && b[k].key == key@
                            && is_of_kind(b[k].op, kind);
                    if k < j {
                        assert(a[k] == b[k]);
                    }
                }
            }
        }
        j += 1;
    }
    proof {
        assert(loc.take(j as int) =~= loc);
        let s = texts(found@).to_set();
        texts(found@).unique_seq_to_set();
        vstd::seq_lib::seq_to_set_is_finite(texts(found@));
        assert(s =~= inflight_set(result.state.map(), loc, key@, kind));
    }
    found.len() as u64
}

/// One data operation of a batch.
#[derive(Clone, Debug, PartialEq, Eq)]
pub struct BatchItem<'a> {
    pub op: Op,
    pub key: &'a str,
    pub value: Option<&'a str>,
}

/// [`BatchItem`] as mathematics.
pub struct ItemModel {
    pub op: Op,
    pub key: Seq<char>,
    pub value: Option<Seq<char>>,
}

impl<'a> View for BatchItem<'a> {
    type V = ItemModel;

    open spec fn view(&self) -> ItemModel {
        ItemModel { op: self.op, key: self.key@, value: opt_str(self.value) }
    }
}

/// One planned operation of a batch.
#[derive(Clone, Debug, PartialEq, Eq)]
pub struct BatchPlanItem {
    pub op: Op,
    pub key: String,
    pub value: Option<String>,
    /// The sequence to sign over.
    pub version: u64,
    /// Whether the key exists once the operations before it have been applied.
    pub key_exists: bool,
}

/// [`BatchPlanItem`] as mathematics.
pub struct BatchPlanModel {
    pub op: Op,
    pub key: Seq<char>,
    pub value: Option<Seq<char>>,
    pub version: u64,
    pub key_exists: bool,
}

impl View for BatchPlanItem {
    type V = BatchPlanModel;

    open spec fn view(&self) -> BatchPlanModel {
        BatchPlanModel {
            op: self.op,
            key: self.key@,
            value: opt_text(self.value),
            version: self.version,
            key_exists: self.key_exists,
        }
    }
}

/// How many of the items write to `key`.
pub open spec fn writes_to(items: Seq<ItemModel>, key: Seq<char>) -> nat
    decreases items.len(),
{
    if items.len() == 0 {
        0
    } else {
        writes_to(items.drop_last(), key) + (if items.last().key == key {
            1nat
        } else {
            0
        })
    }
}

/// Whether `key` exists once the items have been applied: the last of them that
/// writes to it decides, and where none does, what was there before.
pub open spec fn exists_after(items: Seq<ItemModel>, key: Seq<char>, before: bool) -> bool
    decreases items.len(),
{
    if items.len() == 0 {
        before
    } else if items.last().key == key {
        items.last().op is Put || items.last().op is SetL
    } else {
        exists_after(items.drop_last(), key, before)
    }
}

proof fn lemma_writes_bound(items: Seq<ItemModel>, key: Seq<char>)
    ensures
        writes_to(items, key) <= items.len(),
    decreases items.len(),
{
    if items.len() > 0 {
        lemma_writes_bound(items.drop_last(), key);
    }
}

/// How many of the first `n` items write to `key`, and whether it exists after
/// them.
fn look_back(items: &[BatchItem<'_>], n: usize, key: &str, before: bool) -> (r: (u64, bool))
    requires
        n <= items.len(),
    ensures
        r.0 == writes_to(views(items@).take(n as int), key@),
        r.1 == exists_after(views(items@).take(n as int), key@, before),
{
    let ghost all = views(items@);
    let mut count: u64 = 0;
    let mut there: bool = before;
    let mut i: usize = 0;
    while i < n
        invariant
            i <= n <= items.len(),
            all == views(items@),
            count == writes_to(all.take(i as int), key@),
            count <= i,
            there == exists_after(all.take(i as int), key@, before),
        decreases n - i,
    {
        assert(all.take(i + 1).drop_last() =~= all.take(i as int));
        assert(all.take(i + 1).last() == items@[i as int]@);
        if str_equal(items[i].key, key) {
            count += 1;
            there = matches!(items[i].op, Op::Put | Op::SetL);
        }
        i += 1;
    }
    (count, there)
}

/// Plans the sequences of a batch. `base` gives the sequence for the first write
/// to a key; each further write to it in the batch takes the next one. Whether a
/// key exists is judged as a reader will: after the operations before it.
pub fn sequence_versions<F: Fn(&str) -> u64>(
    items: &[BatchItem<'_>],
    base: F,
    confirmed_exists: &Vec<String>,
) -> (r: Vec<BatchPlanItem>)
    requires
        forall|i: int| 0 <= i < items.len() ==> base.requires(((#[trigger] items@[i]).key,)),
        forall|i: int, b: u64|
            0 <= i < items.len() && #[trigger] base.ensures((items@[i].key,), b) ==> b + items.len()
                <= u64::MAX,
    ensures
        r.len() == items.len(),
        forall|i: int|
            0 <= i < r.len() ==> {
                let item = views(items@)[i];
                let earlier = views(items@).take(i);
                let p = (#[trigger] r@[i])@;
                &&& p.op == item.op
                &&& p.key == item.key
                &&& p.value == item.value
                &&& exists|b: u64|
                    #[trigger] base.ensures((items@[i].key,), b) && p.version == b + writes_to(
                        earlier,
                        item.key,
                    )
                &&& p.key_exists == exists_after(
                    earlier,
                    item.key,
                    texts(confirmed_exists@).contains(item.key),
                )
            },
{
    let mut plan: Vec<BatchPlanItem> = Vec::new();
    let mut i: usize = 0;
    while i < items.len()
        invariant
            i <= items.len(),
            plan.len() == i,
            forall|k: int| 0 <= k < items.len() ==> base.requires(((#[trigger] items@[k]).key,)),
            forall|k: int, b: u64|
                0 <= k < items.len() && #[trigger] base.ensures((items@[k].key,), b) ==> b
                    + items.len() <= u64::MAX,
            forall|j: int|
                0 <= j < i ==> {
                    let item = views(items@)[j];
                    let earlier = views(items@).take(j);
                    let p = (#[trigger] plan@[j])@;
                    &&& p.op == item.op
                    &&& p.key == item.key
                    &&& p.value == item.value
                    &&& exists|b: u64|
                        #[trigger] base.ensures((items@[j].key,), b) && p.version == b + writes_to(
                            earlier,
                            item.key,
                        )
                    &&& p.key_exists == exists_after(
                        earlier,
                        item.key,
                        texts(confirmed_exists@).contains(item.key),
                    )
                },
        decreases items.len() - i,
    {
        let item = &items[i];
        let before: bool = list_contains(confirmed_exists, item.key);
        let (seen, there) = look_back(items, i, item.key, before);
        proof {
            lemma_writes_bound(views(items@).take(i as int), item.key@);
        }
        let first: u64 = base(item.key);
        let value = match item.value {
            Some(v) => Some(v.to_owned()),
            None => None,
        };
        plan.push(
            BatchPlanItem {
                op: item.op,
                key: item.key.to_owned(),
                value,
                version: first + seen,
                key_exists: there,
            },
        );
        i += 1;
    }
    plan
}

proof fn lemma_writes_grow(items: Seq<ItemModel>, i: int, j: int, key: Seq<char>)
    requires
        0 <= i <= j <= items.len(),
    ensures
        writes_to(items.take(i), key) <= writes_to(items.take(j), key),
    decreases j - i,
{
    if i < j {
        lemma_writes_grow(items, i, j - 1, key);
        assert(items.take(j).drop_last() =~= items.take(j - 1));
    }
}

/// Refuses a write to a database that is not initialized.
pub fn ensure_initialized(db_name: &str, init: &InitState) -> (r: Result<(), WriteError>)
    ensures
        r is Ok <==> init is Initialized,
        match *init {
            InitState::Initialized => true,
            InitState::Initializing { done, required } => r matches Err(
                WriteError::Initializing { db, done: d, required: q },
            ) && db@ == db_name@ && d == done && q == required,
            InitState::Uninitialized => r matches Err(WriteError::NotInitialized { db }) && db@
                == db_name@,
        },
{
    match init {
        InitState::Initialized => Ok(()),
        InitState::Initializing { done, required } => Err(
            WriteError::Initializing {
                db: db_name.to_owned(),
                done: *done,
                required: *required,
            },
        ),
        InitState::Uninitialized => Err(WriteError::NotInitialized { db: db_name.to_owned() }),
    }
}

/// What is said of a write to a sealed database.
pub open spec fn finalized_text(db: Seq<char>) -> Seq<char> {
    "database "@ + quoted(db) + " is finalized; no further writes are possible"@
}

/// Refuses a write to a sealed database.
pub fn ensure_not_finalized(db_name: &str, finalized: bool) -> (r: Result<(), String>)
    ensures
        r is Err <==> finalized,
        r matches Err(e) ==> e@ == finalized_text(db_name@),
{
    if finalized {
        let mut e = String::new();
        e.append("database ");
        e.append(quote(db_name).as_str());
        e.append(" is finalized; no further writes are possible");
        assert(e@ =~= finalized_text(db_name@));
        return Err(e);
    }
    Ok(())
}

/// Refuses a write that the database asks this client not to make.
pub fn ensure_client_supported(version: &VersionState) -> (r: Result<(), WriteError>)
    ensures
        r is Err <==> is_blocked(*version, version.blocks.write),
        r matches Err(e) ==> e == (WriteError::ClientUpgradeRequired {
            required: version.version,
            supported: MAX_DB_VERSION,
        }),
{
    if version.blocks_write() {
        return Err(
            WriteError::ClientUpgradeRequired {
                required: version.version,
                supported: MAX_DB_VERSION,
            },
        );
    }
    Ok(())
}

/// Whether a database can be written to at all: initialized, not sealed, and not
/// closed to this client.
pub open spec fn is_open(result: ReplayResult) -> bool {
    &&& result.init is Initialized
    &&& !result.finalized
    &&& !is_blocked(result.version, result.version.blocks.write)
}

/// What is said of a database that cannot be written to.
pub open spec fn closed_text(db: Seq<char>, result: ReplayResult) -> Seq<char>
    recommends
        !is_open(result),
{
    match result.init {
        InitState::Uninitialized => "database "@ + quoted(db)
            + " is not yet initialized; broadcast INIT via `zkv init` (or fund this wallet so `zkv sync` can)"@,
        InitState::Initializing { done, required } => "database "@ + quoted(db)
            + " is not yet initialized (INIT seen at "@ + decimal(done as nat) + "/"@ + decimal(
            required as nat,
        ) + " confirmations; wait "@ + decimal(
            if required >= done {
                (required - done) as nat
            } else {
                0
            },
        ) + " more block(s))"@,
        InitState::Initialized => if result.finalized {
            finalized_text(db)
        } else {
            "this database has been upgraded to version "@ + decimal(result.version.version as nat)
                + " and blocks writes for clients older than that (this build supports up to version "@
                + decimal(MAX_DB_VERSION as nat) + "); update zkv to the latest version"@
        },
    }
}

/// Refuses a write to a database that cannot be written to.
pub fn ensure_open(db_name: &str, result: &ReplayResult) -> (r: Result<(), Refusal>)
    ensures
        r is Ok <==> is_open(*result),
        r matches Err(e) ==> refusal_text(e) == closed_text(db_name@, *result),
{
    match ensure_initialized(db_name, &result.init) {
        Err(e) => {
            return Err(Refusal::Write(e));
        },
        Ok(_) => {},
    }
    match ensure_not_finalized(db_name, result.finalized) {
        Err(e) => {
            return Err(Refusal::Other(e));
        },
        Ok(_) => {},
    }
    match ensure_client_supported(&result.version) {
        Err(e) => Err(Refusal::Write(e)),
        Ok(_) => Ok(()),
    }
}

/// What this machine holds of a database: whether it has the seed, and the
/// identity and addresses that belong to it.
#[derive(Clone, Debug, PartialEq, Eq)]
pub struct Access {
    pub role: Role,
    /// Whether the account of the wallet is derived from a seed.
    pub derived: bool,
    /// The canonical identity of the signing key.
    pub signer: String,
    pub zkv_addr: String,
    /// The address that writes are sent to.
    pub recipient_ua: String,
}

/// Refuses to sign without a seed.
pub fn prepare_common(db_name: &str, access: &Access) -> (r: Result<(), Refusal>)
    ensures
        r is Ok <==> access.role is Admin && access.derived,
        r matches Err(e) ==> (if access.role is Watch {
            e matches Refusal::Write(WriteError::WatchOnly { db }) && db@ == db_name@
        } else {
            e matches Refusal::Other(t) && t@ == "watch-only account can't sign"@
        }),
{
    if matches!(access.role, Role::Watch) {
        return Err(Refusal::Write(WriteError::WatchOnly { db: db_name.to_owned() }));
    }
    if !access.derived {
        return Err(Refusal::Other("watch-only account can't sign".to_owned()));
    }
    Ok(())
}

/// Whether a key has a confirmed value.
pub open spec fn has_value(state: Map<Seq<char>, KeyModel>, key: Seq<char>) -> bool {
    state.dom().contains(key) && state[key].confirmed is Some
}

fn key_has_value(result: &ReplayResult, key: &str) -> (r: bool)
    requires
        result.wf(),
    ensures
        r == has_value(result.state.map(), key@),
{
    match result.state.get(key) {
        Some(ks) => ks.confirmed.is_some(),
        None => false,
    }
}

/// The sequence for the next write to a key: past everything confirmed and
/// everything in flight.
pub open spec fn next_version(result: &ReplayResult, locals: Seq<LocalModel>, key: Seq<char>) -> int {
    high_water(result.kv_versions.map(), key) + inflight_set(
        result.state.map(),
        locals,
        key,
        OpKind::Data,
    ).len()
}

/// The sequence for the next management operation on a target.
pub open spec fn next_target_version(
    result: &ReplayResult,
    locals: Seq<LocalModel>,
    target: Seq<char>,
) -> int {
    high_water(result.target_versions.map(), target) + inflight_set(
        result.state.map(),
        locals,
        target,
        OpKind::Registry,
    ).len()
}

/// A write that is ready to be signed.
#[derive(Clone, Debug, PartialEq, Eq)]
pub struct WritePlan {
    pub op: Op,
    /// The key, or the target.
    pub key: String,
    pub value: Option<String>,
    /// The sequence to sign over.
    pub version: u64,
}

/// Whether a data write was prepared as it should be: on an open database, with a
/// seed to sign with and within the authority of the signer, over the next
/// sequence; else the refusal says which of these is missing.
pub open spec fn is_prepared(
    r: Result<WritePlan, Refusal>,
    db: Seq<char>,
    result: ReplayResult,
    access: Access,
    locals: Seq<LocalModel>,
    op: Op,
    key: Seq<char>,
    value: Option<Seq<char>>,
) -> bool {
    &&& r is Ok <==> is_open(result) && access.role is Admin && access.derived && write_allowed(
        result.auth@,
        access.signer@,
        op,
        has_value(result.state.map(), key),
    )
    &&& r matches Ok(p) ==> p.op == op && p.key@ == key && opt_text(p.value) == value && p.version
        == next_version(&result, locals, key)
    &&& r matches Err(e) ==> (if !is_open(result) {
        refusal_text(e) == closed_text(db, result)
    } else if access.role is Watch {
        e matches Refusal::Write(WriteError::WatchOnly { db: d }) && d@ == db
    } else if !access.derived {
        refusal_text(e) == "watch-only account can't sign"@
    } else {
        e matches Refusal::Write(WriteError::UnauthorizedData { op: o, key: k }) && o@ == op_name(
            op,
        ) && k@ == key
    })
}

/// Checks a data write and plans its sequence.
pub fn prepare(
    db_name: &str,
    result: &ReplayResult,
    access: &Access,
    locals: &Vec<PendingEntry>,
    op: Op,
    key: &str,
    value: Option<&str>,
) -> (r: Result<WritePlan, Refusal>)
    requires
        result.wf(),
        next_version(result, views(locals@), key@) <= u64::MAX,
    ensures
        is_prepared(r, db_name@, *result, *access, views(locals@), op, key@, opt_str(value)),
{
    match ensure_open(db_name, result) {
        Err(e) => {
            return Err(e);
        },
        Ok(_) => {},
    }
    match prepare_common(db_name, access) {
        Err(e) => {
            return Err(e);
        },
        Ok(_) => {},
    }
    let key_exists = key_has_value(result, key);
    if !result.auth.may_write(access.signer.as_str(), op, key_exists) {
        return Err(
            Refusal::Write(
                WriteError::UnauthorizedData { op: op.as_str().to_owned(), key: key.to_owned() },
            ),
        );
    }
    let flying: u64 = inflight_count(result, locals, key, OpKind::Data);
    let version: u64 = version_of(&result.kv_versions, key) + flying;
    let value = match value {
        Some(v) => Some(v.to_owned()),
        None => None,
    };
    Ok(WritePlan { op, key: key.to_owned(), value, version })
}

/// Whether a management operation was prepared as it should be: on an open database,
/// with a seed to sign with, by an owner, on a target that is an identity, over the
/// next sequence of that target; else the refusal says which of these is missing.
pub open spec fn is_management_prepared(
    r: Result<WritePlan, Refusal>,
    db: Seq<char>,
    result: ReplayResult,
    access: Access,
    locals: Seq<LocalModel>,
    op: Op,
    target_text: Seq<char>,
    target: Option<Seq<char>>,
    scope: Option<Seq<char>>,
) -> bool {
    &&& r is Ok <==> is_open(result) && access.role is Admin && access.derived
        && result.auth@.owners.contains(access.signer@) && (op is Finalize || target is Some) && (
    op is WriterSet ==> scope is Some)
    &&& r matches Ok(p) ==> p.op == op && p.key@ == management_key(op, target) && opt_text(p.value)
        == (if op is WriterSet {
        scope
    } else {
        None
    }) && p.version == next_target_version(&result, locals, management_key(op, target))
    &&& r matches Err(e) ==> (if !is_open(result) {
        refusal_text(e) == closed_text(db, result)
    } else if access.role is Watch {
        e matches Refusal::Write(WriteError::WatchOnly { db: d }) && d@ == db
    } else if !access.derived {
        refusal_text(e) == "watch-only account can't sign"@
    } else if !result.auth@.owners.contains(access.signer@) {
        e matches Refusal::Write(WriteError::OwnerOnly { op: o }) && o@ == op_name(op)
    } else if !(op is Finalize) && target is None {
        refusal_text(e) == "target "@ + quoted(target_text)
            + " is not a valid pubkey (expected a zkvid1… key or compressed hex)"@
    } else {
        refusal_text(e) == "WRITERSET requires a scope"@
    })
}

/// Checks a management operation and plans its sequence. `target` is the
/// canonical identity that `target_text` names, if it names one; `FINALIZE` has
/// no target.
pub fn prepare_management(
    db_name: &str,
    result: &ReplayResult,
    access: &Access,
    locals: &Vec<PendingEntry>,
    op: Op,
    target_text: &str,
    target: Option<&str>,
    scope: Option<&str>,
) -> (r: Result<WritePlan, Refusal>)
    requires
        result.wf(),
        is_registry_op(op) || op is Finalize,
        next_target_version(
            result,
            views(locals@),
            management_key(op, opt_str(target)),
        ) <= u64::MAX,
    ensures
        is_management_prepared(
            r,
            db_name@,
            *result,
            *access,
            views(locals@),
            op,
            target_text@,
            opt_str(target),
            opt_str(scope),
        ),
{
    match ensure_open(db_name, result) {
        Err(e) => {
            return Err(e);
        },
        Ok(_) => {},
    }
    match prepare_common(db_name, access) {
        Err(e) => {
            return Err(e);
        },
        Ok(_) => {},
    }
    if !result.auth.is_owner(access.signer.as_str()) {
        return Err(Refusal::Write(WriteError::OwnerOnly { op: op.as_str().to_owned() }));
    }
    let key: String = if matches!(op, Op::Finalize) {
        String::new()
    } else {
        match target {
            Some(t) => t.to_owned(),
            None => {
                let mut e = String::new();
                e.append("target ");
                e.append(quote(target_text).as_str());
                e.append(" is not a valid pubkey (expected a zkvid1… key or compressed hex)");
                assert(e@ =~= "target "@ + quoted(target_text@)
                    + " is not a valid pubkey (expected a zkvid1… key or compressed hex)"@);
                return Err(Refusal::Other(e));
            },
        }
    };
    let value: Option<String> = if matches!(op, Op::WriterSet) {
        match scope {
            Some(s) => Some(s.to_owned()),
            None => {
                return Err(Refusal::Other("WRITERSET requires a scope".to_owned()));
            },
        }
    } else {
        None
    };
    let flying: u64 = inflight_count(result, locals, key.as_str(), OpKind::Registry);
    let version: u64 = version_of(&result.target_versions, key.as_str()) + flying;
    Ok(WritePlan { op, key, value, version })
}

/// The key under which a management operation stands: its target.
pub open spec fn management_key(op: Op, target: Option<Seq<char>>) -> Seq<char> {
    if op is Finalize {
        Seq::empty()
    } else {
        match target {
            Some(t) => t,
            None => Seq::empty(),
        }
    }
}

/// A write that is ready to be broadcast.
#[derive(Clone, Debug, PartialEq, Eq)]
pub struct PreparedWrite {
    pub zkv_addr: String,
    pub recipient_ua: String,
    pub memo_text: String,
    /// The request, as a URI.
    pub request: String,
}

/// The payment that carries a memo: no value, only the memo.
pub open spec fn memo_payment(recipient: Seq<char>, memo: Seq<char>) -> PlanModel {
    PlanModel { address: recipient, zats: 0, memo: Some(memo) }
}

/// What is said of a write that cannot be requested.
pub open spec fn request_fault(e: Result<IssueModel, Seq<char>>) -> Seq<char> {
    match e {
        Ok(IssueModel::BadAddress(t)) => "bad recipient UA: "@ + t,
        Ok(IssueModel::BadMemo(t)) => t,
        Ok(IssueModel::Refused(t)) => "failed to build payment: "@ + t,
        Err(t) => "bad tx request: "@ + t,
    }
}

/// Says why a write cannot be requested.
pub fn request_fault_text(e: RequestIssue) -> (r: String)
    ensures
        r@ == request_fault(
            match e {
                RequestIssue::Payment(i) => Ok(i@),
                RequestIssue::Request(t) => Err(t@),
            },
        ),
{
    let mut r = String::new();
    match e {
        RequestIssue::Payment(PaymentIssue::BadAddress(t)) => {
            r.append("bad recipient UA: ");
            r.append(t.as_str());
            assert(r@ =~= "bad recipient UA: "@ + t@);
        },
        RequestIssue::Payment(PaymentIssue::BadMemo(t)) => {
            r.append(t.as_str());
            assert(r@ =~= t@);
        },
        RequestIssue::Payment(PaymentIssue::Refused(t)) => {
            r.append("failed to build payment: ");
            r.append(t.as_str());
            assert(r@ =~= "failed to build payment: "@ + t@);
        },
        RequestIssue::Request(t) => {
            r.append("bad tx request: ");
            r.append(t.as_str());
            assert(r@ =~= "bad tx request: "@ + t@);
        },
    }
    r
}

/// The outcome of building a request, with its fault as a text.
pub open spec fn built_text(plans: Seq<PlanModel>) -> Result<Seq<char>, Seq<char>> {
    match built(plans) {
        Ok(uri) => Ok(uri),
        Err(e) => Err(request_fault(e)),
    }
}

/// The request for one write.
pub fn build_request(recipient_ua: &str, memo_text: &str) -> (r: Result<String, String>)
    ensures
        text_result(r) == built_text(seq![memo_payment(recipient_ua@, memo_text@)]),
{
    let mut plans: Vec<PaymentPlan> = Vec::new();
    plans.push(
        PaymentPlan {
            address: recipient_ua.to_owned(),
            zats: 0,
            memo: Some(memo_text.to_owned()),
        },
    );
    assert(views(plans@) =~= seq![memo_payment(recipient_ua@, memo_text@)]);
    match make_request(&plans) {
        Ok(uri) => Ok(uri),
        Err(e) => Err(request_fault_text(e)),
    }
}

/// A signed write, ready to be broadcast.
pub fn finish_write(access: &Access, memo_text: String) -> (r: Result<PreparedWrite, String>)
    ensures
        match built_text(seq![memo_payment(access.recipient_ua@, memo_text@)]) {
            Ok(uri) => r matches Ok(p) && p.zkv_addr@ == access.zkv_addr@ && p.recipient_ua@
                == access.recipient_ua@ && p.memo_text@ == memo_text@ && p.request@ == uri,
            Err(e) => r matches Err(t) && t@ == e,
        },
{
    match build_request(access.recipient_ua.as_str(), memo_text.as_str()) {
        Ok(request) => Ok(
            PreparedWrite {
                zkv_addr: access.zkv_addr.clone(),
                recipient_ua: access.recipient_ua.clone(),
                memo_text,
                request,
            },
        ),
        Err(e) => Err(e),
    }
}

/// The signed `INIT`, ready to be broadcast. It needs no open database: it is
/// what opens one.
pub fn prepare_init(db_name: &str, access: &Access, memo_text: String) -> (r: Result<
    PreparedWrite,
    Refusal,
>)
    ensures
        r is Ok <==> access.role is Admin && access.derived && built_text(
            seq![memo_payment(access.recipient_ua@, memo_text@)],
        ) is Ok,
        r matches Ok(p) ==> p.zkv_addr@ == access.zkv_addr@ && p.recipient_ua@
            == access.recipient_ua@ && p.memo_text@ == memo_text@ && built_text(
            seq![memo_payment(access.recipient_ua@, memo_text@)],
        ) == Ok::<Seq<char>, Seq<char>>(p.request@),
        r matches Err(e) ==> (if access.role is Watch {
            e matches Refusal::Write(WriteError::WatchOnly { db }) && db@ == db_name@
        } else if !access.derived {
            refusal_text(e) == "watch-only account can't sign"@
        } else {
            built_text(seq![memo_payment(access.recipient_ua@, memo_text@)]) == Err::<
                Seq<char>,
                Seq<char>,
            >(refusal_text(e))
        }),
{
    match prepare_common(db_name, access) {
        Err(e) => {
            return Err(e);
        },
        Ok(_) => {},
    }
    match finish_write(access, memo_text) {
        Ok(p) => Ok(p),
        Err(e) => Err(Refusal::Other(e)),
    }
}

/// A batch that is ready to be broadcast as one transaction.
#[derive(Clone, Debug, PartialEq, Eq)]
pub struct PreparedBatch {
    pub zkv_addr: String,
    pub recipient_ua: String,
    /// The operations, in order.
    pub plan_ops: Vec<(Op, String, Option<String>)>,
    /// The signed memo of each.
    pub memo_texts: Vec<String>,
    /// The request, as a URI.
    pub request: String,
}

/// What is planned for one operation of a batch.
pub open spec fn is_planned(
    p: BatchPlanModel,
    items: Seq<ItemModel>,
    i: int,
    result: &ReplayResult,
    locals: Seq<LocalModel>,
) -> bool {
    let item = items[i];
    let earlier = items.take(i);
    &&& p.op == item.op
    &&& p.key == item.key
    &&& p.value == item.value
    &&& p.version == next_version(result, locals, item.key) + writes_to(earlier, item.key)
    &&& p.key_exists == exists_after(earlier, item.key, has_value(result.state.map(), item.key))
}

/// Two writes to one key in a batch never share a sequence: the later one has the
/// higher.
pub proof fn later_write_has_higher_sequence(
    items: Seq<ItemModel>,
    i: int,
    j: int,
    p: BatchPlanModel,
    q: BatchPlanModel,
    result: &ReplayResult,
    locals: Seq<LocalModel>,
)
    requires
        0 <= i < j < items.len(),
        items[i].key == items[j].key,
        is_planned(p, items, i, result, locals),
        is_planned(q, items, j, result, locals),
    ensures
        p.version < q.version,
{
    let key = items[i].key;
    lemma_writes_grow(items, i + 1, j, key);
    assert(items.take(i + 1).drop_last() =~= items.take(i));
    assert(items.take(i + 1).last() == items[i]);
}

/// A write that was prepared is one that readers honor, as long as no more writes
/// to its key are in flight than the window allows: it is authorized, and its
/// sequence is accepted.
pub proof fn prepared_write_is_honored(
    result: &ReplayResult,
    locals: Seq<LocalModel>,
    signer: Seq<char>,
    root: Seq<char>,
    op: Op,
    key: Seq<char>,
    version: u64,
    window: u64,
)
    requires
        is_data_op(op),
        is_open(*result),
        write_allowed(result.auth@, signer, op, has_value(result.state.map(), key)),
        version == next_version(result, locals, key),
        inflight_set(result.state.map(), locals, key, OpKind::Data).len() <= window,
    ensures
        honored(
            op,
            signer,
            root,
            result.init is Initialized,
            result.auth@,
            result.finalized,
            has_value(result.state.map(), key),
        ),
        seq_accepted(
            op,
            key,
            version,
            result.kv_versions.map(),
            result.target_versions.map(),
            window,
        ),
{
}

/// The same holds of a management operation that was prepared.
pub proof fn prepared_management_is_honored(
    result: &ReplayResult,
    locals: Seq<LocalModel>,
    signer: Seq<char>,
    root: Seq<char>,
    op: Op,
    target: Seq<char>,
    version: u64,
    window: u64,
)
    requires
        is_registry_op(op) || op is Finalize,
        is_open(*result),
        result.auth@.owners.contains(signer),
        version == next_target_version(result, locals, target),
        inflight_set(result.state.map(), locals, target, OpKind::Registry).len() <= window,
    ensures
        honored(
            op,
            signer,
            root,
            result.init is Initialized,
            result.auth@,
            result.finalized,
            has_value(result.state.map(), target),
        ),
        seq_accepted(
            op,
            target,
            version,
            result.kv_versions.map(),
            result.target_versions.map(),
            window,
        ),
{
}

/// The keys of a batch that have a confirmed value.
fn confirmed_keys(items: &[BatchItem<'_>], result: &ReplayResult) -> (r: Vec<String>)
    requires
        result.wf(),
    ensures
        forall|i: int|
            0 <= i < items.len() ==> (texts(r@).contains((#[trigger] items@[i]).key@) <==> has_value(
                result.state.map(),
                items@[i].key@,
            )),
{
    let mut r: Vec<String> = Vec::new();
    let mut i: usize = 0;
    assert(texts(r@) =~= Seq::<Seq<char>>::empty());
    while i < items.len()
        invariant
            i <= items.len(),
            result.wf(),
            forall|k: int|
                0 <= k < r.len() ==> has_value(result.state.map(), #[trigger] texts(r@)[k]),
            forall|k: int|
                0 <= k < i && has_value(result.state.map(), (#[trigger] items@[k]).key@) ==> texts(
                    r@,
                ).contains(items@[k].key@),
        decreases items.len() - i,
    {
        let ghost before = texts(r@);
        if key_has_value(result, items[i].key) {
            push_text(&mut r, items[i].key);
            proof {
                let key = items@[i as int].key@;
                assert(texts(r@) == before.push(key));
                assert(texts(r@)[before.len() as int] == key);
                assert forall|k: int| 0 <= k < i && has_value(
                    result.state.map(),
                    (#[trigger] items@[k]).key@,
                ) implies texts(r@).contains(items@[k].key@) by {
                    let t = items@[k].key@;
                    let j = choose|j: int| 0 <= j < before.len() && before[j] == t;
                    assert(texts(r@)[j] == t);
                }
                assert forall|k: int| 0 <= k < r.len() implies has_value(
                    result.state.map(),
                    #[trigger] texts(r@)[k],
                ) by {
                    if k < before.len() {
                        assert(texts(r@)[k] == before[k]);
                    }
                }
            }
        }
        i += 1;
    }
    proof {
        assert forall|i: int| 0 <= i < items.len() implies (texts(r@).contains(
            (#[trigger] items@[i]).key@,
        ) <==> has_value(result.state.map(), items@[i].key@)) by {
            let t = items@[i].key@;
            if texts(r@).contains(t) {
                let k = choose|k: int| 0 <= k < texts(r@).len() && texts(r@)[k] == t;
                assert(has_value(result.state.map(), texts(r@)[k]));
            }
        }
    }
    r
}

/// Checks that a batch can be written, and plans the sequence of each of its
/// operations.
pub fn plan_batch(
    db_name: &str,
    result: &ReplayResult,
    access: &Access,
    locals: &Vec<PendingEntry>,
    items: &[BatchItem<'_>],
) -> (r: Result<Vec<BatchPlanItem>, Refusal>)
    requires
        result.wf(),
        forall|i: int|
            0 <= i < items.len() ==> next_version(result, views(locals@), (#[trigger] items@[i]).key@)
                + items.len() <= u64::MAX,
    ensures
        r is Ok <==> items.len() > 0 && is_open(*result) && access.role is Admin
            && access.derived,
        r matches Ok(plan) ==> plan.len() == items.len() && forall|i: int|
            0 <= i < plan.len() ==> is_planned(
                (#[trigger] plan@[i])@,
                views(items@),
                i,
                result,
                views(locals@),
            ),
        r matches Err(e) ==> (if items.len() == 0 {
            refusal_text(e) == "empty batch: nothing to write"@
        } else if !is_open(*result) {
            refusal_text(e) == closed_text(db_name@, *result)
        } else if access.role is Watch {
            e matches Refusal::Write(WriteError::WatchOnly { db }) && db@ == db_name@
        } else {
            refusal_text(e) == "watch-only account can't sign"@
        }),
{
    if items.len() == 0 {
        return Err(Refusal::Other("empty batch: nothing to write".to_owned()));
    }
    match ensure_open(db_name, result) {
        Err(e) => {
            return Err(e);
        },
        Ok(_) => {},
    }
    match prepare_common(db_name, access) {
        Err(e) => {
            return Err(e);
        },
        Ok(_) => {},
    }
    let confirmed = confirmed_keys(items, result);
    let base = |key: &str| -> (v: u64)
        requires
            next_version(result, views(locals@), key@) <= u64::MAX,
        ensures
            v == next_version(result, views(locals@), key@),
        {
            let flying: u64 = inflight_count(result, locals, key, OpKind::Data);
            version_of(&result.kv_versions, key) + flying
        };
    let plan = sequence_versions(items, base, &confirmed);
    proof {
        assert forall|i: int| 0 <= i < plan.len() implies is_planned(
            (#[trigger] plan@[i])@,
            views(items@),
            i,
            result,
            views(locals@),
        ) by {
            let b = choose|b: u64|
                #[trigger] base.ensures((items@[i].key,), b) && plan@[i]@.version == b + writes_to(
                    views(items@).take(i),
                    views(items@)[i].key,
                );
            assert(b == next_version(result, views(locals@), items@[i].key@));
            assert(texts(confirmed@).contains(items@[i].key@) <==> has_value(
                result.state.map(),
                items@[i].key@,
            ));
        }
    }
    Ok(plan)
}

/// Whether every operation of the first `n` is allowed and was signed.
pub open spec fn batch_clear(
    plan: Seq<BatchPlanModel>,
    memos: Seq<Result<Seq<char>, Seq<char>>>,
    auth: AuthModel,
    signer: Seq<char>,
    n: int,
) -> bool {
    forall|i: int|
        0 <= i < n ==> write_allowed(auth, signer, (#[trigger] plan[i]).op, plan[i].key_exists)
            && memos[i] is Ok
}

/// The payments that carry the first `n` memos.
pub open spec fn batch_payments(
    recipient: Seq<char>,
    memos: Seq<Result<Seq<char>, Seq<char>>>,
    n: int,
) -> Seq<PlanModel> {
    Seq::new(n as nat, |i: int| memo_payment(recipient, memos[i]->Ok_0))
}

/// The memos of a batch as mathematics.
pub open spec fn memo_results(memos: Seq<Result<String, String>>) -> Seq<
    Result<Seq<char>, Seq<char>>,
> {
    memos.map_values(|r: Result<String, String>| text_result(r))
}

/// Whether a batch was put together as it should be: with every planned operation
/// and its memo, in order, where all are allowed, signed and paid for; else the
/// refusal is that of the first operation that is not, or of the payments.
pub open spec fn is_batch_prepared(
    r: Result<PreparedBatch, Refusal>,
    auth: AuthModel,
    access: Access,
    p: Seq<BatchPlanModel>,
    m: Seq<Result<Seq<char>, Seq<char>>>,
) -> bool {
    let n = p.len() as int;
    let pays = batch_payments(access.recipient_ua@, m, n);
    &&& r is Ok <==> batch_clear(p, m, auth, access.signer@, n) && built_text(pays) is Ok
    &&& r matches Ok(b) ==> {
        &&& built_text(pays) == Ok::<Seq<char>, Seq<char>>(b.request@)
        &&& b.zkv_addr@ == access.zkv_addr@
        &&& b.recipient_ua@ == access.recipient_ua@
        &&& b.plan_ops.len() == n
        &&& b.memo_texts.len() == n
        &&& forall|i: int|
            0 <= i < n ==> (#[trigger] b.plan_ops@[i]).0 == p[i].op && b.plan_ops@[i].1@ == p[i].key
                && opt_text(b.plan_ops@[i].2) == p[i].value
        &&& forall|i: int| 0 <= i < n ==> m[i] == Ok::<Seq<char>, Seq<char>>(
            (#[trigger] b.memo_texts@[i])@,
        )
    }
    &&& r matches Err(e) ==> (exists|i: int|
        0 <= i < n && #[trigger] batch_stops_at(p, m, auth, &access, i, e)) || (batch_clear(
        p,
        m,
        auth,
        access.signer@,
        n,
    ) && built_text(pays) == Err::<Seq<char>, Seq<char>>(refusal_text(e)))
}

/// Puts a signed batch together. `memos` holds the signed memo of each planned
/// operation, or why it could not be made. The first operation that is not
/// allowed, was not signed or cannot be paid for refuses the batch.
pub fn prepare_batch(
    auth: &AuthRegistry,
    access: &Access,
    plan: &Vec<BatchPlanItem>,
    memos: &Vec<Result<String, String>>,
) -> (r: Result<PreparedBatch, Refusal>)
    requires
        auth.wf(),
        plan.len() == memos.len(),
    ensures
        is_batch_prepared(r, auth@, *access, views(plan@), memo_results(memos@)),
{
    let ghost p = views(plan@);
    let ghost m = memo_results(memos@);
    let ghost n = plan.len() as int;
    let mut payments: Vec<PaymentPlan> = Vec::new();
    let mut memo_texts: Vec<String> = Vec::new();
    let mut plan_ops: Vec<(Op, String, Option<String>)> = Vec::new();
    let mut i: usize = 0;
    while i < plan.len()
        invariant
            i <= plan.len(),
            plan.len() == memos.len(),
            n == plan.len(),
            auth.wf(),
            p == views(plan@),
            m == memo_results(memos@),
            batch_clear(p, m, auth@, access.signer@, i as int),
            crate::internal::payment::first_issue(
                batch_payments(access.recipient_ua@, m, i as int),
            ) is None,
            payments.len() == i,
            memo_texts.len() == i,
            plan_ops.len() == i,
            forall|k: int| 0 <= k < i ==> (#[trigger] payments@[k]).zats == 0,
            forall|k: int|
                0 <= k < i ==> (#[trigger] payments@[k])@ == batch_payments(
                    access.recipient_ua@,
                    m,
                    n,
                )[k],
            forall|k: int|
                0 <= k < i ==> (#[trigger] plan_ops@[k]).0 == p[k].op && plan_ops@[k].1@ == p[k].key
                    && opt_text(plan_ops@[k].2) == p[k].value,
            forall|k: int|
                0 <= k < i ==> m[k] == Ok::<Seq<char>, Seq<char>>((#[trigger] memo_texts@[k])@),
        decreases plan.len() - i,
    {
        let item = &plan[i];
        assert(p[i as int] == item@);
        assert(m[i as int] == text_result(memos@[i as int]));
        if !auth.may_write(access.signer.as_str(), item.op, item.key_exists) {
            let e = Refusal::Write(
                WriteError::UnauthorizedData {
                    op: item.op.as_str().to_owned(),
                    key: item.key.clone(),
                },
            );
            assert(batch_stops_at(p, m, auth@, access, i as int, e));
            assert(!batch_clear(p, m, auth@, access.signer@, n));
            return Err(e);
        }
        let memo = match &memos[i] {
            Ok(t) => t,
            Err(why) => {
                let e = Refusal::Other(why.clone());
                assert(batch_stops_at(p, m, auth@, access, i as int, e));
                assert(!batch_clear(p, m, auth@, access.signer@, n));
                return Err(e);
            },
        };
        let pay = PaymentPlan {
            address: access.recipient_ua.clone(),
            zats: 0,
            memo: Some(memo.clone()),
        };
        proof {
            let a = batch_payments(access.recipient_ua@, m, i as int);
            let b = batch_payments(access.recipient_ua@, m, i + 1);
            assert(b.drop_last() =~= a);
            assert(b.last() == pay@);
        }
        match crate::internal::payment::check_payment(&pay) {
            None => {},
            Some(issue) => {
                let ghost im = issue@;
                let e = Refusal::Other(request_fault_text(RequestIssue::Payment(issue)));
                proof {
                    let all = batch_payments(access.recipient_ua@, m, n);
                    assert(all.take(i + 1) =~= batch_payments(access.recipient_ua@, m, i + 1));
                    crate::internal::payment::lemma_first_issue_prefix(all, i + 1);
                    assert(batch_stops_at(p, m, auth@, access, i as int, e));
                }
                return Err(e);
            },
        }
        payments.push(pay);
        memo_texts.push(memo.clone());
        plan_ops.push((item.op, item.key.clone(), copy_opt(&item.value)));
        i += 1;
    }
    proof {
        assert(views(payments@) =~= batch_payments(access.recipient_ua@, m, n));
    }
    match make_request(&payments) {
        Ok(request) => Ok(
            PreparedBatch {
                zkv_addr: access.zkv_addr.clone(),
                recipient_ua: access.recipient_ua.clone(),
                plan_ops,
                memo_texts,
                request,
            },
        ),
        Err(e) => Err(Refusal::Other(request_fault_text(e))),
    }
}

/// Whether a batch is refused at operation `i`, with `e`: everything before it is
/// in order, and it is not allowed, was not signed, or cannot be paid for.
pub open spec fn batch_stops_at(
    plan: Seq<BatchPlanModel>,
    memos: Seq<Result<Seq<char>, Seq<char>>>,
    auth: AuthModel,
    access: &Access,
    i: int,
    e: Refusal,
) -> bool {
    &&& batch_clear(plan, memos, auth, access.signer@, i)
    &&& crate::internal::payment::first_issue(
        batch_payments(access.recipient_ua@, memos, i),
    ) is None
    &&& if !write_allowed(auth, access.signer@, plan[i].op, plan[i].key_exists) {
        e matches Refusal::Write(WriteError::UnauthorizedData { op, key }) && op@ == op_name(
            plan[i].op,
        ) && key@ == plan[i].key
    } else {
        match memos[i] {
            Err(why) => refusal_text(e) == why,
            Ok(t) => crate::internal::payment::plan_issue(
                memo_payment(access.recipient_ua@, t),
            ) matches Some(issue) && refusal_text(e) == request_fault(Ok(issue)),
        }
    }
}

/// The records of a batch that was broadcast: one for each operation, all of the
/// one transaction.
pub fn batch_records(txid: &str, batch: &PreparedBatch, now: u64) -> (r: Vec<PendingEntry>)
    requires
        batch.plan_ops.len() == batch.memo_texts.len(),
    ensures
        r.len() == batch.plan_ops.len(),
        forall|i: int|
            0 <= i < r.len() ==> (#[trigger] r@[i])@ == broadcast_record(
                txid@,
                batch.plan_ops@[i].0,
                batch.plan_ops@[i].1@,
                opt_text(batch.plan_ops@[i].2),
                batch.memo_texts@[i]@,
                now,
            ),
{
    let mut r: Vec<PendingEntry> = Vec::new();
    let mut i: usize = 0;
    while i < batch.plan_ops.len()
        invariant
            i <= batch.plan_ops.len(),
            batch.plan_ops.len() == batch.memo_texts.len(),
            r.len() == i,
            forall|k: int|
                0 <= k < i ==> (#[trigger] r@[k])@ == broadcast_record(
                    txid@,
                    batch.plan_ops@[k].0,
                    batch.plan_ops@[k].1@,
                    opt_text(batch.plan_ops@[k].2),
                    batch.memo_texts@[k]@,
                    now,
                ),
        decreases batch.plan_ops.len() - i,
    {
        let op = &batch.plan_ops[i];
        let value = match &op.2 {
            Some(v) => Some(v.as_str()),
            None => None,
        };
        r.push(
            record_pending(txid, op.0, op.1.as_str(), value, batch.memo_texts[i].as_str(), now),
        );
        i += 1;
    }
    r
}

/// The balances of an account that are not spendable yet.
#[derive(Clone, Debug, PartialEq, Eq)]
pub struct UnsettledBalance {
    /// Notes that still confirm.
    pub incoming: u64,
    /// Change that still confirms.
    pub change: u64,
    /// Funds that are not shielded.
    pub unshielded: u64,
}

/// What the accounts wait for.
pub open spec fn unsettled(s: Seq<UnsettledBalance>) -> nat
    decreases s.len(),
{
    if s.len() == 0 {
        0
    } else {
        unsettled(s.drop_last()) + s.last().incoming as nat + s.last().change as nat
            + s.last().unshielded as nat
    }
}

proof fn lemma_unsettled_grows(s: Seq<UnsettledBalance>, i: int)
    requires
        0 <= i <= s.len(),
    ensures
        unsettled(s.take(i)) <= unsettled(s),
    decreases s.len() - i,
{
    if i < s.len() {
        lemma_unsettled_grows(s, i + 1);
        assert(s.take(i + 1).drop_last() =~= s.take(i));
    } else {
        assert(s.take(i) =~= s);
    }
}

/// What the accounts of a wallet wait for (zatoshi).
pub fn pending_zats(balances: &Vec<UnsettledBalance>) -> (r: u64)
    requires
        unsettled(balances@) <= u64::MAX,
    ensures
        r == unsettled(balances@),
{
    let mut sum: u64 = 0;
    let mut i: usize = 0;
    while i < balances.len()
        invariant
            i <= balances.len(),
            unsettled(balances@) <= u64::MAX,
            sum == unsettled(balances@.take(i as int)),
        decreases balances.len() - i,
    {
        proof {
            lemma_unsettled_grows(balances@, i + 1);
            assert(balances@.take(i + 1).drop_last() =~= balances@.take(i as int));
        }
        sum = sum + balances[i].incoming + balances[i].change + balances[i].unshielded;
        i += 1;
    }
    assert(balances@.take(i as int) =~= balances@);
    sum
}

/// Why a payment was not made.
#[derive(Clone, Debug, PartialEq, Eq)]
pub struct PayFault {
    pub text: String,
    /// What is there and what is needed (zatoshi), where funds are missing.
    pub shortage: Option<(u64, u64)>,
}

/// What is known of the wallet of a payment that was not made.
#[derive(Clone, Debug, PartialEq, Eq)]
pub struct WalletFacts {
    /// What it waits for (zatoshi).
    pub pending: Option<u64>,
    /// The same as it is shown.
    pub pending_text: String,
    pub network: Option<Network>,
}

/// The refusal of a write that was not paid for. Where funds are missing, it says
/// what the wallet waits for, which counts as nothing where that is not known; an
/// unknown network counts as mainnet.
pub open spec fn pay_refusal(e: PayFault, known: WalletFacts) -> Refusal {
    match e.shortage {
        None => Refusal::Other(e.text),
        Some(s) => Refusal::Write(
            WriteError::InsufficientFunds {
                available: s.0,
                required: s.1,
                pending: match known.pending {
                    Some(p) => p,
                    None => 0,
                },
                pending_text: known.pending_text,
                network: match known.network {
                    Some(n) => n,
                    None => Network::Main,
                },
            },
        ),
    }
}

/// The refusal of a write that was not paid for.
pub fn augment_insufficient_funds(e: PayFault, known: WalletFacts) -> (r: Refusal)
    ensures
        r == pay_refusal(e, known),
{
    match e.shortage {
        None => Refusal::Other(e.text),
        Some((available, required)) => Refusal::Write(
            WriteError::InsufficientFunds {
                available,
                required,
                pending: match known.pending {
                    Some(p) => p,
                    None => 0,
                },
                pending_text: known.pending_text,
                network: match known.network {
                    Some(n) => n,
                    None => Network::default(),
                },
            },
        ),
    }
}

/// The record of a write that was broadcast.
pub open spec fn broadcast_record(
    txid: Seq<char>,
    op: Op,
    key: Seq<char>,
    value: Option<Seq<char>>,
    memo: Seq<char>,
    now: u64,
) -> LocalModel {
    LocalModel {
        txid,
        op: op_name(op),
        key,
        value,
        memo: Some(memo),
        broadcast_at_unix: now,
    }
}

/// What becomes of an `INIT` whose payment was asked for: the transaction and the
/// record of it, which stands under the address of the database.
pub fn broadcast_init(prepared: &PreparedWrite, paid: Result<String, PayFault>, now: u64) -> (r: Result<
    (String, PendingEntry),
    Refusal,
>)
    ensures
        match paid {
            Err(e) => r == Err::<(String, PendingEntry), Refusal>(Refusal::Other(e.text)),
            Ok(txid) => r matches Ok(b) && b.0@ == txid@ && b.1@ == broadcast_record(
                txid@,
                Op::Init,
                prepared.zkv_addr@,
                None,
                prepared.memo_text@,
                now,
            ),
        },
{
    match paid {
        Err(e) => Err(Refusal::Other(e.text)),
        Ok(txid) => {
            let record = record_pending(
                txid.as_str(),
                Op::Init,
                prepared.zkv_addr.as_str(),
                None,
                prepared.memo_text.as_str(),
                now,
            );
            Ok((txid, record))
        },
    }
}

/// What becomes of a data write whose payment was asked for: the transaction and
/// the record of it.
pub fn write_and_broadcast(
    op: Op,
    key: &str,
    value: Option<&str>,
    prepared: &PreparedWrite,
    paid: Result<String, PayFault>,
    known: WalletFacts,
    now: u64,
) -> (r: Result<(String, PendingEntry), Refusal>)
    ensures
        match paid {
            Err(e) => r == Err::<(String, PendingEntry), Refusal>(pay_refusal(e, known)),
            Ok(txid) => r matches Ok(b) && b.0@ == txid@ && b.1@ == broadcast_record(
                txid@,
                op,
                key@,
                opt_str(value),
                prepared.memo_text@,
                now,
            ),
        },
{
    match paid {
        Err(e) => Err(augment_insufficient_funds(e, known)),
        Ok(txid) => {
            let record = record_pending(
                txid.as_str(),
                op,
                key,
                value,
                prepared.memo_text.as_str(),
                now,
            );
            Ok((txid, record))
        },
    }
}

/// What becomes of a management operation whose payment was asked for.
pub fn manage_and_broadcast(
    op: Op,
    target: &str,
    scope: Option<&str>,
    prepared: &PreparedWrite,
    paid: Result<String, PayFault>,
    known: WalletFacts,
    now: u64,
) -> (r: Result<(String, PendingEntry), Refusal>)
    ensures
        match paid {
            Err(e) => r == Err::<(String, PendingEntry), Refusal>(pay_refusal(e, known)),
            Ok(txid) => r matches Ok(b) && b.0@ == txid@ && b.1@ == broadcast_record(
                txid@,
                op,
                target@,
                opt_str(scope),
                prepared.memo_text@,
                now,
            ),
        },
{
    write_and_broadcast(op, target, scope, prepared, paid, known, now)
}

/// What becomes of a batch whose payment was asked for: the one transaction, and a
/// record for each operation.
pub fn write_many_and_broadcast(
    batch: &PreparedBatch,
    paid: Result<String, PayFault>,
    known: WalletFacts,
    now: u64,
) -> (r: Result<(String, Vec<PendingEntry>), Refusal>)
    requires
        batch.plan_ops.len() == batch.memo_texts.len(),
    ensures
        match paid {
            Err(e) => r == Err::<(String, Vec<PendingEntry>), Refusal>(pay_refusal(e, known)),
            Ok(txid) => r matches Ok(b) && b.0@ == txid@ && b.1.len() == batch.plan_ops.len()
                && forall|i: int|
                0 <= i < b.1.len() ==> (#[trigger] b.1@[i])@ == broadcast_record(
                    txid@,
                    batch.plan_ops@[i].0,
                    batch.plan_ops@[i].1@,
                    opt_text(batch.plan_ops@[i].2),
                    batch.memo_texts@[i]@,
                    now,
                ),
        },
{
    match paid {
        Err(e) => Err(augment_insufficient_funds(e, known)),
        Ok(txid) => {
            let records = batch_records(txid.as_str(), batch, now);
            Ok((txid, records))
        },
    }
}

/// A memo as it is printed: what goes to the error stream, line by line, around
/// the memo that goes to the output.
#[derive(Clone, Debug, PartialEq, Eq)]
pub struct PrintedMemo {
    pub before: Vec<String>,
    pub memo: String,
    pub after: Vec<String>,
}

/// Prints a signed memo that is not broadcast.
pub fn write_and_print(op: Op, key: &str, prepared: &PreparedWrite) -> (r: PrintedMemo)
    ensures
        texts(r.before@) == seq![
            "zkv "@ + op_name(op) + " "@ + key@ + " → "@ + prepared.zkv_addr@,
            "  recipient (single-pool UA): "@ + prepared.recipient_ua@,
            ""@,
            "--- begin zkv memo ---"@,
        ],
        r.memo@ == prepared.memo_text@,
        texts(r.after@) == seq![
            "--- end zkv memo ---"@,
            ""@,
            "Send a zero-value (memo-only) shielded payment to the recipient UA above with this exact memo."@,
        ],
{
    let mut first = String::new();
    first.append("zkv ");
    first.append(op.as_str());
    first.append(" ");
    first.append(key);
    first.append(" → ");
    first.append(prepared.zkv_addr.as_str());
    assert(first@ =~= "zkv "@ + op_name(op) + " "@ + key@ + " → "@ + prepared.zkv_addr@);
    let mut second = String::new();
    second.append("  recipient (single-pool UA): ");
    second.append(prepared.recipient_ua.as_str());
    assert(second@ =~= "  recipient (single-pool UA): "@ + prepared.recipient_ua@);
    let mut before: Vec<String> = Vec::new();
    assert(texts(before@) =~= Seq::<Seq<char>>::empty());
    push_text(&mut before, first.as_str());
    push_text(&mut before, second.as_str());
    push_text(&mut before, "");
    push_text(&mut before, "--- begin zkv memo ---");
    assert(texts(before@) =~= seq![
        "zkv "@ + op_name(op) + " "@ + key@ + " → "@ + prepared.zkv_addr@,
        "  recipient (single-pool UA): "@ + prepared.recipient_ua@,
        ""@,
        "--- begin zkv memo ---"@,
    ]);
    let mut after: Vec<String> = Vec::new();
    assert(texts(after@) =~= Seq::<Seq<char>>::empty());
    push_text(&mut after, "--- end zkv memo ---");
    push_text(&mut after, "");
    push_text(
        &mut after,
        "Send a zero-value (memo-only) shielded payment to the recipient UA above with this exact memo.",
    );
    assert(texts(after@) =~= seq![
        "--- end zkv memo ---"@,
        ""@,
        "Send a zero-value (memo-only) shielded payment to the recipient UA above with this exact memo."@,
    ]);
    PrintedMemo { before, memo: prepared.memo_text.clone(), after }
}

/// Prints a signed management memo that is not broadcast.
pub fn manage_and_print(op: Op, target: &str, prepared: &PreparedWrite) -> (r: PrintedMemo)
    ensures
        texts(r.before@) == seq![
            "zkv "@ + op_name(op) + " "@ + target@ + " → "@ + prepared.zkv_addr@,
            "  recipient (single-pool UA): "@ + prepared.recipient_ua@,
            ""@,
            "--- begin zkv memo ---"@,
        ],
        r.memo@ == prepared.memo_text@,
        texts(r.after@) == seq![
            "--- end zkv memo ---"@,
            ""@,
            "Send a zero-value (memo-only) shielded payment to the recipient UA above with this exact memo."@,
        ],
{
    write_and_print(op, target, prepared)
}

proof fn lemma_names_differ()
    ensures
        forall|a: Op, b: Op| #[trigger] op_name(a) == #[trigger] op_name(b) ==> a == b,
{
    assert forall|a: Op, b: Op| #[trigger] op_name(a) == #[trigger] op_name(b) implies a == b by {
        op_names_are_distinct(a, b);
    }
}

/// Which broadcast writes are counted: the data operations on a key share its
/// sequence, the management operations on a target share the target's, and no
/// operation counts towards both.
pub proof fn kinds_follow_the_operation(op: Op)
    ensures
        is_of_kind(op_name(op), OpKind::Data) <==> op is Put || op is SetL || op is Del,
        is_of_kind(op_name(op), OpKind::Registry) <==> op is OwnerSet || op is OwnerDel
            || op is WriterSet || op is WriterDel,
{
    lemma_names_differ();
    assert(op_name(Op::Put) == "SET"@ && op_name(Op::SetL) == "SETL"@ && op_name(Op::Del)
        == "DEL"@);
    assert(op_name(Op::OwnerSet) == "OWNERSET"@ && op_name(Op::OwnerDel) == "OWNERDEL"@);
    assert(op_name(Op::WriterSet) == "WRITERSET"@ && op_name(Op::WriterDel) == "WRITERDEL"@);
}

/// A write that was broadcast is in flight: its transaction counts towards the
/// sequence of its key, whichever data operation it was, and so does that of a
/// management operation towards its target. A record of another key does not.
pub proof fn a_broadcast_write_is_in_flight(
    state: Map<Seq<char>, KeyModel>,
    locals: Seq<LocalModel>,
    k: int,
    op: Op,
    kind: OpKind,
)
    requires
        0 <= k < locals.len(),
        locals[k].op == op_name(op),
        locals[k].txid.len() > 0,
        kind is Data ==> op is Put || op is SetL || op is Del,
        kind is Registry ==> op is OwnerSet || op is OwnerDel || op is WriterSet || op is WriterDel,
    ensures
        inflight_set(state, locals, locals[k].key, kind).contains(locals[k].txid),
{
    kinds_follow_the_operation(op);
    assert(broadcast_in(locals, locals[k].key, kind, locals[k].txid));
}

/// Nothing else is in flight: a transaction counts only where the wallet has seen a
/// write to the key in it, or this client broadcast one of the kind to the key.
pub proof fn only_writes_to_the_key_are_in_flight(
    state: Map<Seq<char>, KeyModel>,
    locals: Seq<LocalModel>,
    key: Seq<char>,
    kind: OpKind,
    txid: Seq<char>,
)
    requires
        inflight_set(state, locals, key, kind).contains(txid),
    ensures
        txid.len() > 0,
        (state.dom().contains(key) && exists|i: int|
            0 <= i < state[key].pending.len() && (match #[trigger] state[key].pending[i] {
                PendingModel::Put { txid: t, .. } => t == txid,
                PendingModel::Del { txid: t, .. } => t == txid,
            })) || (exists|i: int|
            0 <= i < locals.len() && (#[trigger] locals[i]).txid == txid && locals[i].key == key
                && (kind is Data ==> locals[i].op == "SET"@ || locals[i].op == "SETL"@
                || locals[i].op == "DEL"@) && (kind is Registry ==> locals[i].op == "OWNERSET"@
                || locals[i].op == "OWNERDEL"@ || locals[i].op == "WRITERSET"@ || locals[i].op
                == "WRITERDEL"@)),
{
    if broadcast_in(locals, key, kind, txid) {
        let i = choose|i: int|
            0 <= i < locals.len() && (#[trigger] locals[i]).txid == txid && locals[i].key == key
                && is_of_kind(locals[i].op, kind);
        assert(locals[i].txid == txid);
    } else {
        let p = key_pending(state, key);
        let i = choose|i: int| 0 <= i < p.len() && pending_txid(#[trigger] p[i]) == txid;
        assert(state[key].pending[i] == p[i]);
    }
}

/// A write to a key that the wallet has seen and that is not confirmed yet is in
/// flight.
pub proof fn a_seen_write_is_in_flight(
    state: Map<Seq<char>, KeyModel>,
    locals: Seq<LocalModel>,
    key: Seq<char>,
    kind: OpKind,
    i: int,
    txid: Seq<char>,
)
    requires
        state.dom().contains(key),
        0 <= i < state[key].pending.len(),
        txid.len() > 0,
        match state[key].pending[i] {
            PendingModel::Put { txid: t, .. } => t == txid,
            PendingModel::Del { txid: t, .. } => t == txid,
        },
    ensures
        inflight_set(state, locals, key, kind).contains(txid),
{
    assert(pending_txid(key_pending(state, key)[i]) == txid);
}

proof fn lemma_inflight_finite(
    state: Map<Seq<char>, KeyModel>,
    locals: Seq<LocalModel>,
    key: Seq<char>,
    kind: OpKind,
)
    ensures
        inflight_set(state, locals, key, kind).finite(),
{
    let seen = key_pending(state, key).map_values(|p: PendingModel| pending_txid(p));
    let sent = locals.map_values(|l: LocalModel| l.txid);
    vstd::seq_lib::seq_to_set_is_finite(seen);
    vstd::seq_lib::seq_to_set_is_finite(sent);
    let all = seen.to_set().union(sent.to_set());
    let s = inflight_set(state, locals, key, kind);
    assert forall|t: Seq<char>| s.contains(t) implies #[trigger] all.contains(t) by {
        if in_flight_in(key_pending(state, key), t) {
            let p = key_pending(state, key);
            let i = choose|i: int| 0 <= i < p.len() && pending_txid(#[trigger] p[i]) == t;
            assert(seen[i] == t);
        } else {
            let i = choose|i: int|
                0 <= i < locals.len() && (#[trigger] locals[i]).txid == t && locals[i].key == key
                    && is_of_kind(locals[i].op, kind);
            assert(sent[i] == t);
        }
    }
    assert(s.subset_of(all));
    vstd::set_lib::lemma_len_subset(s, all);
}

proof fn lemma_one_more_in_flight(
    state: Map<Seq<char>, KeyModel>,
    locals: Seq<LocalModel>,
    key: Seq<char>,
    kind: OpKind,
    e: LocalModel,
)
    ensures
        inflight_set(state, locals.push(e), key, kind) == (if e.key == key && is_of_kind(
            e.op,
            kind,
        ) && e.txid.len() > 0 {
            inflight_set(state, locals, key, kind).insert(e.txid)
        } else {
            inflight_set(state, locals, key, kind)
        }),
{
    let more = locals.push(e);
    assert forall|t: Seq<char>| #[trigger]
        broadcast_in(more, key, kind, t) <==> broadcast_in(locals, key, kind, t) || (e.key == key
            && is_of_kind(e.op, kind) && e.txid == t) by {
        if broadcast_in(locals, key, kind, t) {
            let i = choose|i: int|
                0 <= i < locals.len() && (#[trigger] locals[i]).txid == t && locals[i].key == key
                    && is_of_kind(locals[i].op, kind);
            assert(more[i] == locals[i]);
        }
        if e.key == key && is_of_kind(e.op, kind) && e.txid == t {
            assert(more[locals.len() as int] == e);
        }
        if broadcast_in(more, key, kind, t) {
            let i = choose|i: int|
                0 <= i < more.len() && (#[trigger] more[i]).txid == t && more[i].key == key
                    && is_of_kind(more[i].op, kind);
            if i < locals.len() {
                assert(locals[i] == more[i]);
            }
        }
    }
    assert(inflight_set(state, more, key, kind) =~= (if e.key == key && is_of_kind(e.op, kind)
        && e.txid.len() > 0 {
        inflight_set(state, locals, key, kind).insert(e.txid)
    } else {
        inflight_set(state, locals, key, kind)
    }));
}

/// A write that is prepared after another to the same key was broadcast takes the
/// next sequence, whatever data operations the two are: readers honor both. A write
/// to another key is not held up, and neither is a management operation.
pub proof fn the_next_write_takes_the_next_sequence(
    result: &ReplayResult,
    locals: Seq<LocalModel>,
    txid: Seq<char>,
    op: Op,
    key: Seq<char>,
    value: Option<Seq<char>>,
    memo: Seq<char>,
    now: u64,
    other: Seq<char>,
)
    requires
        op is Put || op is SetL || op is Del,
        txid.len() > 0,
        !inflight_set(result.state.map(), locals, key, OpKind::Data).contains(txid),
    ensures
        ({
            let after = locals.push(broadcast_record(txid, op, key, value, memo, now));
            &&& next_version(result, after, key) == next_version(result, locals, key) + 1
            &&& next_version(result, after, key) > high_water(result.kv_versions.map(), key)
            &&& other != key ==> next_version(result, after, other) == next_version(
                result,
                locals,
                other,
            )
            &&& next_target_version(result, after, other) == next_target_version(
                result,
                locals,
                other,
            )
        }),
{
    let state = result.state.map();
    let e = broadcast_record(txid, op, key, value, memo, now);
    kinds_follow_the_operation(op);
    lemma_inflight_finite(state, locals, key, OpKind::Data);
    lemma_one_more_in_flight(state, locals, key, OpKind::Data, e);
    lemma_one_more_in_flight(state, locals, other, OpKind::Data, e);
    lemma_one_more_in_flight(state, locals, other, OpKind::Registry, e);
}

/// The same holds of management operations on one target.
pub proof fn the_next_grant_takes_the_next_sequence(
    result: &ReplayResult,
    locals: Seq<LocalModel>,
    txid: Seq<char>,
    op: Op,
    target: Seq<char>,
    value: Option<Seq<char>>,
    memo: Seq<char>,
    now: u64,
    other: Seq<char>,
)
    requires
        op is OwnerSet || op is OwnerDel || op is WriterSet || op is WriterDel,
        txid.len() > 0,
        !inflight_set(result.state.map(), locals, target, OpKind::Registry).contains(txid),
    ensures
        ({
            let after = locals.push(broadcast_record(txid, op, target, value, memo, now));
            &&& next_target_version(result, after, target) == next_target_version(
                result,
                locals,
                target,
            ) + 1
            &&& next_target_version(result, after, target) > high_water(
                result.target_versions.map(),
                target,
            )
            &&& other != target ==> next_target_version(result, after, other)
                == next_target_version(result, locals, other)
            &&& next_version(result, after, other) == next_version(result, locals, other)
        }),
{
    let state = result.state.map();
    let e = broadcast_record(txid, op, target, value, memo, now);
    kinds_follow_the_operation(op);
    lemma_inflight_finite(state, locals, target, OpKind::Registry);
    lemma_one_more_in_flight(state, locals, target, OpKind::Registry, e);
    lemma_one_more_in_flight(state, locals, other, OpKind::Registry, e);
    lemma_one_more_in_flight(state, locals, other, OpKind::Data, e);
}

/// Whatever is in flight, the next sequence is never below the mark, and it is past
/// it as soon as one broadcast write to the key is recorded. With nothing in flight
/// it is the mark itself.
pub proof fn the_next_sequence_is_past_what_is_in_flight(
    result: &ReplayResult,
    locals: Seq<LocalModel>,
    key: Seq<char>,
    k: int,
    op: Op,
)
    ensures
        next_version(result, locals, key) >= high_water(result.kv_versions.map(), key),
        next_target_version(result, locals, key) >= high_water(result.target_versions.map(), key),
        0 <= k < locals.len() && locals[k].op == op_name(op) && locals[k].txid.len() > 0
            && locals[k].key == key && (op is Put || op is SetL || op is Del) ==> next_version(
            result,
            locals,
            key,
        ) > high_water(result.kv_versions.map(), key),
        0 <= k < locals.len() && locals[k].op == op_name(op) && locals[k].txid.len() > 0
            && locals[k].key == key && (op is OwnerSet || op is OwnerDel || op is WriterSet
            || op is WriterDel) ==> next_target_version(result, locals, key) > high_water(
            result.target_versions.map(),
            key,
        ),
        locals.len() == 0 && !result.state.map().dom().contains(key) ==> next_version(
            result,
            locals,
            key,
        ) == high_water(result.kv_versions.map(), key) && next_target_version(
            result,
            locals,
            key,
        ) == high_water(result.target_versions.map(), key),
{
    let state = result.state.map();
    lemma_inflight_finite(state, locals, key, OpKind::Data);
    lemma_inflight_finite(state, locals, key, OpKind::Registry);
    if 0 <= k < locals.len() && locals[k].op == op_name(op) && locals[k].txid.len() > 0
        && locals[k].key == key {
        if op is Put || op is SetL || op is Del {
            a_broadcast_write_is_in_flight(state, locals, k, op, OpKind::Data);
            assert(inflight_set(state, locals, key, OpKind::Data).len() > 0);
        }
        if op is OwnerSet || op is OwnerDel || op is WriterSet || op is WriterDel {
            a_broadcast_write_is_in_flight(state, locals, k, op, OpKind::Registry);
            assert(inflight_set(state, locals, key, OpKind::Registry).len() > 0);
        }
    }
    if locals.len() == 0 && !state.dom().contains(key) {
        assert(inflight_set(state, locals, key, OpKind::Data) =~= Set::empty());
        assert(inflight_set(state, locals, key, OpKind::Registry) =~= Set::empty());
    }
}

/// Whether a reader's snapshot agrees with the state that a batch was planned on:
/// open, with the same registry and marks, and a value under the same keys.
pub open spec fn agrees(m: SnapModel, result: &ReplayResult) -> bool {
    &&& m.initialized
    &&& !m.finalized
    &&& m.auth == result.auth@
    &&& m.kv_versions == result.kv_versions.map()
    &&& forall|key: Seq<char>|
        #[trigger] m.kv.dom().contains(key) <==> result.state.map().dom().contains(key)
            && result.state.map()[key].confirmed is Some
}

/// Whether a row carries a planned operation, signed by `signer`.
pub open spec fn carries(row: RowModel, p: BatchPlanModel, signer: Seq<char>) -> bool {
    row.command matches Some(c) && c.op == p.op && c.key == p.key && c.value == p.value && c.seq
        == p.version && c.signer == signer
}

/// What a reader's snapshot looks like after the first `i` operations of a batch.
spec fn batch_applied(
    m: SnapModel,
    n: SnapModel,
    items: Seq<ItemModel>,
    i: int,
    rows: Seq<RowModel>,
    result: &ReplayResult,
    locals: Seq<LocalModel>,
) -> bool {
    &&& n.initialized
    &&& !n.finalized
    &&& n.auth == m.auth
    &&& forall|key: Seq<char>|
        #[trigger] n.kv.dom().contains(key) <==> exists_after(
            items.take(i),
            key,
            m.kv.dom().contains(key),
        )
    &&& forall|key: Seq<char>|
        #[trigger] high_water(n.kv_versions, key) == (if writes_to(items.take(i), key) == 0 {
            high_water(m.kv_versions, key) as int
        } else {
            next_version(result, locals, key) + writes_to(items.take(i), key)
        })
    &&& forall|k: int, j: int|
        0 <= k < n.history.len() && i <= j < rows.len() ==> pos_lt(
            #[trigger] n.history[k].pos,
            #[trigger] rows[j].pos,
        )
}

/// A planned batch is honored whole: on a snapshot that agrees with the state that
/// it was planned on, and with no more writes to its keys in flight than the window
/// allows, every operation is accepted after those before it. Whether a key exists
/// was planned as the reader then finds it: a `SET` or `SETL` earlier in the batch
/// makes the key exist, a `DEL` makes it absent.
pub proof fn a_planned_batch_is_honored(
    result: &ReplayResult,
    locals: Seq<LocalModel>,
    items: Seq<ItemModel>,
    plan: Seq<BatchPlanModel>,
    signer: Seq<char>,
    m: SnapModel,
    rows: Seq<RowModel>,
    root: Seq<char>,
    window: u64,
    i: int,
)
    requires
        agrees(m, result),
        0 <= i <= items.len(),
        plan.len() == items.len(),
        rows.len() == items.len(),
        follows(m.history, rows),
        forall|k: int|
            0 <= k < plan.len() ==> {
                &&& is_planned(#[trigger] plan[k], items, k, result, locals)
                &&& carries(rows[k], plan[k], signer)
                &&& plan[k].op is Put || plan[k].op is SetL || plan[k].op is Del
                &&& !(plan[k].op is Del) ==> plan[k].value is Some
                &&& plan[k].version < u64::MAX
                &&& write_allowed(m.auth, signer, plan[k].op, plan[k].key_exists)
                &&& inflight_set(
                    result.state.map(),
                    locals,
                    plan[k].key,
                    OpKind::Data,
                ).len() <= window
            },
    ensures
        fold(m, rows.take(i), root, window) is Ok,
        i < items.len() ==> accepts(
            fold(m, rows.take(i), root, window)->Ok_0,
            rows[i].command->0,
            root,
            window,
        ),
        i < items.len() ==> plan[i].key_exists == (fold(
            m,
            rows.take(i),
            root,
            window,
        )->Ok_0).kv.dom().contains(items[i].key),
{
    lemma_batch_applied(result, locals, items, plan, signer, m, rows, root, window, i);
    if i < items.len() {
        assert(is_planned(plan[i], items, i, result, locals));
        let n = fold(m, rows.take(i), root, window)->Ok_0;
        let key = items[i].key;
        assert(n.kv.dom().contains(key) <==> exists_after(
            items.take(i),
            key,
            m.kv.dom().contains(key),
        ));
        assert(m.kv.dom().contains(key) <==> has_value(result.state.map(), key));
        assert(high_water(n.kv_versions, key) == high_water(n.kv_versions, key));
    }
}

proof fn lemma_batch_applied(
    result: &ReplayResult,
    locals: Seq<LocalModel>,
    items: Seq<ItemModel>,
    plan: Seq<BatchPlanModel>,
    signer: Seq<char>,
    m: SnapModel,
    rows: Seq<RowModel>,
    root: Seq<char>,
    window: u64,
    i: int,
)
    requires
        agrees(m, result),
        0 <= i <= items.len(),
        plan.len() == items.len(),
        rows.len() == items.len(),
        follows(m.history, rows),
        forall|k: int|
            0 <= k < plan.len() ==> {
                &&& is_planned(#[trigger] plan[k], items, k, result, locals)
                &&& carries(rows[k], plan[k], signer)
                &&& plan[k].op is Put || plan[k].op is SetL || plan[k].op is Del
                &&& !(plan[k].op is Del) ==> plan[k].value is Some
                &&& plan[k].version < u64::MAX
                &&& write_allowed(m.auth, signer, plan[k].op, plan[k].key_exists)
                &&& inflight_set(
                    result.state.map(),
                    locals,
                    plan[k].key,
                    OpKind::Data,
                ).len() <= window
            },
    ensures
        fold(m, rows.take(i), root, window) is Ok,
        batch_applied(
            m,
            fold(m, rows.take(i), root, window)->Ok_0,
            items,
            i,
            rows,
            result,
            locals,
        ),
    decreases i,
{
    if i > 0 {
        let k = i - 1;
        lemma_batch_applied(result, locals, items, plan, signer, m, rows, root, window, k);
        let n = fold(m, rows.take(k), root, window)->Ok_0;
        assert(rows.take(i).drop_last() =~= rows.take(k));
        assert(rows.take(i).last() == rows[k]);
        assert(items.take(i).drop_last() =~= items.take(k));
        assert(items.take(i).last() == items[k]);
        assert(is_planned(plan[k], items, k, result, locals));
        let key = items[k].key;
        let cmd = rows[k].command->0;
        assert(n.kv.dom().contains(key) <==> exists_after(
            items.take(k),
            key,
            m.kv.dom().contains(key),
        ));
        assert(m.kv.dom().contains(key) <==> has_value(result.state.map(), key));
        assert(high_water(n.kv_versions, key) == high_water(n.kv_versions, key));
        assert(accepts(n, cmd, root, window));
        assert(!has_row(n.history, rows[k].pos)) by {
            if has_row(n.history, rows[k].pos) {
                let q = choose|q: int|
                    0 <= q < n.history.len() && (#[trigger] n.history[q]).pos == rows[k].pos;
                assert(pos_lt(n.history[q].pos, rows[k].pos));
                lemma_pos_trichotomy(n.history[q].pos, rows[k].pos);
            }
        }
        let o = fold(m, rows.take(i), root, window)->Ok_0;
        let at = an_accepted_write_is_recorded(n, rows[k], cmd, root, window, o);
        assert forall|q: int, j: int| 0 <= q < o.history.len() && i <= j < rows.len() implies pos_lt(
            #[trigger] o.history[q].pos,
            #[trigger] rows[j].pos,
        ) by {
            if q == at {
                assert(pos_lt(rows[k].pos, rows[j].pos));
            } else {
                let b = if q < at {
                    q
                } else {
                    q - 1
                };
                assert(o.history.remove(at)[b] == o.history[q]);
                assert(n.history[b] == o.history[q]);
                assert(pos_lt(n.history[b].pos, rows[j].pos));
            }
        }
        assert forall|x: Seq<char>| #[trigger] o.kv.dom().contains(x) <==> exists_after(
            items.take(i),
            x,
            m.kv.dom().contains(x),
        ) by {
            assert(n.kv.dom().contains(x) <==> exists_after(
                items.take(k),
                x,
                m.kv.dom().contains(x),
            ));
        }
        assert forall|x: Seq<char>| #[trigger] high_water(o.kv_versions, x) == (if writes_to(
            items.take(i),
            x,
        ) == 0 {
            high_water(m.kv_versions, x) as int
        } else {
            next_version(result, locals, x) + writes_to(items.take(i), x)
        }) by {
            a_write_moves_the_mark_of_its_key(n, rows[k], cmd, root, window, o, x);
            assert(high_water(n.kv_versions, x) == high_water(n.kv_versions, x));
        }
    } else {
        assert(rows.take(0) =~= Seq::<RowModel>::empty());
        assert(items.take(0) =~= Seq::<ItemModel>::empty());
    }
}

/// Whether a key exists for an operation of a batch is decided by the last earlier
/// operation on it: yes after a `SET` or `SETL`, no after a `DEL`, and where there
/// is none, as the confirmed state says.
pub proof fn the_last_earlier_write_decides(
    items: Seq<ItemModel>,
    key: Seq<char>,
    before: bool,
    k: int,
)
    requires
        0 <= k < items.len(),
        items[k].key == key,
        forall|j: int| k < j < items.len() ==> (#[trigger] items[j]).key != key,
    ensures
        items[k].op is Put ==> exists_after(items, key, before),
        items[k].op is SetL ==> exists_after(items, key, before),
        items[k].op is Del ==> !exists_after(items, key, before),
    decreases items.len(),
{
    if k < items.len() - 1 {
        assert(items[items.len() - 1].key != key);
        let t = items.drop_last();
        assert forall|j: int| k < j < t.len() implies (#[trigger] t[j]).key != key by {
            assert(items[j].key != key);
        }
        the_last_earlier_write_decides(t, key, before, k);
    }
}

/// An operation on a key that no other of the batch writes to is planned as it
/// would be alone: over the next sequence, and on what is confirmed.
pub proof fn a_lone_write_is_planned_as_if_alone(
    items: Seq<ItemModel>,
    i: int,
    p: BatchPlanModel,
    result: &ReplayResult,
    locals: Seq<LocalModel>,
)
    requires
        0 <= i < items.len(),
        is_planned(p, items, i, result, locals),
        forall|j: int| 0 <= j < i ==> (#[trigger] items[j]).key != items[i].key,
    ensures
        p.version == next_version(result, locals, items[i].key),
        p.key_exists <==> result.state.map().dom().contains(items[i].key)
            && result.state.map()[items[i].key].confirmed is Some,
        p.op == items[i].op,
        p.key == items[i].key,
        p.value == items[i].value,
{
    lemma_no_writes(items.take(i), items[i].key, has_value(result.state.map(), items[i].key));
}

proof fn lemma_no_writes(items: Seq<ItemModel>, key: Seq<char>, before: bool)
    requires
        forall|j: int| 0 <= j < items.len() ==> (#[trigger] items[j]).key != key,
    ensures
        writes_to(items, key) == 0,
        exists_after(items, key, before) == before,
    decreases items.len(),
{
    if items.len() > 0 {
        assert(items[items.len() - 1].key != key);
        let t = items.drop_last();
        assert forall|j: int| 0 <= j < t.len() implies (#[trigger] t[j]).key != key by {
            assert(items[j].key != key);
        }
        lemma_no_writes(t, key, before);
    }
}

/// A batch may be sent exactly where every one of its operations may: one that the
/// signer may not perform, or that was not signed, stops it.
pub proof fn one_bad_operation_stops_a_batch(
    plan: Seq<BatchPlanModel>,
    memos: Seq<Result<Seq<char>, Seq<char>>>,
    auth: AuthModel,
    signer: Seq<char>,
    n: int,
    k: int,
)
    requires
        0 <= k < n <= plan.len(),
        memos.len() == plan.len(),
    ensures
        memos[k] is Err ==> !batch_clear(plan, memos, auth, signer, n),
        !auth.owners.contains(signer) && !auth.writers.dom().contains(signer) ==> !batch_clear(
            plan,
            memos,
            auth,
            signer,
            n,
        ),
        !auth.owners.contains(signer) && auth.writers.dom().contains(signer) ==> {
            let scope = auth.writers[signer];
            &&& plan[k].op is Del && !scope.destroy ==> !batch_clear(plan, memos, auth, signer, n)
            &&& (plan[k].op is Put || plan[k].op is SetL) && plan[k].key_exists && !scope.update
                ==> !batch_clear(plan, memos, auth, signer, n)
            &&& (plan[k].op is Put || plan[k].op is SetL) && !plan[k].key_exists && !scope.create
                ==> !batch_clear(plan, memos, auth, signer, n)
        },
{
    if batch_clear(plan, memos, auth, signer, n) {
        assert(write_allowed(auth, signer, plan[k].op, plan[k].key_exists));
    }
}

/// An owner's signed batch of data operations is never stopped by the registry, and
/// neither is that of a writer with every capability.
pub proof fn an_owners_batch_is_clear(
    plan: Seq<BatchPlanModel>,
    memos: Seq<Result<Seq<char>, Seq<char>>>,
    auth: AuthModel,
    signer: Seq<char>,
)
    requires
        memos.len() == plan.len(),
        auth.owners.contains(signer) || (auth.writers.dom().contains(signer)
            && auth.writers[signer] == (Scope { create: true, update: true, destroy: true })),
        forall|i: int| 0 <= i < plan.len() ==> (#[trigger] memos[i]) is Ok,
        forall|i: int|
            0 <= i < plan.len() ==> (#[trigger] plan[i]).op is Put || plan[i].op is SetL
                || plan[i].op is Del,
    ensures
        batch_clear(plan, memos, auth, signer, plan.len() as int),
{
    assert forall|i: int| 0 <= i < plan.len() implies write_allowed(
        auth,
        signer,
        (#[trigger] plan[i]).op,
        plan[i].key_exists,
    ) && memos[i] is Ok by {}
}

/// A memo is carried by a payment of nothing to the database's own address, and a
/// batch by one such payment for each memo, in order.
pub proof fn memos_are_carried_without_value(
    recipient: Seq<char>,
    memos: Seq<Result<Seq<char>, Seq<char>>>,
    n: int,
    i: int,
)
    requires
        0 <= i < n <= memos.len(),
        memos[i] is Ok,
    ensures
        batch_payments(recipient, memos, n).len() == n,
        batch_payments(recipient, memos, n)[i].zats == 0,
        batch_payments(recipient, memos, n)[i].address == recipient,
        batch_payments(recipient, memos, n)[i].memo == Some(memos[i]->Ok_0),
        memo_payment(recipient, memos[i]->Ok_0).zats == 0,
        memo_payment(recipient, memos[i]->Ok_0).address == recipient,
        memo_payment(recipient, memos[i]->Ok_0).memo == Some(memos[i]->Ok_0),
{
}

/// A database takes writes once it is initialized, until it is sealed or asks this
/// client not to write.
pub proof fn when_a_database_takes_writes(result: ReplayResult)
    ensures
        !(result.init is Initialized) ==> !is_open(result),
        result.finalized ==> !is_open(result),
        result.version.version > 0 && result.version.blocks.write ==> !is_open(result),
        result.init is Initialized && !result.finalized && (result.version.version == 0
            || !result.version.blocks.write) ==> is_open(result),
{
}

/// What a wallet waits for is the sum of what each of its accounts waits for:
/// incoming notes, change, and what is not shielded.
pub proof fn what_is_waited_for_adds_up(a: Seq<UnsettledBalance>, b: UnsettledBalance)
    ensures
        unsettled(a.push(b)) == unsettled(a) + b.incoming + b.change + b.unshielded,
        unsettled(Seq::empty()) == 0,
{
    assert(a.push(b).drop_last() =~= a);
}

/// A write that was not paid for is refused for want of funds exactly where the
/// wallet says so, with what is there and what is needed; any other fault is passed
/// on in its own words.
pub proof fn a_shortage_is_told_as_such(e: PayFault, known: WalletFacts)
    ensures
        e.shortage is None ==> pay_refusal(e, known) == Refusal::Other(e.text),
        e.shortage matches Some(s) ==> (pay_refusal(e, known) matches Refusal::Write(
            WriteError::InsufficientFunds { available, required, pending, pending_text, network },
        ) && available == s.0 && required == s.1 && (known.pending is Some ==> pending
            == known.pending->0) && (known.pending is None ==> pending == 0) && pending_text
            == known.pending_text && (known.network is Some ==> network == known.network->0) && (
        known.network is None ==> network is Main)),
{
}

/// Who can write: on an open database, with the seed at hand, an owner can set and
/// delete every key, and a writer exactly what its scope covers. What is signed is
/// what was asked for, over a sequence at or past the mark.
pub proof fn who_can_write(
    r: Result<WritePlan, Refusal>,
    db: Seq<char>,
    result: ReplayResult,
    access: Access,
    locals: Seq<LocalModel>,
    op: Op,
    key: Seq<char>,
    value: Option<Seq<char>>,
)
    requires
        is_prepared(r, db, result, access, locals, op, key, value),
        is_open(result),
        access.role is Admin,
        access.derived,
        op is Put || op is SetL || op is Del,
    ensures
        result.auth@.owners.contains(access.signer@) ==> r is Ok,
        !result.auth@.owners.contains(access.signer@) && result.auth@.writers.dom().contains(
            access.signer@,
        ) ==> {
            let scope = result.auth@.writers[access.signer@];
            let there = result.state.map().dom().contains(key)
                && result.state.map()[key].confirmed is Some;
            r is Ok <==> (if op is Del {
                scope.destroy
            } else if there {
                scope.update
            } else {
                scope.create
            })
        },
        !result.auth@.owners.contains(access.signer@) && !result.auth@.writers.dom().contains(
            access.signer@,
        ) ==> r is Err,
        r matches Ok(p) ==> p.op == op && p.key@ == key && opt_text(p.value) == value && p.version
            >= high_water(result.kv_versions.map(), key),
        r matches Err(e) ==> (e matches Refusal::Write(
            WriteError::UnauthorizedData { op: o, key: k },
        ) && o@ == op_name(op) && k@ == key),
{
    the_next_sequence_is_past_what_is_in_flight(&result, locals, key, 0, op);
}

/// Who cannot write: nobody on a database that is not open, nobody without a seed,
/// and nobody anything but a data operation. A watched database is named as such.
pub proof fn who_cannot_write(
    r: Result<WritePlan, Refusal>,
    db: Seq<char>,
    result: ReplayResult,
    access: Access,
    locals: Seq<LocalModel>,
    op: Op,
    key: Seq<char>,
    value: Option<Seq<char>>,
)
    requires
        is_prepared(r, db, result, access, locals, op, key, value),
    ensures
        !(result.init is Initialized) ==> r is Err,
        result.finalized ==> r is Err,
        access.role is Watch || !access.derived ==> r is Err,
        !(op is Put || op is SetL || op is Del) ==> r is Err,
        is_open(result) && access.role is Watch ==> (r matches Err(
            Refusal::Write(WriteError::WatchOnly { db: d }),
        ) && d@ == db),
{
}

/// Preparing a write, broadcasting it and preparing another to the same key gives
/// two sequences that follow each other, whatever the two operations are, so that
/// readers honor both.
pub proof fn two_writes_in_a_row_are_both_honored(
    db: Seq<char>,
    result: ReplayResult,
    access: Access,
    locals: Seq<LocalModel>,
    key: Seq<char>,
    op: Op,
    value: Option<Seq<char>>,
    first: WritePlan,
    txid: Seq<char>,
    memo: Seq<char>,
    now: u64,
    next_op: Op,
    next_value: Option<Seq<char>>,
    second: WritePlan,
)
    requires
        op is Put || op is SetL || op is Del,
        is_prepared(
            Ok::<WritePlan, Refusal>(first),
            db,
            result,
            access,
            locals,
            op,
            key,
            value,
        ),
        txid.len() > 0,
        !inflight_set(result.state.map(), locals, key, OpKind::Data).contains(txid),
        is_prepared(
            Ok::<WritePlan, Refusal>(second),
            db,
            result,
            access,
            locals.push(broadcast_record(txid, op, key, value, memo, now)),
            next_op,
            key,
            next_value,
        ),
    ensures
        second.version == first.version + 1,
{
    the_next_write_takes_the_next_sequence(
        &result,
        locals,
        txid,
        op,
        key,
        value,
        memo,
        now,
        key,
    );
}

/// Who can manage: on an open database, with the seed at hand, an owner and nobody
/// else. What is signed names the target, and a scope only where one is given.
pub proof fn who_can_manage(
    r: Result<WritePlan, Refusal>,
    db: Seq<char>,
    result: ReplayResult,
    access: Access,
    locals: Seq<LocalModel>,
    op: Op,
    target_text: Seq<char>,
    target: Seq<char>,
    scope: Option<Seq<char>>,
)
    requires
        is_management_prepared(
            r,
            db,
            result,
            access,
            locals,
            op,
            target_text,
            Some(target),
            scope,
        ),
        op is OwnerSet || op is OwnerDel || op is WriterSet || op is WriterDel || op is Finalize,
    ensures
        !(result.init is Initialized) || result.finalized || access.role is Watch
            || !access.derived ==> r is Err,
        is_open(result) && access.role is Admin && access.derived ==> {
            &&& !result.auth@.owners.contains(access.signer@) ==> (r matches Err(
                Refusal::Write(WriteError::OwnerOnly { op: o }),
            ) && o@ == op_name(op))
            &&& result.auth@.owners.contains(access.signer@) && (!(op is WriterSet) || scope
                is Some) ==> r is Ok
            &&& op is WriterSet && scope is None ==> r is Err
        },
        r matches Ok(p) ==> {
            &&& p.op == op
            &&& op is Finalize ==> p.key@.len() == 0
            &&& !(op is Finalize) ==> p.key@ == target && p.version >= high_water(
                result.target_versions.map(),
                target,
            )
            &&& op is WriterSet ==> opt_text(p.value) == scope && scope is Some
            &&& !(op is WriterSet) ==> p.value is None
        },
{
    the_next_sequence_is_past_what_is_in_flight(&result, locals, target, 0, op);
}

/// A batch that is put together holds every planned operation and its signed memo,
/// in order, and goes to the database's own address. A batch with an operation that
/// the signer may not perform is refused.
pub proof fn a_batch_holds_what_was_planned(
    r: Result<PreparedBatch, Refusal>,
    auth: AuthModel,
    access: Access,
    plan: Seq<BatchPlanModel>,
    memos: Seq<Result<Seq<char>, Seq<char>>>,
    i: int,
)
    requires
        is_batch_prepared(r, auth, access, plan, memos),
        memos.len() == plan.len(),
        0 <= i < plan.len(),
    ensures
        !auth.owners.contains(access.signer@) && auth.writers.dom().contains(access.signer@) ==> {
            let scope = auth.writers[access.signer@];
            &&& plan[i].op is Del && !scope.destroy ==> r is Err
            &&& (plan[i].op is Put || plan[i].op is SetL) && plan[i].key_exists && !scope.update
                ==> r is Err
            &&& (plan[i].op is Put || plan[i].op is SetL) && !plan[i].key_exists && !scope.create
                ==> r is Err
        },
        !auth.owners.contains(access.signer@) && !auth.writers.dom().contains(access.signer@)
            ==> r is Err,
        memos[i] is Err ==> r is Err,
        r matches Ok(b) ==> {
            &&& b.zkv_addr@ == access.zkv_addr@
            &&& b.recipient_ua@ == access.recipient_ua@
            &&& b.plan_ops.len() == plan.len()
            &&& b.memo_texts.len() == plan.len()
            &&& b.plan_ops@[i].0 == plan[i].op
            &&& b.plan_ops@[i].1@ == plan[i].key
            &&& opt_text(b.plan_ops@[i].2) == plan[i].value
            &&& memos[i] == Ok::<Seq<char>, Seq<char>>(b.memo_texts@[i]@)
        },
{
    one_bad_operation_stops_a_batch(
        plan,
        memos,
        auth,
        access.signer@,
        plan.len() as int,
        i,
    );
}

/// The record of a broadcast says what was broadcast.
pub proof fn a_record_says_what_was_broadcast(
    txid: Seq<char>,
    op: Op,
    key: Seq<char>,
    value: Option<Seq<char>>,
    memo: Seq<char>,
    now: u64,
)
    ensures
        ({
            let e = broadcast_record(txid, op, key, value, memo, now);
            &&& e.txid == txid
            &&& e.key == key
            &&& e.value == value
            &&& e.memo == Some(memo)
            &&& e.broadcast_at_unix == now
            &&& op is Put ==> e.op == "SET"@
            &&& op is SetL ==> e.op == "SETL"@
            &&& op is Del ==> e.op == "DEL"@
            &&& op is Init ==> e.op == "INIT"@
        }),
{
}

/// A refused batch is refused for its first operation that the signer may not perform,
/// where all before it are in order: the refusal names that operation and its key.
pub proof fn a_batch_is_refused_at_its_first_bad_operation(
    r: Result<PreparedBatch, Refusal>,
    auth: AuthModel,
    access: Access,
    plan: Seq<BatchPlanModel>,
    memos: Seq<Result<Seq<char>, Seq<char>>>,
    i: int,
)
    requires
        is_batch_prepared(r, auth, access, plan, memos),
        memos.len() == plan.len(),
        0 <= i < plan.len(),
        !write_allowed(auth, access.signer@, plan[i].op, plan[i].key_exists),
        forall|k: int|
            0 <= k < i ==> write_allowed(
                auth,
                access.signer@,
                (#[trigger] plan[k]).op,
                plan[k].key_exists,
            ) && memos[k] is Ok && crate::internal::payment::plan_issue(
                memo_payment(access.recipient_ua@, memos[k]->Ok_0),
            ) is None,
    ensures
        r matches Err(Refusal::Write(WriteError::UnauthorizedData { op, key })) && op@ == op_name(
            plan[i].op,
        ) && key@ == plan[i].key,
{
    let n = plan.len() as int;
    if batch_clear(plan, memos, auth, access.signer@, n) {
        assert(write_allowed(auth, access.signer@, plan[i].op, plan[i].key_exists));
    }
    let e = r->Err_0;
    let j = choose|j: int|
        0 <= j < n && #[trigger] batch_stops_at(plan, memos, auth, &access, j, e);
    if j < i {
        assert(write_allowed(auth, access.signer@, plan[j].op, plan[j].key_exists));
    } else if j > i {
        assert(write_allowed(auth, access.signer@, plan[i].op, plan[i].key_exists));
    }
}

} // verus!
