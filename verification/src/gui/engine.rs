//! The answers of the database browser.

use crate::config::Role;
use crate::internal::funding::{copy_texts, FundingDirection, FundingModel, FundingResult};
use crate::lex::str_equal;
use crate::ordmap::OrdMap;
use crate::protocol::{
    authority, drop_text, is_signature_fault, op_name, scope_capabilities, AuditResult,
    AuditRow, AuthModel, AuthRegistry, Authority, EntryModel, GrantedRole, HistoryEntry,
    HistoryResult, HistoryStatus, InitState, KeyModel, KeyState, PendingModel, PendingOp,
    RevokedRole, RowOutcome,
};
use crate::sort::views;
use crate::text::{copy_opt, opt_text, texts};
use vstd::prelude::*;
use vstd::string::*;
use vstd::utf8::*;

verus! {

/// How far the newest write to a key has come.
#[derive(Clone, Debug, PartialEq, Eq)]
pub struct KeyStatus {
    /// `confirmed`, `confirming`, `pending` or `deleting`.
    pub kind: String,
    pub done: u32,
    pub required: u32,
}

/// [`KeyStatus`] as mathematics.
pub struct KeyStatusModel {
    pub kind: Seq<char>,
    pub done: u32,
    pub required: u32,
}

impl View for KeyStatus {
    type V = KeyStatusModel;

    open spec fn view(&self) -> KeyStatusModel {
        KeyStatusModel { kind: self.kind@, done: self.done, required: self.required }
    }
}

/// A key as it is listed.
#[derive(Clone, Debug, PartialEq, Eq)]
pub struct KeyRow {
    pub key: String,
    pub value: Option<String>,
    pub status: KeyStatus,
    pub txid: Option<String>,
    pub deleted: bool,
    /// The size of the value in bytes.
    pub size: Option<usize>,
    /// When the confirmed value was written (unix seconds).
    pub updated_at: Option<u32>,
}

/// [`KeyRow`] as mathematics.
pub struct KeyRowModel {
    pub key: Seq<char>,
    pub value: Option<Seq<char>>,
    pub status: KeyStatusModel,
    pub txid: Option<Seq<char>>,
    pub deleted: bool,
    pub size: Option<int>,
    pub updated_at: Option<u32>,
}

impl View for KeyRow {
    type V = KeyRowModel;

    open spec fn view(&self) -> KeyRowModel {
        KeyRowModel {
            key: self.key@,
            value: opt_text(self.value),
            status: self.status@,
            txid: opt_text(self.txid),
            deleted: self.deleted,
            size: match self.size {
                Some(n) => Some(n as int),
                None => None,
            },
            updated_at: self.updated_at,
        }
    }
}

/// The name of a role.
pub fn role_str(role: Role) -> (r: &'static str)
    ensures
        r@ == (match role {
            Role::Admin => "admin"@,
            Role::Watch => "watch"@,
        }),
{
    match role {
        Role::Admin => "admin",
        Role::Watch => "watch",
    }
}

/// The name of an initialization state, with its confirmations while it runs.
pub fn init_parts(init: &InitState) -> (r: (String, u32, u32))
    ensures
        match *init {
            InitState::Uninitialized => r.0@ == "uninitialized"@ && r.1 == 0 && r.2 == 0,
            InitState::Initializing { done, required } => r.0@ == "initializing"@ && r.1 == done
                && r.2 == required,
            InitState::Initialized => r.0@ == "initialized"@ && r.1 == 0 && r.2 == 0,
        },
{
    match init {
        InitState::Uninitialized => ("uninitialized".to_owned(), 0, 0),
        InitState::Initializing { done, required } => ("initializing".to_owned(), *done, *required),
        InitState::Initialized => ("initialized".to_owned(), 0, 0),
    }
}

/// Whether a key counts: it has a value, or the newest write in flight gives it
/// one.
pub open spec fn counts_as_key(k: KeyModel) -> bool {
    k.confirmed is Some || (k.pending.len() > 0 && k.pending.last() is Put)
}

/// Whether a key that counts has writes in flight.
pub open spec fn is_unsynced(k: KeyModel) -> bool {
    counts_as_key(k) && k.pending.len() > 0
}

/// How many of the entries satisfy `p`.
pub open spec fn count_of(
    s: Seq<(Seq<char>, KeyModel)>,
    p: spec_fn(KeyModel) -> bool,
) -> nat
    decreases s.len(),
{
    if s.len() == 0 {
        0
    } else {
        count_of(s.drop_last(), p) + (if p(s.last().1) {
            1nat
        } else {
            0
        })
    }
}

/// How many keys there are, and how many of them have writes in flight.
pub fn count_keys(state: &OrdMap<KeyState>) -> (r: (usize, usize))
    ensures
        r.0 == count_of(state.entries(), |k: KeyModel| counts_as_key(k)),
        r.1 == count_of(state.entries(), |k: KeyModel| is_unsynced(k)),
        r.1 <= r.0,
{
    let ghost e = state.entries();
    let ghost p = |k: KeyModel| counts_as_key(k);
    let ghost q = |k: KeyModel| is_unsynced(k);
    let mut keys: usize = 0;
    let mut unsynced: usize = 0;
    let n: usize = state.len();
    let mut i: usize = 0;
    while i < n
        invariant
            i <= n,
            n == e.len(),
            e == state.entries(),
            p == (|k: KeyModel| counts_as_key(k)),
            q == (|k: KeyModel| is_unsynced(k)),
            keys == count_of(e.take(i as int), p),
            unsynced == count_of(e.take(i as int), q),
            unsynced <= keys <= i,
        decreases n - i,
    {
        assert(e.take(i + 1).drop_last() =~= e.take(i as int));
        let ks = state.value_at(i);
        assert(e.take(i + 1).last().1 == ks@);
        let m: usize = ks.pending.len();
        let adds: bool = if m > 0 {
            assert(ks@.pending.last() == ks.pending@[m - 1]@);
            matches!(ks.pending[m - 1], PendingOp::Put { .. })
        } else {
            false
        };
        if ks.confirmed.is_some() || adds {
            keys += 1;
            if m > 0 {
                unsynced += 1;
            }
        }
        i += 1;
    }
    assert(e.take(i as int) =~= e);
    (keys, unsynced)
}

/// The latest of the known times at which a key was written.
pub open spec fn latest_update(s: Seq<(Seq<char>, KeyModel)>) -> Option<u32>
    decreases s.len(),
{
    if s.len() == 0 {
        None
    } else {
        let before = latest_update(s.drop_last());
        match s.last().1.updated_at {
            None => before,
            Some(t) => match before {
                Some(b) => if b > t {
                    before
                } else {
                    Some(t)
                },
                None => Some(t),
            },
        }
    }
}

/// The latest of the known times at which a key was written.
pub fn last_update(state: &OrdMap<KeyState>) -> (r: Option<u32>)
    ensures
        r == latest_update(state.entries()),
{
    let ghost e = state.entries();
    let n: usize = state.len();
    let mut r: Option<u32> = None;
    let mut i: usize = 0;
    while i < n
        invariant
            i <= n,
            n == e.len(),
            e == state.entries(),
            r == latest_update(e.take(i as int)),
        decreases n - i,
    {
        assert(e.take(i + 1).drop_last() =~= e.take(i as int));
        let ks = state.value_at(i);
        assert(e.take(i + 1).last().1 == ks@);
        match ks.updated_at {
            None => {},
            Some(t) => {
                match r {
                    Some(b) => {
                        if b <= t {
                            r = Some(t);
                        }
                    },
                    None => {
                        r = Some(t);
                    },
                }
            },
        }
        i += 1;
    }
    assert(e.take(i as int) =~= e);
    r
}

/// The value of a key as it is listed: the confirmed one, or else the one that is
/// on its way.
pub open spec fn listed_value(k: KeyModel) -> Option<Seq<char>> {
    if k.pending.len() > 0 && k.confirmed is None {
        match k.pending.last() {
            PendingModel::Put { value, .. } => Some(value),
            PendingModel::Del { .. } => None,
        }
    } else {
        k.confirmed
    }
}

/// Whether a key is on its way out.
pub open spec fn is_deleting(k: KeyModel) -> bool {
    k.pending.len() > 0 && k.pending.last() is Del
}

/// How far the newest write to a key has come.
pub open spec fn listed_status(k: KeyModel) -> KeyStatusModel {
    if k.pending.len() == 0 {
        KeyStatusModel { kind: "confirmed"@, done: 0, required: 0 }
    } else {
        match k.pending.last() {
            PendingModel::Put { done, required, .. } => KeyStatusModel {
                kind: if done == 0 {
                    "pending"@
                } else {
                    "confirming"@
                },
                done,
                required,
            },
            PendingModel::Del { done, required, .. } => KeyStatusModel {
                kind: "deleting"@,
                done,
                required,
            },
        }
    }
}

/// The transaction of the newest write to a key.
pub open spec fn listed_txid(k: KeyModel) -> Option<Seq<char>> {
    if k.pending.len() == 0 {
        k.last_txid
    } else {
        match k.pending.last() {
            PendingModel::Put { txid, .. } => Some(txid),
            PendingModel::Del { txid, .. } => Some(txid),
        }
    }
}

/// A key as it is listed; none where there is nothing to show.
pub open spec fn listed_row(key: Seq<char>, k: KeyModel) -> Option<KeyRowModel> {
    let value = listed_value(k);
    if value is None && !is_deleting(k) {
        None
    } else {
        Some(
            KeyRowModel {
                key,
                value,
                status: listed_status(k),
                txid: listed_txid(k),
                deleted: is_deleting(k),
                size: match value {
                    Some(v) => Some(encode_utf8(v).len() as int),
                    None => None,
                },
                updated_at: k.updated_at,
            },
        )
    }
}

/// The keys of a database as they are listed, in their order.
pub open spec fn listed_rows(s: Seq<(Seq<char>, KeyModel)>) -> Seq<KeyRowModel>
    decreases s.len(),
{
    if s.len() == 0 {
        Seq::empty()
    } else {
        let before = listed_rows(s.drop_last());
        match listed_row(s.last().0, s.last().1) {
            Some(r) => before.push(r),
            None => before,
        }
    }
}

/// A key as it is listed.
fn key_row(key: &String, ks: &KeyState) -> (r: Option<KeyRow>)
    ensures
        match r {
            Some(row) => listed_row(key@, ks@) == Some(row@),
            None => listed_row(key@, ks@) is None,
        },
{
    let m: usize = ks.pending.len();
    let (value, status, txid, deleted): (Option<String>, KeyStatus, Option<String>, bool) = if m
        == 0 {
        (
            copy_opt(&ks.confirmed),
            KeyStatus { kind: "confirmed".to_owned(), done: 0, required: 0 },
            copy_opt(&ks.last_txid),
            false,
        )
    } else {
        assert(ks@.pending.last() == ks.pending@[m - 1]@);
        match &ks.pending[m - 1] {
            PendingOp::Put { value, done, required, txid } => {
                let kind = if *done == 0 {
                    "pending"
                } else {
                    "confirming"
                };
                let shown = match &ks.confirmed {
                    Some(c) => c.clone(),
                    None => value.clone(),
                };
                (
                    Some(shown),
                    KeyStatus { kind: kind.to_owned(), done: *done, required: *required },
                    Some(txid.clone()),
                    false,
                )
            },
            PendingOp::Del { done, required, txid } => (
                copy_opt(&ks.confirmed),
                KeyStatus { kind: "deleting".to_owned(), done: *done, required: *required },
                Some(txid.clone()),
                true,
            ),
        }
    };
    if value.is_none() && !deleted {
        return None;
    }
    let size: Option<usize> = match &value {
        Some(v) => Some(v.as_str().as_bytes().len()),
        None => None,
    };
    Some(
        KeyRow {
            key: key.clone(),
            value,
            status,
            txid,
            deleted,
            size,
            updated_at: ks.updated_at,
        },
    )
}

/// The keys of a database as they are listed.
pub fn key_rows(state: &OrdMap<KeyState>) -> (r: Vec<KeyRow>)
    ensures
        views(r@) == listed_rows(state.entries()),
{
    let ghost e = state.entries();
    let n: usize = state.len();
    let mut r: Vec<KeyRow> = Vec::new();
    let mut i: usize = 0;
    assert(views(r@) =~= Seq::<KeyRowModel>::empty());
    while i < n
        invariant
            i <= n,
            n == e.len(),
            e == state.entries(),
            views(r@) == listed_rows(e.take(i as int)),
        decreases n - i,
    {
        let ghost before = r@;
        assert(e.take(i + 1).drop_last() =~= e.take(i as int));
        match key_row(state.key_at(i), state.value_at(i)) {
            None => {},
            Some(row) => {
                let ghost m = row@;
                r.push(row);
                assert(views(r@) =~= views(before).push(m));
            },
        }
        i += 1;
    }
    assert(e.take(i as int) =~= e);
    r
}

/// A confirmed value is listed as long as no write in flight deletes it, and a
/// key that is being deleted is listed as such, with the value that it still has.
pub proof fn confirmed_values_are_listed(key: Seq<char>, k: KeyModel)
    requires
        k.confirmed is Some,
    ensures
        listed_row(key, k) matches Some(r) && r.value == k.confirmed && r.key == key && r.deleted
            == is_deleting(k),
{
}

/// The status of a history entry as it is shown.
#[derive(Clone, Debug, PartialEq, Eq)]
pub struct HistoryStatusResp {
    /// `confirmed`, `confirming` or `pending`.
    pub kind: String,
    pub done: u32,
    pub required: u32,
    pub confirmations: u32,
}

/// [`HistoryStatusResp`] as mathematics.
pub struct HistoryStatusModel {
    pub kind: Seq<char>,
    pub done: u32,
    pub required: u32,
    pub confirmations: u32,
}

impl View for HistoryStatusResp {
    type V = HistoryStatusModel;

    open spec fn view(&self) -> HistoryStatusModel {
        HistoryStatusModel {
            kind: self.kind@,
            done: self.done,
            required: self.required,
            confirmations: self.confirmations,
        }
    }
}

/// A history entry as it is shown.
#[derive(Clone, Debug, PartialEq, Eq)]
pub struct HistoryEntryResp {
    pub op: String,
    pub key: String,
    pub value: Option<String>,
    pub height: Option<u32>,
    pub timestamp: Option<u32>,
    pub txid: String,
    pub output_index: u32,
    pub signature: Option<String>,
    pub seq: Option<u64>,
    pub signer: Option<String>,
    /// What the signer is now: `owner`, `writer` or nothing.
    pub signer_role: Option<String>,
    pub verified: Option<bool>,
    pub status: HistoryStatusResp,
    pub memo: Option<String>,
    pub fee: Option<u64>,
    pub output_value: Option<u64>,
}

/// [`HistoryEntryResp`] as mathematics.
pub struct HistoryEntryModel {
    pub op: Seq<char>,
    pub key: Seq<char>,
    pub value: Option<Seq<char>>,
    pub height: Option<u32>,
    pub timestamp: Option<u32>,
    pub txid: Seq<char>,
    pub output_index: u32,
    pub signature: Option<Seq<char>>,
    pub seq: Option<u64>,
    pub signer: Option<Seq<char>>,
    pub signer_role: Option<Seq<char>>,
    pub verified: Option<bool>,
    pub status: HistoryStatusModel,
    pub memo: Option<Seq<char>>,
    pub fee: Option<u64>,
    pub output_value: Option<u64>,
}

impl View for HistoryEntryResp {
    type V = HistoryEntryModel;

    open spec fn view(&self) -> HistoryEntryModel {
        HistoryEntryModel {
            op: self.op@,
            key: self.key@,
            value: opt_text(self.value),
            height: self.height,
            timestamp: self.timestamp,
            txid: self.txid@,
            output_index: self.output_index,
            signature: opt_text(self.signature),
            seq: self.seq,
            signer: opt_text(self.signer),
            signer_role: opt_text(self.signer_role),
            verified: self.verified,
            status: self.status@,
            memo: opt_text(self.memo),
            fee: self.fee,
            output_value: self.output_value,
        }
    }
}

/// A page of the history as it is shown.
#[derive(Clone, Debug, PartialEq, Eq)]
pub struct HistoryResp {
    /// The signer of the database's `INIT`.
    pub creator: String,
    pub entries: Vec<HistoryEntryResp>,
    pub total: u64,
    pub offset: u32,
    pub limit: Option<u32>,
}

/// The status of a history entry as it is shown.
pub open spec fn shown_status(s: HistoryStatus) -> HistoryStatusModel {
    match s {
        HistoryStatus::Confirmed { confirmations } => HistoryStatusModel {
            kind: "confirmed"@,
            done: 0,
            required: 0,
            confirmations,
        },
        HistoryStatus::Confirming { done, required } => HistoryStatusModel {
            kind: "confirming"@,
            done,
            required,
            confirmations: 0,
        },
        HistoryStatus::Pending => HistoryStatusModel {
            kind: "pending"@,
            done: 0,
            required: 0,
            confirmations: 0,
        },
    }
}

/// What a signer is now, where the registry is known and says so.
pub open spec fn role_now(auth: Option<AuthModel>, signer: Option<Seq<char>>) -> Option<Seq<char>> {
    if auth is None || signer is None {
        None
    } else {
        match authority(auth->0, signer->0) {
            Some(Authority::Owner) => Some("owner"@),
            Some(Authority::Writer(_)) => Some("writer"@),
            None => None,
        }
    }
}

/// A history entry as it is shown.
pub open spec fn shown_entry(e: EntryModel, auth: Option<AuthModel>) -> HistoryEntryModel {
    HistoryEntryModel {
        op: op_name(e.op),
        key: e.key,
        value: e.value,
        height: e.height,
        timestamp: e.timestamp,
        txid: e.txid,
        output_index: e.output_index,
        signature: e.signature,
        seq: e.seq,
        signer: e.signer,
        signer_role: role_now(auth, e.signer),
        verified: e.verified,
        status: shown_status(e.status),
        memo: e.memo,
        fee: e.fee,
        output_value: e.output_value,
    }
}

/// The registry as mathematics, where it is known.
pub open spec fn auth_model(auth: Option<&AuthRegistry>) -> Option<AuthModel> {
    match auth {
        Some(a) => Some(a@),
        None => None,
    }
}

fn entry_resp(e: &HistoryEntry, auth: Option<&AuthRegistry>) -> (r: HistoryEntryResp)
    requires
        auth matches Some(a) ==> a.wf(),
    ensures
        r@ == shown_entry(e@, auth_model(auth)),
{
    let signer_role: Option<String> = match auth {
        None => None,
        Some(a) => match &e.signer {
            None => None,
            Some(s) => match a.authority_of(s.as_str()) {
                Some(Authority::Owner) => Some("owner".to_owned()),
                Some(Authority::Writer(_)) => Some("writer".to_owned()),
                None => None,
            },
        },
    };
    let status = match e.status {
        HistoryStatus::Confirmed { confirmations } => HistoryStatusResp {
            kind: "confirmed".to_owned(),
            done: 0,
            required: 0,
            confirmations,
        },
        HistoryStatus::Confirming { done, required } => HistoryStatusResp {
            kind: "confirming".to_owned(),
            done,
            required,
            confirmations: 0,
        },
        HistoryStatus::Pending => HistoryStatusResp {
            kind: "pending".to_owned(),
            done: 0,
            required: 0,
            confirmations: 0,
        },
    };
    HistoryEntryResp {
        op: e.op.as_str().to_owned(),
        key: e.key.clone(),
        value: copy_opt(&e.value),
        height: e.height,
        timestamp: e.timestamp,
        txid: e.txid.clone(),
        output_index: e.output_index,
        signature: copy_opt(&e.signature),
        seq: e.seq,
        signer: copy_opt(&e.signer),
        signer_role,
        verified: e.verified,
        status,
        memo: copy_opt(&e.memo),
        fee: e.fee,
        output_value: e.output_value,
    }
}

/// A page of the history as it is shown: its entries in their order, each signer
/// with what it is now.
pub fn history_resp(result: HistoryResult, auth: Option<&AuthRegistry>) -> (r: HistoryResp)
    requires
        auth matches Some(a) ==> a.wf(),
    ensures
        r.creator@ == result.signer@,
        views(r.entries@) == views(result.entries@).map_values(
            |e: EntryModel| shown_entry(e, auth_model(auth)),
        ),
        r.total == result.total,
        r.offset == result.offset,
        r.limit == result.limit,
{
    let mut entries: Vec<HistoryEntryResp> = Vec::new();
    let mut i: usize = 0;
    while i < result.entries.len()
        invariant
            i <= result.entries.len(),
            auth matches Some(a) ==> a.wf(),
            entries.len() == i,
            forall|k: int|
                0 <= k < i ==> (#[trigger] entries@[k])@ == shown_entry(
                    result.entries@[k]@,
                    auth_model(auth),
                ),
        decreases result.entries.len() - i,
    {
        entries.push(entry_resp(&result.entries[i], auth));
        i += 1;
    }
    assert(views(entries@) =~= views(result.entries@).map_values(
        |e: EntryModel| shown_entry(e, auth_model(auth)),
    ));
    HistoryResp {
        creator: result.signer,
        entries,
        total: result.total,
        offset: result.offset,
        limit: result.limit,
    }
}

/// A memo that was not honored, as it is shown.
#[derive(Clone, Debug, PartialEq, Eq)]
pub struct RejectionResp {
    pub op: Option<String>,
    pub key: Option<String>,
    pub value: Option<String>,
    pub height: Option<u32>,
    pub timestamp: Option<u32>,
    pub txid: String,
    pub raw: String,
    pub reason: String,
    pub signer: Option<String>,
    /// Whether the signature led to a signer.
    pub signature_valid: bool,
}

/// [`RejectionResp`] as mathematics.
pub struct RejectionModel {
    pub op: Option<Seq<char>>,
    pub key: Option<Seq<char>>,
    pub value: Option<Seq<char>>,
    pub height: Option<u32>,
    pub timestamp: Option<u32>,
    pub txid: Seq<char>,
    pub raw: Seq<char>,
    pub reason: Seq<char>,
    pub signer: Option<Seq<char>>,
    pub signature_valid: bool,
}

impl View for RejectionResp {
    type V = RejectionModel;

    open spec fn view(&self) -> RejectionModel {
        RejectionModel {
            op: opt_text(self.op),
            key: opt_text(self.key),
            value: opt_text(self.value),
            height: self.height,
            timestamp: self.timestamp,
            txid: self.txid@,
            raw: self.raw@,
            reason: self.reason@,
            signer: opt_text(self.signer),
            signature_valid: self.signature_valid,
        }
    }
}

/// The memos that were not honored, newest first.
#[derive(Clone, Debug, PartialEq, Eq)]
pub struct RejectionsResp {
    pub entries: Vec<RejectionResp>,
    pub total: u64,
}

/// A memo that was not honored, as it is shown.
pub open spec fn rejection(r: AuditRow) -> Option<RejectionModel> {
    match r.outcome {
        RowOutcome::Dropped(reason) => Some(
            RejectionModel {
                op: match r.op {
                    Some(o) => Some(op_name(o)),
                    None => None,
                },
                key: opt_text(r.key),
                value: opt_text(r.value),
                height: r.mined_height,
                timestamp: r.timestamp,
                txid: r.txid@,
                raw: r.raw@,
                reason: drop_text(reason),
                signer: opt_text(r.signer),
                signature_valid: !is_signature_fault(reason),
            },
        ),
        _ => None,
    }
}

/// The memos that were not honored, newest first.
pub open spec fn rejections_of(rows: Seq<AuditRow>) -> Seq<RejectionModel>
    decreases rows.len(),
{
    if rows.len() == 0 {
        Seq::empty()
    } else {
        let older = rejections_of(rows.drop_last());
        match rejection(rows.last()) {
            Some(r) => seq![r] + older,
            None => older,
        }
    }
}

/// The memos of an audit that were not honored, newest first.
pub fn rejections_resp(audit: AuditResult) -> (r: RejectionsResp)
    ensures
        views(r.entries@) == rejections_of(audit.rows@),
        r.total == r.entries.len(),
{
    let ghost rows = audit.rows@;
    let mut entries: Vec<RejectionResp> = Vec::new();
    let mut i: usize = audit.rows.len();
    assert(rows.take(i as int) =~= rows);
    assert(views(entries@) + rejections_of(rows) =~= rejections_of(rows));
    while i > 0
        invariant
            i <= audit.rows.len(),
            rows == audit.rows@,
            views(entries@) + rejections_of(rows.take(i as int)) == rejections_of(rows),
        decreases i,
    {
        let row = &audit.rows[i - 1];
        let ghost before = entries@;
        let ghost older = rejections_of(rows.take(i - 1));
        assert(rows.take(i as int).drop_last() =~= rows.take(i - 1));
        assert(rows.take(i as int).last() == *row);
        match &row.outcome {
            RowOutcome::Dropped(reason) => {
                let op = match row.op {
                    Some(o) => Some(o.as_str().to_owned()),
                    None => None,
                };
                let out = RejectionResp {
                    op,
                    key: copy_opt(&row.key),
                    value: copy_opt(&row.value),
                    height: row.mined_height,
                    timestamp: row.timestamp,
                    txid: row.txid.clone(),
                    raw: row.raw.clone(),
                    reason: reason.message(),
                    signer: copy_opt(&row.signer),
                    signature_valid: !reason.is_signature_failure(),
                };
                let ghost m = out@;
                assert(rejection(*row) == Some(m));
                entries.push(out);
                assert(views(entries@) =~= views(before).push(m));
                assert(views(entries@) + older =~= views(before) + (seq![m] + older));
            },
            _ => {},
        }
        i -= 1;
    }
    assert(views(entries@) + rejections_of(rows.take(0)) =~= views(entries@));
    let total: u64 = entries.len() as u64;
    RejectionsResp { entries, total }
}

/// An owner or writer as it is shown.
#[derive(Clone, Debug, PartialEq, Eq)]
pub struct RoleRow {
    /// `owner` or `writer`.
    pub role: String,
    pub pubkey: String,
    /// What a writer may do; empty for an owner.
    pub capabilities: Vec<String>,
    pub height: Option<u32>,
    pub timestamp: Option<u32>,
    pub granted_by: Option<String>,
}

/// [`RoleRow`] as mathematics.
pub struct RoleModel {
    pub role: Seq<char>,
    pub pubkey: Seq<char>,
    pub capabilities: Seq<Seq<char>>,
    pub height: Option<u32>,
    pub timestamp: Option<u32>,
    pub granted_by: Option<Seq<char>>,
}

impl View for RoleRow {
    type V = RoleModel;

    open spec fn view(&self) -> RoleModel {
        RoleModel {
            role: self.role@,
            pubkey: self.pubkey@,
            capabilities: texts(self.capabilities@),
            height: self.height,
            timestamp: self.timestamp,
            granted_by: opt_text(self.granted_by),
        }
    }
}

/// A role that was taken away, as it is shown.
#[derive(Clone, Debug, PartialEq, Eq)]
pub struct RevokedRoleRow {
    pub role: String,
    pub pubkey: String,
    pub capabilities: Vec<String>,
    pub height: Option<u32>,
    pub timestamp: Option<u32>,
    pub revoked_by: Option<String>,
}

/// [`RevokedRoleRow`] as mathematics.
pub struct RevokedModel {
    pub role: Seq<char>,
    pub pubkey: Seq<char>,
    pub capabilities: Seq<Seq<char>>,
    pub height: Option<u32>,
    pub timestamp: Option<u32>,
    pub revoked_by: Option<Seq<char>>,
}

impl View for RevokedRoleRow {
    type V = RevokedModel;

    open spec fn view(&self) -> RevokedModel {
        RevokedModel {
            role: self.role@,
            pubkey: self.pubkey@,
            capabilities: texts(self.capabilities@),
            height: self.height,
            timestamp: self.timestamp,
            revoked_by: opt_text(self.revoked_by),
        }
    }
}

/// The registry as it is shown.
#[derive(Clone, Debug, PartialEq, Eq)]
pub struct RolesResp {
    /// The signer of the database's `INIT`, whatever it is now.
    pub creator: Option<String>,
    pub rows: Vec<RoleRow>,
    pub revoked: Vec<RevokedRoleRow>,
}

/// When and by whom a role was given; unknown where nothing tells.
pub struct Provenance {
    pub height: Option<u32>,
    pub timestamp: Option<u32>,
    pub granted_by: Option<Seq<char>>,
}

/// What the last grant of an identity says.
pub open spec fn provenance(granted: Seq<GrantedRole>, id: Seq<char>) -> Provenance
    decreases granted.len(),
{
    if granted.len() == 0 {
        Provenance { height: None, timestamp: None, granted_by: None }
    } else if granted.last().pubkey@ == id {
        Provenance {
            height: granted.last().height,
            timestamp: granted.last().timestamp,
            granted_by: opt_text(granted.last().granted_by),
        }
    } else {
        provenance(granted.drop_last(), id)
    }
}

/// A role as it is shown.
pub open spec fn role_row(
    role: Seq<char>,
    id: Seq<char>,
    caps: Seq<Seq<char>>,
    granted: Seq<GrantedRole>,
) -> RoleModel {
    let p = provenance(granted, id);
    RoleModel {
        role,
        pubkey: id,
        capabilities: caps,
        height: p.height,
        timestamp: p.timestamp,
        granted_by: p.granted_by,
    }
}

/// The registry as it is shown: owners first, then writers, each in order.
pub open spec fn role_rows(auth: AuthRegistry, granted: Seq<GrantedRole>) -> Seq<RoleModel> {
    auth.owner_seq().map_values(
        |o: Seq<char>| role_row("owner"@, o, Seq::empty(), granted),
    ) + auth.writer_seq().map_values(
        |w: (Seq<char>, crate::protocol::Scope)|
            role_row("writer"@, w.0, scope_capabilities(w.1), granted),
    )
}

/// A role that was taken away, as it is shown.
pub open spec fn revoked_row(r: RevokedRole) -> RevokedModel {
    RevokedModel {
        role: if r.was_owner {
            "owner"@
        } else {
            "writer"@
        },
        pubkey: r.pubkey@,
        capabilities: texts(r.capabilities@),
        height: r.height,
        timestamp: r.timestamp,
        revoked_by: opt_text(r.revoked_by),
    }
}

fn make_role(role: &str, id: &String, capabilities: Vec<String>, granted: &Vec<GrantedRole>) -> (r:
    RoleRow)
    ensures
        r@ == role_row(role@, id@, texts(capabilities@), granted@),
{
    let ghost all = granted@;
    let mut height: Option<u32> = None;
    let mut timestamp: Option<u32> = None;
    let mut granted_by: Option<String> = None;
    let mut i: usize = 0;
    while i < granted.len()
        invariant
            i <= granted.len(),
            all == granted@,
            provenance(all.take(i as int), id@) == (Provenance {
                height,
                timestamp,
                granted_by: opt_text(granted_by),
            }),
        decreases granted.len() - i,
    {
        assert(all.take(i + 1).drop_last() =~= all.take(i as int));
        assert(all.take(i + 1).last() == all[i as int]);
        let g = &granted[i];
        if str_equal(g.pubkey.as_str(), id.as_str()) {
            height = g.height;
            timestamp = g.timestamp;
            granted_by = copy_opt(&g.granted_by);
        }
        i += 1;
    }
    assert(all.take(i as int) =~= all);
    RoleRow { role: role.to_owned(), pubkey: id.clone(), capabilities, height, timestamp, granted_by }
}

/// The registry as it is shown.
pub fn roles_resp(
    auth: &AuthRegistry,
    granted: Vec<GrantedRole>,
    revoked: Vec<RevokedRole>,
    creator: Option<String>,
) -> (r: RolesResp)
    requires
        auth.wf(),
    ensures
        views(r.rows@) == role_rows(*auth, granted@),
        views(r.revoked@) == revoked@.map_values(|x: RevokedRole| revoked_row(x)),
        opt_text(r.creator) == opt_text(creator),
{
    let ghost want = role_rows(*auth, granted@);
    let mut rows: Vec<RoleRow> = Vec::new();
    let n: usize = auth.owner_count();
    let mut i: usize = 0;
    while i < n
        invariant
            i <= n,
            n == auth.owner_seq().len(),
            want == role_rows(*auth, granted@),
            rows.len() == i,
            forall|k: int| 0 <= k < i ==> (#[trigger] rows@[k])@ == want[k],
        decreases n - i,
    {
        let caps: Vec<String> = Vec::new();
        assert(texts(caps@) =~= Seq::<Seq<char>>::empty());
        rows.push(make_role("owner", auth.owner_at(i), caps, &granted));
        i += 1;
    }
    let w: usize = auth.writer_count();
    let mut j: usize = 0;
    while j < w
        invariant
            j <= w,
            w == auth.writer_seq().len(),
            n == auth.owner_seq().len(),
            want == role_rows(*auth, granted@),
            rows.len() == n + j,
            forall|k: int| 0 <= k < n + j ==> (#[trigger] rows@[k])@ == want[k],
        decreases w - j,
    {
        let scope = auth.scope_at(j);
        rows.push(make_role("writer", auth.writer_at(j), scope.capabilities(), &granted));
        j += 1;
    }
    assert(views(rows@) =~= want);
    let mut gone: Vec<RevokedRoleRow> = Vec::new();
    let mut k: usize = 0;
    while k < revoked.len()
        invariant
            k <= revoked.len(),
            gone.len() == k,
            forall|q: int| 0 <= q < k ==> (#[trigger] gone@[q])@ == revoked_row(revoked@[q]),
        decreases revoked.len() - k,
    {
        let r = &revoked[k];
        let role = if r.was_owner {
            "owner"
        } else {
            "writer"
        };
        gone.push(
            RevokedRoleRow {
                role: role.to_owned(),
                pubkey: r.pubkey.clone(),
                capabilities: copy_texts(&r.capabilities),
                height: r.height,
                timestamp: r.timestamp,
                revoked_by: copy_opt(&r.revoked_by),
            },
        );
        k += 1;
    }
    assert(views(gone@) =~= revoked@.map_values(|x: RevokedRole| revoked_row(x)));
    RolesResp { creator, rows, revoked: gone }
}

/// A transaction of the ledger as it is shown.
#[derive(Clone, Debug, PartialEq, Eq)]
pub struct FundingTxResp {
    pub txid: String,
    pub height: Option<u32>,
    pub timestamp: Option<u32>,
    /// `received`, `sent`, `self` or `zkv`.
    pub direction: String,
    pub amount: u64,
    pub self_sent: Option<u64>,
    pub fee: Option<u64>,
    pub memo: Option<String>,
    pub recipients: Vec<String>,
    pub is_zkv: bool,
    pub pending: bool,
    pub confirmations: u32,
    pub required: u32,
    pub confirmed: bool,
}

/// [`FundingTxResp`] as mathematics.
pub struct FundingTxModel {
    pub txid: Seq<char>,
    pub height: Option<u32>,
    pub timestamp: Option<u32>,
    pub direction: Seq<char>,
    pub amount: u64,
    pub self_sent: Option<u64>,
    pub fee: Option<u64>,
    pub memo: Option<Seq<char>>,
    pub recipients: Seq<Seq<char>>,
    pub is_zkv: bool,
    pub pending: bool,
    pub confirmations: u32,
    pub required: u32,
    pub confirmed: bool,
}

impl View for FundingTxResp {
    type V = FundingTxModel;

    open spec fn view(&self) -> FundingTxModel {
        FundingTxModel {
            txid: self.txid@,
            height: self.height,
            timestamp: self.timestamp,
            direction: self.direction@,
            amount: self.amount,
            self_sent: self.self_sent,
            fee: self.fee,
            memo: opt_text(self.memo),
            recipients: texts(self.recipients@),
            is_zkv: self.is_zkv,
            pending: self.pending,
            confirmations: self.confirmations,
            required: self.required,
            confirmed: self.confirmed,
        }
    }
}

/// A page of the ledger as it is shown.
#[derive(Clone, Debug, PartialEq, Eq)]
pub struct FundingResp {
    pub entries: Vec<FundingTxResp>,
    pub total: u64,
    pub offset: u32,
    pub limit: Option<u32>,
}

/// The name of a direction.
pub open spec fn direction_name(d: FundingDirection) -> Seq<char> {
    match d {
        FundingDirection::Received => "received"@,
        FundingDirection::Sent => "sent"@,
        FundingDirection::SelfTransfer => "self"@,
        FundingDirection::ZkvOperation => "zkv"@,
    }
}

/// A transaction of the ledger as it is shown.
pub open spec fn shown_tx(t: FundingModel) -> FundingTxModel {
    FundingTxModel {
        txid: t.txid,
        height: t.height,
        timestamp: t.timestamp,
        direction: direction_name(t.direction),
        amount: t.amount,
        self_sent: t.self_sent,
        fee: t.fee,
        memo: t.memo,
        recipients: t.recipients,
        is_zkv: t.is_zkv,
        pending: t.pending,
        confirmations: t.confirmations,
        required: t.required,
        confirmed: t.confirmed,
    }
}

/// A page of the ledger as it is shown, in its order.
pub fn funding_resp(result: FundingResult) -> (r: FundingResp)
    ensures
        views(r.entries@) == views(result.entries@).map_values(|t: FundingModel| shown_tx(t)),
        r.total == result.total,
        r.offset == result.offset,
        r.limit == result.limit,
{
    let mut entries: Vec<FundingTxResp> = Vec::new();
    let mut i: usize = 0;
    while i < result.entries.len()
        invariant
            i <= result.entries.len(),
            entries.len() == i,
            forall|k: int| 0 <= k < i ==> (#[trigger] entries@[k])@ == shown_tx(result.entries@[k]@),
        decreases result.entries.len() - i,
    {
        let t = &result.entries[i];
        let direction = match t.direction {
            FundingDirection::Received => "received",
            FundingDirection::Sent => "sent",
            FundingDirection::SelfTransfer => "self",
            FundingDirection::ZkvOperation => "zkv",
        };
        entries.push(
            FundingTxResp {
                txid: t.txid.clone(),
                height: t.height,
                timestamp: t.timestamp,
                direction: direction.to_owned(),
                amount: t.amount,
                self_sent: t.self_sent,
                fee: t.fee,
                memo: copy_opt(&t.memo),
                recipients: copy_texts(&t.recipients),
                is_zkv: t.is_zkv,
                pending: t.pending,
                confirmations: t.confirmations,
                required: t.required,
                confirmed: t.confirmed,
            },
        );
        i += 1;
    }
    assert(views(entries@) =~= views(result.entries@).map_values(|t: FundingModel| shown_tx(t)));
    FundingResp { entries, total: result.total, offset: result.offset, limit: result.limit }
}

/// A key with nothing in flight is listed with its value, as confirmed, under the
/// transaction that wrote it; one that never had a value is not listed.
pub proof fn a_settled_key_is_listed_as_it_is(key: Seq<char>, k: KeyModel)
    requires
        k.pending.len() == 0,
    ensures
        k.confirmed is None ==> listed_row(key, k) is None,
        k.confirmed matches Some(v) ==> (listed_row(key, k) matches Some(r) && r.key == key
            && r.value == Some(v) && r.status.kind == "confirmed"@ && r.txid == k.last_txid
            && !r.deleted && r.size == Some(encode_utf8(v).len() as int) && r.updated_at
            == k.updated_at),
        counts_as_key(k) <==> k.confirmed is Some,
        !is_unsynced(k),
{
}

/// A key with a write in flight is listed with the newest of them: its status, its
/// confirmations and its transaction. The value is the confirmed one as long as
/// there is one, and else the one that is on its way. A delete marks the key.
pub proof fn the_newest_write_in_flight_is_listed(
    key: Seq<char>,
    k: KeyModel,
    value: Seq<char>,
    done: u32,
    required: u32,
    txid: Seq<char>,
)
    requires
        k.pending.len() > 0,
    ensures
        k.pending.last() == (PendingModel::Put { value, done, required, txid }) ==> {
            &&& listed_row(key, k) matches Some(r) && r.txid == Some(txid) && !r.deleted
                && r.status.done == done && r.status.required == required && (done == 0
                ==> r.status.kind == "pending"@) && (done > 0 ==> r.status.kind == "confirming"@)
                && r.value == (match k.confirmed {
                Some(v) => Some(v),
                None => Some(value),
            })
            &&& counts_as_key(k)
            &&& is_unsynced(k)
        },
        k.pending.last() == (PendingModel::Del { done, required, txid }) ==> {
            &&& listed_row(key, k) matches Some(r) && r.txid == Some(txid) && r.deleted
                && r.status.done == done && r.status.required == required && r.status.kind
                == "deleting"@ && r.value == k.confirmed
            &&& counts_as_key(k) <==> k.confirmed is Some
        },
{
}

/// Every key that has something to show is listed, once for each, in the order of
/// the keys.
pub proof fn every_key_is_listed(s: Seq<(Seq<char>, KeyModel)>, i: int)
    requires
        0 <= i < s.len(),
        s[i].1.confirmed is Some || s[i].1.pending.len() > 0,
    ensures
        exists|j: int|
            0 <= j < listed_rows(s).len() && (#[trigger] listed_rows(s)[j]).key == s[i].0
                && listed_row(s[i].0, s[i].1) == Some(listed_rows(s)[j]),
        listed_rows(s).len() <= s.len(),
    decreases s.len(),
{
    let front = s.drop_last();
    lemma_listed_len(s);
    if i < front.len() {
        every_key_is_listed(front, i);
        let j = choose|j: int|
            0 <= j < listed_rows(front).len() && (#[trigger] listed_rows(front)[j]).key == s[i].0
                && listed_row(s[i].0, s[i].1) == Some(listed_rows(front)[j]);
        assert(listed_rows(s)[j] == listed_rows(front)[j]);
    } else {
        assert(listed_rows(s)[listed_rows(s).len() - 1].key == s[i].0);
    }
}

proof fn lemma_listed_len(s: Seq<(Seq<char>, KeyModel)>)
    ensures
        listed_rows(s).len() <= s.len(),
    decreases s.len(),
{
    if s.len() > 0 {
        lemma_listed_len(s.drop_last());
    }
}

/// The latest time is one at which a key was written, and none is later.
pub proof fn the_latest_update_is_the_latest(s: Seq<(Seq<char>, KeyModel)>)
    ensures
        forall|i: int|
            0 <= i < s.len() && (#[trigger] s[i]).1.updated_at is Some ==> latest_update(s) is Some
                && s[i].1.updated_at->0 <= latest_update(s)->0,
        latest_update(s) is Some ==> exists|i: int|
            0 <= i < s.len() && (#[trigger] s[i]).1.updated_at == latest_update(s),
    decreases s.len(),
{
    if s.len() > 0 {
        let front = s.drop_last();
        the_latest_update_is_the_latest(front);
        assert forall|i: int| 0 <= i < s.len() && (#[trigger] s[i]).1.updated_at is Some implies
            latest_update(s) is Some && s[i].1.updated_at->0 <= latest_update(s)->0 by {
            if i < front.len() {
                assert(front[i] == s[i]);
            }
        }
        if latest_update(s) is Some {
            if s.last().1.updated_at == latest_update(s) {
                assert(s[s.len() - 1].1.updated_at == latest_update(s));
            } else {
                let i = choose|i: int|
                    0 <= i < front.len() && (#[trigger] front[i]).1.updated_at == latest_update(
                        front,
                    );
                assert(s[i] == front[i]);
            }
        }
    }
}

/// A history entry is shown as it is, under the name of its operation, with what its
/// signer is now.
pub proof fn a_history_entry_is_shown_as_it_is(e: EntryModel, a: AuthModel, id: Seq<char>)
    ensures
        ({
            let r = shown_entry(e, Some(a));
            &&& r.key == e.key
            &&& r.value == e.value
            &&& r.height == e.height
            &&& r.timestamp == e.timestamp
            &&& r.txid == e.txid
            &&& r.output_index == e.output_index
            &&& r.signature == e.signature
            &&& r.seq == e.seq
            &&& r.signer == e.signer
            &&& r.verified == e.verified
            &&& r.memo == e.memo
            &&& r.fee == e.fee
            &&& r.output_value == e.output_value
            &&& e.op is Put ==> r.op == "SET"@
            &&& e.op is SetL ==> r.op == "SETL"@
            &&& e.op is Del ==> r.op == "DEL"@
            &&& e.op is Init ==> r.op == "INIT"@
            &&& e.status matches HistoryStatus::Confirmed { confirmations } ==> r.status.kind
                == "confirmed"@ && r.status.confirmations == confirmations
            &&& e.status matches HistoryStatus::Confirming { done, required } ==> r.status.kind
                == "confirming"@ && r.status.done == done && r.status.required == required
            &&& e.status is Pending ==> r.status.kind == "pending"@
        }),
        a.owners.contains(id) ==> role_now(Some(a), Some(id)) == Some("owner"@),
        !a.owners.contains(id) && a.writers.dom().contains(id) ==> role_now(Some(a), Some(id))
            == Some("writer"@),
        !a.owners.contains(id) && !a.writers.dom().contains(id) ==> role_now(Some(a), Some(id))
            is None,
        role_now(Some(a), None) is None,
        role_now(None, Some(id)) is None,
{
}

/// The registry is shown whole: every owner as an owner, and every writer as a
/// writer, with the capabilities that it has and no other.
pub proof fn the_registry_is_shown_whole(
    auth: AuthRegistry,
    granted: Seq<GrantedRole>,
    id: Seq<char>,
)
    requires
        auth.wf(),
    ensures
        auth@.owners.contains(id) ==> exists|i: int|
            0 <= i < role_rows(auth, granted).len() && (#[trigger] role_rows(auth, granted)[i]).pubkey
                == id && role_rows(auth, granted)[i].role == "owner"@ && role_rows(
                auth,
                granted,
            )[i].capabilities.len() == 0,
        auth@.writers.dom().contains(id) ==> exists|i: int|
            0 <= i < role_rows(auth, granted).len() && (#[trigger] role_rows(auth, granted)[i]).pubkey
                == id && role_rows(auth, granted)[i].role == "writer"@ && (role_rows(
                auth,
                granted,
            )[i].capabilities.contains("CREATE"@) <==> auth@.writers[id].create) && (role_rows(
                auth,
                granted,
            )[i].capabilities.contains("UPDATE"@) <==> auth@.writers[id].update) && (role_rows(
                auth,
                granted,
            )[i].capabilities.contains("DESTROY"@) <==> auth@.writers[id].destroy),
        role_rows(auth, granted).len() == auth.owner_seq().len() + auth.writer_seq().len(),
{
    auth.lemma_lists();
    let all = role_rows(auth, granted);
    let o = auth.owner_seq();
    let w = auth.writer_seq();
    if auth@.owners.contains(id) {
        let i = choose|i: int| 0 <= i < o.len() && o[i] == id;
        assert(all[i] == role_row("owner"@, id, Seq::empty(), granted));
    }
    if auth@.writers.dom().contains(id) {
        let i = crate::ordmap::lemma_entry_place(w, id);
        assert(all[o.len() + i] == role_row("writer"@, id, scope_capabilities(w[i].1), granted));
        crate::protocol::capabilities_name_the_scope(w[i].1);
    }
}

/// A role is shown with when and by whom it was last given: a later grant of the same
/// identity takes the place of an earlier one, and one of another changes nothing.
pub proof fn the_last_grant_is_shown(granted: Seq<GrantedRole>, g: GrantedRole, id: Seq<char>)
    ensures
        g.pubkey@ == id ==> provenance(granted.push(g), id) == (Provenance {
            height: g.height,
            timestamp: g.timestamp,
            granted_by: opt_text(g.granted_by),
        }),
        g.pubkey@ != id ==> provenance(granted.push(g), id) == provenance(granted, id),
        provenance(Seq::empty(), id).height is None,
        provenance(Seq::empty(), id).granted_by is None,
{
    assert(granted.push(g).drop_last() =~= granted);
}

/// A revoked role is shown as what it was.
pub proof fn a_revoked_role_is_shown_as_it_was(r: RevokedRole)
    ensures
        r.was_owner ==> revoked_row(r).role == "owner"@,
        !r.was_owner ==> revoked_row(r).role == "writer"@,
        revoked_row(r).pubkey == r.pubkey@,
        revoked_row(r).capabilities == texts(r.capabilities@),
        revoked_row(r).height == r.height,
        revoked_row(r).timestamp == r.timestamp,
        revoked_row(r).revoked_by == opt_text(r.revoked_by),
{
}

/// What was not honored is shown, newest first, and nothing else: a dropped memo
/// comes on top of those before it, as it stood, and one that was honored, or may
/// still be, is not there.
pub proof fn what_was_dropped_is_shown(rows: Seq<AuditRow>, r: AuditRow)
    ensures
        !(r.outcome is Dropped) ==> rejections_of(rows.push(r)) == rejections_of(rows),
        r.outcome is Dropped ==> {
            let s = rejections_of(rows.push(r));
            &&& s.len() == rejections_of(rows).len() + 1
            &&& s.skip(1) == rejections_of(rows)
            &&& s[0].txid == r.txid@
            &&& s[0].raw == r.raw@
            &&& s[0].key == opt_text(r.key)
            &&& s[0].value == opt_text(r.value)
            &&& s[0].height == r.mined_height
            &&& s[0].timestamp == r.timestamp
            &&& s[0].signer == opt_text(r.signer)
            &&& r.op matches Some(o) ==> s[0].op == Some(op_name(o))
            &&& r.op is None ==> s[0].op is None
            &&& r.outcome matches RowOutcome::Dropped(d) ==> s[0].reason == drop_text(d)
                && s[0].signature_valid == !is_signature_fault(d)
        },
        rejections_of(Seq::empty()).len() == 0,
{
    assert(rows.push(r).drop_last() =~= rows);
    if r.outcome is Dropped {
        assert(rejections_of(rows.push(r)).skip(1) =~= rejections_of(rows));
    }
}

/// A transaction of the ledger is shown as it is, under the name of its direction;
/// no two directions share one.
pub proof fn a_ledger_entry_is_shown_as_it_is(
    t: FundingModel,
    a: FundingDirection,
    b: FundingDirection,
)
    ensures
        ({
            let r = shown_tx(t);
            &&& r.txid == t.txid
            &&& r.height == t.height
            &&& r.timestamp == t.timestamp
            &&& r.amount == t.amount
            &&& r.self_sent == t.self_sent
            &&& r.fee == t.fee
            &&& r.memo == t.memo
            &&& r.recipients == t.recipients
            &&& r.is_zkv == t.is_zkv
            &&& r.pending == t.pending
            &&& r.confirmations == t.confirmations
            &&& r.required == t.required
            &&& r.confirmed == t.confirmed
            &&& t.direction is Received ==> r.direction == "received"@
            &&& t.direction is Sent ==> r.direction == "sent"@
            &&& t.direction is SelfTransfer ==> r.direction == "self"@
            &&& t.direction is ZkvOperation ==> r.direction == "zkv"@
        }),
        direction_name(a) == direction_name(b) ==> a == b,
{
    reveal_strlit("received");
    reveal_strlit("sent");
    reveal_strlit("self");
    reveal_strlit("zkv");
    assert("received"@.len() == 8 && "zkv"@.len() == 3);
    assert("sent"@[2] == 'n' && "self"@[2] == 'l');
}

/// The keys are counted one by one: each that counts adds one.
pub proof fn keys_are_counted_one_by_one(
    s: Seq<(Seq<char>, KeyModel)>,
    e: (Seq<char>, KeyModel),
    p: spec_fn(KeyModel) -> bool,
)
    ensures
        count_of(Seq::empty(), p) == 0,
        p(e.1) ==> count_of(s.push(e), p) == count_of(s, p) + 1,
        !p(e.1) ==> count_of(s.push(e), p) == count_of(s, p),
{
    assert(s.push(e).drop_last() =~= s);
}

} // verus!
