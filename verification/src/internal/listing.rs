//! One page of a database's history: the writes in flight and the recent ones on
//! top of the recorded ones.

use crate::internal::history::{
    filter_matches, list_contains, newest_of, op_matches, ops_model, ordered, page_of, selected,
    unlimited_page_is_everything,
};
use crate::internal::pending::{LocalModel, PendingEntry};
use crate::internal::pool::{block_height, positive_u32, ShieldedPool};
use crate::internal::scan::{lemma_scan_len, scan_memos_past_watermark};
use crate::internal::snapshot::{
    accepts, an_accepted_write_is_recorded, genesis, is_recorded_op, only_recorded_ops, step,
    Command, CommandModel, HistModel, HistRow, PromoteError, RowModel, SnapModel, Snapshot,
};
use crate::internal::state::{
    are_readings, confirmations, confirmations_at, effective_min_confs, is_seed_of, read_memos,
    row_required, shown_txid, DecodedModel, DecodedRow, WalletRows,
};
use crate::internal::txid::{txid_blob, txid_blob_from_hex, txid_hex, txid_text};
use crate::lex::{bytes_equal, str_equal};
use crate::protocol::{
    op_name, EntryModel, HistoryEntry, HistoryResult, HistoryStatus, Op, ReplayResult, WriteStatus,
};
use crate::sort::{sorted, stable_sort, views, Ranked};
use crate::text::{
    ascii_lowered, contains_text, copy_opt, is_substring, opt_str, opt_text, to_ascii_lower,
};
use vstd::prelude::*;
use vstd::string::*;

verus! {

/// The order of a history page.
#[derive(Clone, Copy, Debug, PartialEq, Eq, Structural)]
pub enum HistoryOrder {
    /// Newest write first, writes in flight on top.
    Desc,
    /// Oldest write first.
    Asc,
}

impl HistoryOrder {
    /// Newest first.
    pub fn default() -> (r: HistoryOrder)
        ensures
            r is Desc,
    {
        HistoryOrder::Desc
    }
}

/// Writes in flight stand above those that confirm, and these above confirmed
/// ones.
pub open spec fn rank_of(s: HistoryStatus) -> u8 {
    match s {
        HistoryStatus::Pending => 0,
        HistoryStatus::Confirming { .. } => 1,
        HistoryStatus::Confirmed { .. } => 2,
    }
}

/// The rank of a status.
pub fn inflight_rank(s: &HistoryStatus) -> (r: u8)
    ensures
        r == rank_of(*s),
{
    match s {
        HistoryStatus::Pending => 0,
        HistoryStatus::Confirming { .. } => 1,
        HistoryStatus::Confirmed { .. } => 2,
    }
}

/// Whether a recent key matches a filter, as a recorded one does.
pub fn key_matches(key: &str, filter: Option<&str>) -> (r: bool)
    ensures
        r == filter_matches(key@, opt_str(filter)),
{
    match filter {
        Some(f) => contains_text(to_ascii_lower(key).as_str(), to_ascii_lower(f).as_str()),
        None => true,
    }
}

/// The height to sort by: what is not mined counts as the newest.
pub open spec fn sort_height(h: Option<u32>) -> u32 {
    match h {
        Some(v) => v,
        None => u32::MAX,
    }
}

impl Ranked for HistoryEntry {
    open spec fn precedes(a: EntryModel, b: EntryModel) -> bool {
        ||| rank_of(a.status) < rank_of(b.status)
        ||| rank_of(a.status) == rank_of(b.status) && sort_height(a.height) > sort_height(b.height)
        ||| rank_of(a.status) == rank_of(b.status) && sort_height(a.height) == sort_height(b.height)
            && a.output_index > b.output_index
    }

    fn before(&self, other: &Self) -> (r: bool) {
        let ra: u8 = inflight_rank(&self.status);
        let rb: u8 = inflight_rank(&other.status);
        let ha: u32 = match self.height {
            Some(h) => h,
            None => u32::MAX,
        };
        let hb: u32 = match other.height {
            Some(h) => h,
            None => u32::MAX,
        };
        ra < rb || (ra == rb && (ha > hb || (ha == hb && self.output_index > other.output_index)))
    }

    proof fn lemma_weak_order(a: EntryModel, b: EntryModel, c: EntryModel) {
    }
}

/// The status under which a recent row is shown; none where it came from
/// elsewhere and lies too shallow.
pub open spec fn live_status(row: DecodedModel, account: Seq<u8>, tip: u32, min_confs: u32) -> Option<
    HistoryStatus,
> {
    let mined = block_height(row.mined_height);
    let required = row_required(row, min_confs);
    let done = confirmations(mined, tip) as u32;
    if mined is None {
        Some(HistoryStatus::Pending)
    } else if done >= required {
        Some(HistoryStatus::Confirmed { confirmations: done })
    } else if row.from_uuid == Some(account) {
        Some(HistoryStatus::Confirming { done, required })
    } else {
        None
    }
}

/// The status under which a recent row is shown.
pub fn history_status(row: &DecodedRow, account: &[u8], tip: u32, min_confs: u32) -> (r: Option<
    HistoryStatus,
>)
    ensures
        r == live_status(row@, account@, tip, min_confs),
{
    let mined: Option<u32> = positive_u32(row.mined_height);
    let is_init = matches!(row.parsed_op, Some(Op::Init));
    let required: u32 = effective_min_confs(is_init, min_confs);
    let done: u32 = confirmations_at(mined, tip);
    if mined.is_none() {
        return Some(HistoryStatus::Pending);
    }
    if done >= required {
        return Some(HistoryStatus::Confirmed { confirmations: done });
    }
    let own: bool = match &row.from_uuid {
        Some(u) => bytes_equal(u.as_slice(), account),
        None => false,
    };
    if own {
        Some(HistoryStatus::Confirming { done, required })
    } else {
        None
    }
}

/// The status with which a shown row is replayed: a write in flight has no
/// confirmation yet.
pub open spec fn replayed_as(status: HistoryStatus, min_confs: u32) -> WriteStatus {
    match status {
        HistoryStatus::Confirmed { .. } => WriteStatus::Confirmed,
        HistoryStatus::Confirming { done, required } => WriteStatus::Confirming { done, required },
        HistoryStatus::Pending => WriteStatus::Confirming { done: 0, required: min_confs },
    }
}

/// The status with which a shown row is replayed.
pub fn replay_status(status: HistoryStatus, min_confs: u32) -> (r: WriteStatus)
    ensures
        r == replayed_as(status, min_confs),
{
    match status {
        HistoryStatus::Confirmed { .. } => WriteStatus::Confirmed,
        HistoryStatus::Confirming { done, required } => WriteStatus::Confirming { done, required },
        HistoryStatus::Pending => WriteStatus::Confirming { done: 0, required: min_confs },
    }
}

/// A recent memo as it is shown, before its text is read.
#[derive(Clone, Debug, PartialEq, Eq)]
pub struct ShownRow {
    pub text: String,
    pub height: Option<u32>,
    pub timestamp: Option<u32>,
    /// The shown transaction id.
    pub txid: String,
    pub output_index: u32,
    pub status: HistoryStatus,
    /// The status with which the memo is replayed.
    pub write_status: WriteStatus,
}

/// [`ShownRow`] as mathematics.
pub struct ShownModel {
    pub text: Seq<char>,
    pub height: Option<u32>,
    pub timestamp: Option<u32>,
    pub txid: Seq<char>,
    pub output_index: u32,
    pub status: HistoryStatus,
    pub write_status: WriteStatus,
}

impl View for ShownRow {
    type V = ShownModel;

    open spec fn view(&self) -> ShownModel {
        ShownModel {
            text: self.text@,
            height: self.height,
            timestamp: self.timestamp,
            txid: self.txid@,
            output_index: self.output_index,
            status: self.status,
            write_status: self.write_status,
        }
    }
}

/// A recent memo as it is shown under a status.
pub open spec fn shown_row(row: DecodedModel, status: HistoryStatus, min_confs: u32) -> ShownModel {
    ShownModel {
        text: row.text,
        height: block_height(row.mined_height),
        timestamp: block_height(row.block_time),
        txid: shown_txid(row.txid),
        output_index: row.output_index,
        status,
        write_status: replayed_as(status, min_confs),
    }
}

/// The recent memos that are shown, in their order.
pub open spec fn shown_rows_of(
    rows: Seq<DecodedModel>,
    account: Seq<u8>,
    tip: u32,
    min_confs: u32,
) -> Seq<ShownModel>
    decreases rows.len(),
{
    if rows.len() == 0 {
        Seq::empty()
    } else {
        let before = shown_rows_of(rows.drop_last(), account, tip, min_confs);
        match live_status(rows.last(), account, tip, min_confs) {
            Some(status) => before.push(shown_row(rows.last(), status, min_confs)),
            None => before,
        }
    }
}

/// The recent memos that are shown, in their order, each with its status.
pub fn shown_rows(rows: &Vec<DecodedRow>, account: &[u8], tip: u32, min_confs: u32) -> (r: Vec<ShownRow>)
    ensures
        views(r@) == shown_rows_of(views(rows@), account@, tip, min_confs),
{
    let ghost all = views(rows@);
    let mut r: Vec<ShownRow> = Vec::new();
    let mut i: usize = 0;
    assert(views(r@) =~= Seq::<ShownModel>::empty());
    while i < rows.len()
        invariant
            i <= rows.len(),
            all == views(rows@),
            views(r@) == shown_rows_of(all.take(i as int), account@, tip, min_confs),
        decreases rows.len() - i,
    {
        let ghost before = r@;
        let row = &rows[i];
        assert(all.take(i + 1).drop_last() =~= all.take(i as int));
        assert(all.take(i + 1).last() == row@);
        match history_status(row, account, tip, min_confs) {
            None => {},
            Some(status) => {
                let out = ShownRow {
                    text: row.text.clone(),
                    height: positive_u32(row.mined_height),
                    timestamp: positive_u32(row.block_time),
                    txid: txid_hex(row.txid.as_slice()),
                    output_index: row.output_index,
                    status,
                    write_status: replay_status(status, min_confs),
                };
                let ghost model = out@;
                r.push(out);
                assert(views(r@) =~= views(before).push(model));
            },
        }
        i += 1;
    }
    assert(all.take(i as int) =~= all);
    r
}

/// Discards a snapshot that the wallet has gone back behind.
pub fn wipe_if_rewound(snap: &mut Snapshot, tip: u32) -> (wiped: bool)
    requires
        old(snap).wf(),
    ensures
        final(snap).wf(),
        wiped == (tip != 0 && tip < old(snap)@.watermark.height),
        wiped ==> final(snap)@ == genesis(),
        !wiped ==> *final(snap) == *old(snap),
{
    if tip != 0 && tip < snap.watermark.height {
        snap.wipe();
        true
    } else {
        false
    }
}

/// A write that this client broadcast, with the entry that its stored memo reads
/// as, if it has one.
#[derive(Clone, Debug, PartialEq, Eq)]
pub struct LocalWrite {
    pub entry: PendingEntry,
    pub parsed: Option<HistoryEntry>,
}

/// [`LocalWrite`] as mathematics.
pub struct LocalWriteModel {
    pub entry: LocalModel,
    pub parsed: Option<EntryModel>,
}

impl View for LocalWrite {
    type V = LocalWriteModel;

    open spec fn view(&self) -> LocalWriteModel {
        LocalWriteModel {
            entry: self.entry@,
            parsed: match self.parsed {
                Some(e) => Some(e@),
                None => None,
            },
        }
    }
}

/// The operation that a broadcast write is shown as; none where it is no data
/// write.
pub open spec fn shown_op(op: Seq<char>) -> Option<Op> {
    if op == "SET"@ {
        Some(Op::Put)
    } else if op == "DEL"@ {
        Some(Op::Del)
    } else if op == "INIT"@ {
        Some(Op::Init)
    } else {
        None
    }
}

/// The entry of a broadcast write: the one that its memo reads as, or else one
/// without a signature.
pub open spec fn local_entry(w: LocalWriteModel, op: Op) -> EntryModel {
    match w.parsed {
        Some(e) => e,
        None => EntryModel {
            op,
            key: w.entry.key,
            value: if op is Put {
                match w.entry.value {
                    Some(v) => Some(v),
                    None => Some(Seq::empty()),
                }
            } else {
                None
            },
            height: None,
            timestamp: None,
            txid: w.entry.txid,
            output_index: 0,
            signature: None,
            seq: None,
            signer: None,
            verified: None,
            status: HistoryStatus::Pending,
            memo: w.entry.memo,
            fee: None,
            output_value: None,
        },
    }
}

/// Whether some entry belongs to a transaction.
pub open spec fn has_txid(s: Seq<EntryModel>, txid: Seq<char>) -> bool {
    exists|i: int| 0 <= i < s.len() && (#[trigger] s[i]).txid == txid
}

/// Whether some broadcast write belongs to a transaction.
pub open spec fn is_local(s: Seq<LocalWriteModel>, txid: Seq<char>) -> bool {
    exists|i: int| 0 <= i < s.len() && (#[trigger] s[i]).entry.txid == txid
}

/// Whether a recent entry is shown: its key matches, and a reader that asks for
/// confirmations sees no unmined write but its own.
pub open spec fn is_shown(
    e: EntryModel,
    locals: Seq<LocalWriteModel>,
    min_confs: u32,
    filter: Option<Seq<char>>,
) -> bool {
    &&& filter_matches(e.key, filter)
    &&& min_confs == 0 || !(e.status is Pending) || is_local(locals, e.txid)
}

/// The recent entries that are shown.
pub open spec fn shown_entries(
    live: Seq<EntryModel>,
    locals: Seq<LocalWriteModel>,
    min_confs: u32,
    filter: Option<Seq<char>>,
) -> Seq<EntryModel> {
    live.filter(|e: EntryModel| is_shown(e, locals, min_confs, filter))
}

/// The broadcast writes that the wallet has not shown yet.
pub open spec fn added_entries(
    locals: Seq<LocalWriteModel>,
    seen: Seq<EntryModel>,
    filter: Option<Seq<char>>,
) -> Seq<EntryModel>
    decreases locals.len(),
{
    if locals.len() == 0 {
        Seq::empty()
    } else {
        let before = added_entries(locals.drop_last(), seen, filter);
        let w = locals.last();
        if has_txid(seen, w.entry.txid) || !filter_matches(w.entry.key, filter) {
            before
        } else {
            match shown_op(w.entry.op) {
                Some(op) => before.push(local_entry(w, op)),
                None => before,
            }
        }
    }
}

/// The recent part of the history: newest first, writes in flight on top.
pub open spec fn live_part(
    live: Seq<EntryModel>,
    locals: Seq<LocalWriteModel>,
    min_confs: u32,
    filter: Option<Seq<char>>,
    ops: Option<Seq<Seq<char>>>,
) -> Seq<EntryModel> {
    let shown = shown_entries(live, locals, min_confs, filter);
    sorted::<HistoryEntry>(shown + added_entries(locals, shown, filter)).filter(
        |e: EntryModel| op_matches(op_name(e.op), ops),
    )
}

/// The operation of a recorded row.
pub open spec fn recorded_op(op: Seq<char>) -> Op {
    if op == "SET"@ {
        Op::Put
    } else if op == "SETL"@ {
        Op::SetL
    } else if op == "DEL"@ {
        Op::Del
    } else {
        Op::Init
    }
}

/// The entry of a recorded row. It was honored when it was recorded, so it is
/// verified.
pub open spec fn deep_entry(row: HistModel, tip: u32) -> EntryModel {
    EntryModel {
        op: recorded_op(row.op),
        key: row.key,
        value: row.value,
        height: Some(row.pos.height as u32),
        timestamp: row.block_time,
        txid: shown_txid(row.pos.txid),
        output_index: row.pos.output_index as u32,
        signature: Some(row.signature),
        seq: Some(row.seq),
        signer: Some(row.signer),
        verified: Some(true),
        status: HistoryStatus::Confirmed {
            confirmations: confirmations(Some(row.pos.height as u32), tip) as u32,
        },
        memo: Some(row.memo),
        fee: None,
        output_value: None,
    }
}

/// The recorded part of the history, in the order asked for.
pub open spec fn deep_part(
    h: Seq<HistModel>,
    filter: Option<Seq<char>>,
    ops: Option<Seq<Seq<char>>>,
    ascending: bool,
    tip: u32,
) -> Seq<EntryModel> {
    ordered(selected(h, filter, ops), ascending).map_values(|r: HistModel| deep_entry(r, tip))
}

/// The whole history in the order asked for.
pub open spec fn whole_list(
    live: Seq<EntryModel>,
    h: Seq<HistModel>,
    filter: Option<Seq<char>>,
    ops: Option<Seq<Seq<char>>>,
    order: HistoryOrder,
    tip: u32,
) -> Seq<EntryModel> {
    match order {
        HistoryOrder::Desc => live + deep_part(h, filter, ops, false, tip),
        HistoryOrder::Asc => deep_part(h, filter, ops, true, tip) + live.reverse(),
    }
}

/// The place of the first entry of a transaction.
pub open spec fn first_of(s: Seq<EntryModel>, txid: Seq<char>) -> Option<nat>
    decreases s.len(),
{
    if s.len() == 0 {
        None
    } else {
        match first_of(s.drop_last(), txid) {
            Some(k) => Some(k),
            None => if s.last().txid == txid {
                Some((s.len() - 1) as nat)
            } else {
                None
            },
        }
    }
}

/// The place of a transaction in the whole list, newest first.
pub open spec fn place_of(
    live: Seq<EntryModel>,
    h: Seq<HistModel>,
    filter: Option<Seq<char>>,
    txid: Seq<char>,
) -> Option<nat> {
    match first_of(live, txid) {
        Some(k) => Some(k),
        None => match txid_blob(txid) {
            Some(blob) => match newest_of(selected(h, filter, None), blob) {
                Some(k) => Some((live.len() + k) as nat),
                None => None,
            },
            None => None,
        },
    }
}

/// The offset of the page asked for: the page that holds a transaction, where one
/// is asked for by name and found; newest first only.
pub open spec fn page_offset(
    live: Seq<EntryModel>,
    h: Seq<HistModel>,
    filter: Option<Seq<char>>,
    order: HistoryOrder,
    limit: Option<u32>,
    offset: u32,
    locate: Option<Seq<char>>,
) -> u32 {
    if order is Desc && locate is Some && limit is Some && limit->0 > 0 {
        match place_of(live, h, filter, locate->0) {
            Some(r) => ((r as int / limit->0 as int * limit->0 as int) % 0x1_0000_0000) as u32,
            None => offset,
        }
    } else {
        offset
    }
}

/// The entry as it is shown: `INIT` under the reader's own address of the
/// database, whatever the memo echoed.
pub open spec fn with_own_address(e: EntryModel, addr: Seq<char>) -> EntryModel {
    if e.op is Init {
        EntryModel { key: addr, ..e }
    } else {
        e
    }
}

/// Whether some entry belongs to a transaction.
fn any_entry(v: &Vec<HistoryEntry>, txid: &str) -> (r: bool)
    ensures
        r == has_txid(views(v@), txid@),
{
    let mut i: usize = 0;
    while i < v.len()
        invariant
            i <= v.len(),
            forall|k: int| 0 <= k < i ==> (#[trigger] views(v@)[k]).txid != txid@,
        decreases v.len() - i,
    {
        assert(views(v@)[i as int] == v@[i as int]@);
        if str_equal(v[i].txid.as_str(), txid) {
            return true;
        }
        i += 1;
    }
    false
}

/// Whether some broadcast write belongs to a transaction.
fn any_local(v: &Vec<LocalWrite>, txid: &str) -> (r: bool)
    ensures
        r == is_local(views(v@), txid@),
{
    let mut i: usize = 0;
    while i < v.len()
        invariant
            i <= v.len(),
            forall|k: int| 0 <= k < i ==> (#[trigger] views(v@)[k]).entry.txid != txid@,
        decreases v.len() - i,
    {
        assert(views(v@)[i as int] == v@[i as int]@);
        if str_equal(v[i].entry.txid.as_str(), txid) {
            return true;
        }
        i += 1;
    }
    false
}

/// The recent entries that are shown.
fn keep_shown(
    live: &Vec<HistoryEntry>,
    locals: &Vec<LocalWrite>,
    min_confs: u32,
    filter: Option<&str>,
) -> (r: Vec<HistoryEntry>)
    ensures
        views(r@) == shown_entries(views(live@), views(locals@), min_confs, opt_str(filter)),
{
    let ghost all = views(live@);
    let ghost p = |e: EntryModel| is_shown(e, views(locals@), min_confs, opt_str(filter));
    let mut r: Vec<HistoryEntry> = Vec::new();
    let mut i: usize = 0;
    proof {
        reveal(Seq::filter);
        assert(views(r@) =~= all.take(0).filter(p));
    }
    while i < live.len()
        invariant
            i <= live.len(),
            all == views(live@),
            p == (|e: EntryModel| is_shown(e, views(locals@), min_confs, opt_str(filter))),
            views(r@) == all.take(i as int).filter(p),
        decreases live.len() - i,
    {
        let ghost before = r@;
        proof {
            assert(all.take(i + 1).drop_last() =~= all.take(i as int));
            assert(all.take(i + 1).last() == live@[i as int]@);
            reveal(Seq::filter);
        }
        let e = &live[i];
        let in_flight = matches!(e.status, HistoryStatus::Pending);
        if key_matches(e.key.as_str(), filter) && (min_confs == 0 || !in_flight || any_local(
            locals,
            e.txid.as_str(),
        )) {
            r.push(e.copy());
            assert(views(r@) =~= views(before).push(all[i as int]));
        }
        i += 1;
    }
    assert(all.take(i as int) =~= all);
    r
}

/// The entry of a broadcast write.
fn make_local(w: &LocalWrite, op: Op) -> (r: HistoryEntry)
    requires
        shown_op(w@.entry.op) == Some(op),
    ensures
        r@ == local_entry(w@, op),
{
    match &w.parsed {
        Some(e) => e.copy(),
        None => {
            let value = if matches!(op, Op::Put) {
                match &w.entry.value {
                    Some(v) => Some(v.clone()),
                    None => Some(String::new()),
                }
            } else {
                None
            };
            HistoryEntry {
                op,
                key: w.entry.key.clone(),
                value,
                height: None,
                timestamp: None,
                txid: w.entry.txid.clone(),
                output_index: 0,
                signature: None,
                seq: None,
                signer: None,
                verified: None,
                status: HistoryStatus::Pending,
                memo: copy_opt(&w.entry.memo),
                fee: None,
                output_value: None,
            }
        },
    }
}

/// The operation that a broadcast write is shown as.
fn op_to_show(op: &str) -> (r: Option<Op>)
    ensures
        r == shown_op(op@),
{
    if str_equal(op, "SET") {
        Some(Op::Put)
    } else if str_equal(op, "DEL") {
        Some(Op::Del)
    } else if str_equal(op, "INIT") {
        Some(Op::Init)
    } else {
        None
    }
}

/// The broadcast writes that the wallet has not shown yet.
fn add_locals(locals: &Vec<LocalWrite>, seen: &Vec<HistoryEntry>, filter: Option<&str>) -> (r: Vec<
    HistoryEntry,
>)
    ensures
        views(r@) == added_entries(views(locals@), views(seen@), opt_str(filter)),
{
    let ghost all = views(locals@);
    let mut r: Vec<HistoryEntry> = Vec::new();
    let mut i: usize = 0;
    assert(views(r@) =~= added_entries(all.take(0), views(seen@), opt_str(filter)));
    while i < locals.len()
        invariant
            i <= locals.len(),
            all == views(locals@),
            views(r@) == added_entries(all.take(i as int), views(seen@), opt_str(filter)),
        decreases locals.len() - i,
    {
        let ghost before = r@;
        proof {
            assert(all.take(i + 1).drop_last() =~= all.take(i as int));
            assert(all.take(i + 1).last() == locals@[i as int]@);
        }
        let w = &locals[i];
        if !any_entry(seen, w.entry.txid.as_str()) && key_matches(w.entry.key.as_str(), filter) {
            match op_to_show(w.entry.op.as_str()) {
                None => {},
                Some(op) => {
                    r.push(make_local(w, op));
                    assert(views(r@) =~= views(before).push(local_entry(w@, op)));
                },
            }
        }
        i += 1;
    }
    assert(all.take(i as int) =~= all);
    r
}

/// The entries of the operations asked for.
fn keep_ops(v: &Vec<HistoryEntry>, ops: Option<&Vec<String>>) -> (r: Vec<HistoryEntry>)
    ensures
        views(r@) == views(v@).filter(|e: EntryModel| op_matches(op_name(e.op), ops_model(ops))),
{
    let ghost all = views(v@);
    let ghost p = |e: EntryModel| op_matches(op_name(e.op), ops_model(ops));
    let mut r: Vec<HistoryEntry> = Vec::new();
    let mut i: usize = 0;
    proof {
        reveal(Seq::filter);
        assert(views(r@) =~= all.take(0).filter(p));
    }
    while i < v.len()
        invariant
            i <= v.len(),
            all == views(v@),
            p == (|e: EntryModel| op_matches(op_name(e.op), ops_model(ops))),
            views(r@) == all.take(i as int).filter(p),
        decreases v.len() - i,
    {
        let ghost before = r@;
        proof {
            assert(all.take(i + 1).drop_last() =~= all.take(i as int));
            assert(all.take(i + 1).last() == v@[i as int]@);
            reveal(Seq::filter);
        }
        let keep = match ops {
            None => true,
            Some(list) => list.len() == 0 || list_contains(list, v[i].op.as_str()),
        };
        if keep {
            r.push(v[i].copy());
            assert(views(r@) =~= views(before).push(all[i as int]));
        }
        i += 1;
    }
    assert(all.take(i as int) =~= all);
    r
}

/// The recent part of the history.
pub fn live_entries(
    live: &Vec<HistoryEntry>,
    locals: &Vec<LocalWrite>,
    min_confs: u32,
    filter: Option<&str>,
    ops: Option<&Vec<String>>,
) -> (r: Vec<HistoryEntry>)
    ensures
        views(r@) == live_part(
            views(live@),
            views(locals@),
            min_confs,
            opt_str(filter),
            ops_model(ops),
        ),
{
    let mut shown = keep_shown(live, locals, min_confs, filter);
    let mut added = add_locals(locals, &shown, filter);
    let ghost a = shown@;
    let ghost b = added@;
    shown.append(&mut added);
    assert(views(shown@) =~= views(a) + views(b));
    let ordered_entries = stable_sort(shown);
    keep_ops(&ordered_entries, ops)
}

/// The operation of a recorded row.
fn op_of_row(op: &str) -> (r: Op)
    requires
        is_recorded_op(op@),
    ensures
        r == recorded_op(op@),
{
    if str_equal(op, "SET") {
        Op::Put
    } else if str_equal(op, "SETL") {
        Op::SetL
    } else if str_equal(op, "DEL") {
        Op::Del
    } else {
        Op::Init
    }
}

/// The entry of a recorded row.
fn row_to_entry(row: &HistRow, tip: u32) -> (r: HistoryEntry)
    requires
        is_recorded_op(row@.op),
    ensures
        r@ == deep_entry(row@, tip),
{
    HistoryEntry {
        op: op_of_row(row.op.as_str()),
        key: row.key.clone(),
        value: copy_opt(&row.value),
        height: Some(row.mined_height),
        timestamp: row.block_time,
        txid: txid_hex(row.txid.as_slice()),
        output_index: row.output_index,
        signature: Some(row.signature.clone()),
        seq: Some(row.seq),
        signer: Some(row.signer.clone()),
        verified: Some(true),
        status: HistoryStatus::Confirmed {
            confirmations: confirmations_at(Some(row.mined_height), tip),
        },
        memo: Some(row.memo.clone()),
        fee: None,
        output_value: None,
    }
}

/// The place of the first entry of a transaction.
fn position_of(v: &Vec<HistoryEntry>, txid: &str) -> (r: Option<usize>)
    ensures
        r is Some <==> first_of(views(v@), txid@) is Some,
        r matches Some(k) ==> first_of(views(v@), txid@) == Some(k as nat),
{
    let ghost all = views(v@);
    let mut i: usize = 0;
    while i < v.len()
        invariant
            i <= v.len(),
            all == views(v@),
            first_of(all.take(i as int), txid@) is None,
        decreases v.len() - i,
    {
        proof {
            assert(all.take(i + 1).drop_last() =~= all.take(i as int));
            assert(all.take(i + 1).last() == v@[i as int]@);
        }
        if str_equal(v[i].txid.as_str(), txid) {
            proof {
                lemma_first_of_prefix(all, i + 1, txid@);
            }
            return Some(i);
        }
        i += 1;
    }
    assert(all.take(i as int) =~= all);
    None
}

proof fn lemma_first_of_prefix(s: Seq<EntryModel>, k: int, txid: Seq<char>)
    requires
        0 <= k <= s.len(),
        first_of(s.take(k), txid) is Some,
    ensures
        first_of(s, txid) == first_of(s.take(k), txid),
    decreases s.len() - k,
{
    if k < s.len() {
        assert(s.take(k + 1).drop_last() =~= s.take(k));
        lemma_first_of_prefix(s, k + 1, txid);
    } else {
        assert(s.take(k) =~= s);
    }
}

/// The offset of the page asked for.
fn offset_of_page(
    live: &Vec<HistoryEntry>,
    snap: &Snapshot,
    filter: Option<&str>,
    order: HistoryOrder,
    limit: Option<u32>,
    offset: u32,
    locate: Option<&str>,
) -> (r: u32)
    requires
        snap.wf(),
        live.len() + snap.history.len() <= u64::MAX,
    ensures
        r == page_offset(
            views(live@),
            snap@.history,
            opt_str(filter),
            order,
            limit,
            offset,
            opt_str(locate),
        ),
{
    let lim: u32 = match limit {
        Some(l) => l,
        None => {
            return offset;
        },
    };
    let txid = match locate {
        Some(t) => t,
        None => {
            return offset;
        },
    };
    if lim == 0 || matches!(order, HistoryOrder::Asc) {
        return offset;
    }
    let place: Option<u64> = match position_of(live, txid) {
        Some(k) => Some(k as u64),
        None => match txid_blob_from_hex(txid) {
            Some(blob) => match snap.history_locate(filter, blob.as_slice()) {
                Some(k) => {
                    proof {
                        lemma_newest_bound(
                            selected(snap@.history, opt_str(filter), None),
                            blob@,
                        );
                        snap@.history.lemma_filter_len(
                            |r: HistModel|
                                filter_matches(r.key, opt_str(filter))
                                    && op_matches(r.op, None),
                        );
                    }
                    Some(live.len() as u64 + k)
                },
                None => None,
            },
            None => None,
        },
    };
    match place {
        None => offset,
        Some(r) => {
            let l: u64 = lim as u64;
            proof {
                vstd::arithmetic::div_mod::lemma_fundamental_div_mod(r as int, l as int);
                assert(r as int / l as int * l as int <= r) by (nonlinear_arith)
                    requires
                        l > 0,
                        r as int == l as int * (r as int / l as int) + r as int % l as int,
                        r as int % l as int >= 0,
                ;
                assert(0 <= r as int / l as int * l as int) by (nonlinear_arith)
                    requires
                        l > 0,
                        r >= 0,
                ;
            }
            let start: u64 = r / l * l;
            (start % 0x1_0000_0000) as u32
        },
    }
}

proof fn lemma_newest_bound(s: Seq<HistModel>, txid: Seq<u8>)
    ensures
        newest_of(s, txid) matches Some(k) ==> k < s.len(),
    decreases s.len(),
{
    if s.len() > 0 {
        lemma_newest_bound(s.drop_last(), txid);
    }
}

/// A page of two lists in a row is a page of the first and what is left of it on
/// the second.
proof fn lemma_page_of_two<T>(a: Seq<T>, b: Seq<T>, limit: Option<u32>, offset: u32)
    ensures
        page_of(a + b, limit, offset) == page_of(a, limit, offset) + page_of(
            b,
            match limit {
                Some(l) => Some((l - page_of(a, limit, offset).len()) as u32),
                None => None,
            },
            if offset >= a.len() {
                (offset - a.len()) as u32
            } else {
                0
            },
        ),
{
    let rest: Option<u32> = match limit {
        Some(l) => Some((l - page_of(a, limit, offset).len()) as u32),
        None => None,
    };
    let from: u32 = if offset >= a.len() {
        (offset - a.len()) as u32
    } else {
        0
    };
    assert(page_of(a + b, limit, offset) =~= page_of(a, limit, offset) + page_of(b, rest, from));
}

proof fn lemma_page_map<A, B>(s: Seq<A>, f: spec_fn(A) -> B, limit: Option<u32>, offset: u32)
    ensures
        page_of(s, limit, offset).map_values(f) == page_of(s.map_values(f), limit, offset),
{
    assert(page_of(s, limit, offset).map_values(f) =~= page_of(s.map_values(f), limit, offset));
}

/// Copies a page of recent entries behind `out`.
fn push_page(
    out: &mut Vec<HistoryEntry>,
    v: &Vec<HistoryEntry>,
    reversed: bool,
    limit: Option<u32>,
    offset: u32,
)
    ensures
        views(final(out)@) == views(old(out)@) + page_of(
            ordered(views(v@), !reversed),
            limit,
            offset,
        ),
{
    let ghost all = ordered(views(v@), !reversed);
    let ghost head = views(out@);
    let n: usize = v.len();
    let start: usize = if (offset as u64) < n as u64 {
        offset as usize
    } else {
        n
    };
    let stop: usize = match limit {
        None => n,
        Some(l) => if (l as u64) < (n - start) as u64 {
            start + l as usize
        } else {
            n
        },
    };
    let mut i: usize = start;
    assert(views(out@) =~= head + all.subrange(start as int, i as int));
    while i < stop
        invariant
            start <= i <= stop <= n,
            n == v.len(),
            all == ordered(views(v@), !reversed),
            all.len() == n,
            views(out@) == head + all.subrange(start as int, i as int),
        decreases stop - i,
    {
        let at: usize = if reversed {
            n - 1 - i
        } else {
            i
        };
        let ghost before = views(out@);
        assert(all[i as int] == v@[at as int]@);
        out.push(v[at].copy());
        assert(views(out@) =~= before.push(all[i as int]));
        assert(views(out@) =~= head + all.subrange(start as int, i + 1));
        i += 1;
    }
    assert(all.subrange(start as int, stop as int) =~= page_of(all, limit, offset));
}

/// Copies a page of recorded rows behind `out`, and says how many.
fn push_deep(
    out: &mut Vec<HistoryEntry>,
    snap: &Snapshot,
    filter: Option<&str>,
    ops: Option<&Vec<String>>,
    ascending: bool,
    limit: Option<u32>,
    offset: u32,
    tip: u32,
) -> (taken: usize)
    requires
        snap.wf(),
    ensures
        views(final(out)@) == views(old(out)@) + page_of(
            deep_part(snap@.history, opt_str(filter), ops_model(ops), ascending, tip),
            limit,
            offset,
        ),
        taken == page_of(
            deep_part(snap@.history, opt_str(filter), ops_model(ops), ascending, tip),
            limit,
            offset,
        ).len(),
{
    let rows = snap.history_page(filter, ops, ascending, limit, offset);
    let ghost f = |r: HistModel| deep_entry(r, tip);
    let ghost sel = selected(snap@.history, opt_str(filter), ops_model(ops));
    let ghost page = page_of(ordered(sel, ascending), limit, offset);
    let ghost want = page.map_values(f);
    let ghost head = views(out@);
    proof {
        lemma_page_map(ordered(sel, ascending), f, limit, offset);
        lemma_selected_recorded(snap@.history, opt_str(filter), ops_model(ops));
        assert(rows@.map_values(|h: HistRow| h@) == page);
    }
    let mut i: usize = 0;
    assert(views(out@) =~= head + want.take(0));
    while i < rows.len()
        invariant
            i <= rows.len(),
            rows.len() == page.len(),
            want == page.map_values(f),
            f == (|r: HistModel| deep_entry(r, tip)),
            rows@.map_values(|h: HistRow| h@) == page,
            page == page_of(ordered(sel, ascending), limit, offset),
            only_recorded_ops(sel),
            views(out@) == head + want.take(i as int),
        decreases rows.len() - i,
    {
        let ghost before = views(out@);
        proof {
            assert(rows@.map_values(|h: HistRow| h@)[i as int] == rows@[i as int]@);
            assert(page[i as int] == rows@[i as int]@);
            lemma_page_item(sel, ascending, limit, offset, i as int);
        }
        out.push(row_to_entry(&rows[i], tip));
        assert(views(out@) =~= before.push(want[i as int]));
        assert(views(out@) =~= head + want.take(i + 1));
        i += 1;
    }
    assert(want.take(i as int) =~= want);
    rows.len()
}

proof fn lemma_selected_recorded(
    h: Seq<HistModel>,
    filter: Option<Seq<char>>,
    ops: Option<Seq<Seq<char>>>,
)
    requires
        only_recorded_ops(h),
    ensures
        only_recorded_ops(selected(h, filter, ops)),
{
    let p = |r: HistModel|
        filter_matches(r.key, filter) && op_matches(r.op, ops);
    let s = selected(h, filter, ops);
    assert forall|i: int| 0 <= i < s.len() implies is_recorded_op((#[trigger] s[i]).op) by {
        assert(s.contains(s[i]));
        h.lemma_filter_contains_rev(p, s[i]);
        let j = choose|j: int| 0 <= j < h.len() && h[j] == s[i];
        assert(is_recorded_op(h[j].op));
    }
}

proof fn lemma_page_item(
    sel: Seq<HistModel>,
    ascending: bool,
    limit: Option<u32>,
    offset: u32,
    i: int,
)
    requires
        only_recorded_ops(sel),
        0 <= i < page_of(ordered(sel, ascending), limit, offset).len(),
    ensures
        is_recorded_op(page_of(ordered(sel, ascending), limit, offset)[i].op),
{
    let o = ordered(sel, ascending);
    assert(page_of(o, limit, offset)[i] == o[offset + i]);
    let j = if ascending {
        offset + i
    } else {
        sel.len() - 1 - (offset + i)
    };
    assert(o[offset + i] == sel[j]);
}

/// Shows every `INIT` under the reader's own address of the database.
fn own_address(entries: &mut Vec<HistoryEntry>, addr: &str)
    ensures
        views(final(entries)@) == views(old(entries)@).map_values(
            |e: EntryModel| with_own_address(e, addr@),
        ),
{
    let ghost all = views(entries@);
    let ghost f = |e: EntryModel| with_own_address(e, addr@);
    let mut i: usize = 0;
    while i < entries.len()
        invariant
            i <= entries.len(),
            entries.len() == all.len(),
            f == (|e: EntryModel| with_own_address(e, addr@)),
            forall|k: int| 0 <= k < i ==> (#[trigger] entries@[k])@ == f(all[k]),
            forall|k: int| i <= k < all.len() ==> (#[trigger] entries@[k])@ == all[k],
        decreases entries.len() - i,
    {
        assert(entries@[i as int]@ == all[i as int]);
        if matches!(entries[i].op, Op::Init) {
            let mut e = entries[i].copy();
            e.key = addr.to_owned();
            entries.set(i, e);
        }
        i += 1;
    }
    assert(views(entries@) =~= all.map_values(f));
}

/// Whether a result is the page asked for: it is cut from the whole list, recent
/// entries and recorded rows together, and its `total` counts that list.
pub open spec fn is_history_page(
    r: HistoryResult,
    live: Seq<EntryModel>,
    locals: Seq<LocalWriteModel>,
    h: Seq<HistModel>,
    tip: u32,
    signer: Seq<char>,
    zkv_addr: Seq<char>,
    min_confs: u32,
    filter: Option<Seq<char>>,
    ops: Option<Seq<Seq<char>>>,
    order: HistoryOrder,
    limit: Option<u32>,
    offset: u32,
    locate: Option<Seq<char>>,
) -> bool {
    let recent = live_part(live, locals, min_confs, filter, ops);
    let whole = whole_list(recent, h, filter, ops, order, tip);
    let at = page_offset(recent, h, filter, order, limit, offset, locate);
    &&& views(r.entries@) == page_of(whole, limit, at).map_values(
        |e: EntryModel| with_own_address(e, zkv_addr),
    )
    &&& r.total == whole.len()
    &&& r.offset == at
    &&& r.limit == limit
    &&& r.signer@ == signer
}

/// One page of the history.
///
/// `live` holds the entries past the watermark in chain order, `locals` what this
/// client broadcast. The page is cut from the whole list, recent entries and
/// recorded rows together; its `total` counts that list.
pub fn load_history_page(
    snap: &Snapshot,
    live: &Vec<HistoryEntry>,
    locals: &Vec<LocalWrite>,
    tip: u32,
    signer: &str,
    zkv_addr: &str,
    min_confs: u32,
    filter: Option<&str>,
    ops: Option<&Vec<String>>,
    order: HistoryOrder,
    limit: Option<u32>,
    offset: u32,
    locate: Option<&str>,
) -> (r: HistoryResult)
    requires
        snap.wf(),
        live.len() + locals.len() + snap.history.len() <= u64::MAX,
    ensures
        is_history_page(
            r,
            views(live@),
            views(locals@),
            snap@.history,
            tip,
            signer@,
            zkv_addr@,
            min_confs,
            opt_str(filter),
            ops_model(ops),
            order,
            limit,
            offset,
            opt_str(locate),
        ),
{
    let recent = live_entries(live, locals, min_confs, filter, ops);
    let ghost rs = views(recent@);
    proof {
        lemma_live_len(
            views(live@),
            views(locals@),
            min_confs,
            opt_str(filter),
            ops_model(ops),
        );
        let p = |r: HistModel|
            filter_matches(r.key, opt_str(filter)) && op_matches(
                r.op,
                ops_model(ops),
            );
        snap@.history.lemma_filter_len(p);
    }
    let at: u32 = offset_of_page(&recent, snap, filter, order, limit, offset, locate);
    let deep_count: u64 = snap.history_count(filter, ops);
    let total: u64 = recent.len() as u64 + deep_count;
    let mut entries: Vec<HistoryEntry> = Vec::new();
    let ghost deep = deep_part(
        snap@.history,
        opt_str(filter),
        ops_model(ops),
        order is Asc,
        tip,
    );
    assert(views(entries@) =~= Seq::<EntryModel>::empty());
    match order {
        HistoryOrder::Desc => {
            push_page(&mut entries, &recent, false, limit, at);
            let taken: usize = entries.len();
            let rest: Option<u32> = match limit {
                Some(l) => Some(l - taken as u32),
                None => None,
            };
            let from: u32 = if (at as u64) >= recent.len() as u64 {
                at - recent.len() as u32
            } else {
                0
            };
            proof {
                lemma_page_of_two(rs, deep, limit, at);
                assert(views(entries@) =~= page_of(rs, limit, at));
            }
            let _ = push_deep(&mut entries, snap, filter, ops, false, rest, from, tip);
            assert(views(entries@) =~= page_of(rs + deep, limit, at));
        },
        HistoryOrder::Asc => {
            let taken: usize = push_deep(&mut entries, snap, filter, ops, true, limit, at, tip);
            let rest: Option<u32> = match limit {
                Some(l) => Some(l - taken as u32),
                None => None,
            };
            let from: u32 = if (at as u64) >= deep_count {
                at - deep_count as u32
            } else {
                0
            };
            proof {
                lemma_page_of_two(deep, rs.reverse(), limit, at);
                assert(views(entries@) =~= page_of(deep, limit, at));
            }
            push_page(&mut entries, &recent, true, rest, from);
            assert(views(entries@) =~= page_of(deep + rs.reverse(), limit, at));
        },
    }
    own_address(&mut entries, zkv_addr);
    HistoryResult { signer: signer.to_owned(), entries, total, offset: at, limit }
}

/// What a reader makes of a recent memo.
#[derive(Clone, Debug, PartialEq, Eq)]
pub struct Reading {
    pub op: Op,
    pub key: String,
    pub value: Option<String>,
    pub signature: Option<String>,
    pub seq: Option<u64>,
    pub signer: Option<String>,
    /// Whether the signer may write so, if that could be told.
    pub verified: Option<bool>,
}

/// [`Reading`] as mathematics.
pub struct ReadingModel {
    pub op: Op,
    pub key: Seq<char>,
    pub value: Option<Seq<char>>,
    pub signature: Option<Seq<char>>,
    pub seq: Option<u64>,
    pub signer: Option<Seq<char>>,
    pub verified: Option<bool>,
}

impl View for Reading {
    type V = ReadingModel;

    open spec fn view(&self) -> ReadingModel {
        ReadingModel {
            op: self.op,
            key: self.key@,
            value: opt_text(self.value),
            signature: opt_text(self.signature),
            seq: self.seq,
            signer: opt_text(self.signer),
            verified: self.verified,
        }
    }
}

/// The entry of a recent memo that was read.
pub open spec fn entry_read(row: ShownModel, x: ReadingModel) -> EntryModel {
    EntryModel {
        op: x.op,
        key: x.key,
        value: x.value,
        height: row.height,
        timestamp: row.timestamp,
        txid: row.txid,
        output_index: row.output_index,
        signature: x.signature,
        seq: x.seq,
        signer: x.signer,
        verified: x.verified,
        status: row.status,
        memo: Some(row.text),
        fee: None,
        output_value: None,
    }
}

/// The entries of the recent memos that could be read, in their order.
pub open spec fn entries_read(rows: Seq<ShownModel>, outs: Seq<Option<Reading>>) -> Seq<EntryModel>
    decreases rows.len(),
{
    if rows.len() == 0 {
        Seq::empty()
    } else {
        let before = entries_read(rows.drop_last(), outs);
        match outs[rows.len() - 1] {
            Some(x) => before.push(entry_read(rows.last(), x@)),
            None => before,
        }
    }
}

/// Whether a reader makes this of the recent memos, one by one. It knows the
/// confirmed state and the memos around each.
pub open spec fn are_outcomes<R: Fn(&ReplayResult, &Vec<ShownRow>, usize) -> Option<Reading>>(
    read: R,
    seed: ReplayResult,
    rows: Vec<ShownRow>,
    outs: Seq<Option<Reading>>,
) -> bool {
    &&& outs.len() == rows@.len()
    &&& forall|i: usize|
        i < outs.len() ==> read.ensures((&seed, &rows, i), #[trigger] outs[i as int])
}

/// Whether entries are those of the memos that a wallet holds past what the
/// snapshot has taken in, as `decode` and `read` make them out.
pub open spec fn is_recent_history<
    D: Fn(&str) -> (Option<Op>, Option<Command>),
    R: Fn(&ReplayResult, &Vec<ShownRow>, usize) -> Option<Reading>,
>(
    decode: D,
    read: R,
    wallet: WalletRows,
    account: Seq<u8>,
    pool: ShieldedPool,
    snap: Snapshot,
    min_confs: u32,
    live: Seq<EntryModel>,
) -> bool {
    exists|
        rows: Seq<DecodedModel>,
        seed: ReplayResult,
        shown: Vec<ShownRow>,
        outs: Seq<Option<Reading>>,
    |
        #![trigger are_readings(decode, wallet.memos(account, snap@.watermark, pool), rows), are_outcomes(read, seed, shown, outs)]
        {
            &&& are_readings(decode, wallet.memos(account, snap@.watermark, pool), rows)
            &&& is_seed_of(seed, snap@)
            &&& views(shown@) == shown_rows_of(rows, account, wallet.tip, min_confs)
            &&& are_outcomes(read, seed, shown, outs)
            &&& live == entries_read(views(shown@), outs)
        }
}

/// Has `read` read the recent memos.
fn read_entries<R: Fn(&ReplayResult, &Vec<ShownRow>, usize) -> Option<Reading>>(
    seed: &ReplayResult,
    rows: &Vec<ShownRow>,
    read: &R,
) -> (r: (Vec<HistoryEntry>, Ghost<Seq<Option<Reading>>>))
    requires
        forall|s: &ReplayResult, v: &Vec<ShownRow>, i: usize| #[trigger] read.requires((s, v, i)),
    ensures
        are_outcomes(*read, *seed, *rows, r.1@),
        views(r.0@) == entries_read(views(rows@), r.1@),
        r.0.len() <= rows.len(),
{
    let ghost all = views(rows@);
    let ghost mut outs: Seq<Option<Reading>> = Seq::empty();
    let mut r: Vec<HistoryEntry> = Vec::new();
    let mut i: usize = 0;
    assert(views(r@) =~= Seq::<EntryModel>::empty());
    while i < rows.len()
        invariant
            i <= rows.len(),
            all == views(rows@),
            outs.len() == i,
            r.len() <= i,
            forall|s: &ReplayResult, v: &Vec<ShownRow>, k: usize| #[trigger]
                read.requires((s, v, k)),
            forall|k: usize| k < i ==> read.ensures((seed, rows, k), #[trigger] outs[k as int]),
            views(r@) == entries_read(all.take(i as int), outs),
        decreases rows.len() - i,
    {
        let ghost before = r@;
        let ghost known = outs;
        let out = read(seed, rows, i);
        proof {
            outs = outs.push(out);
            assert(all.take(i + 1).drop_last() =~= all.take(i as int));
            assert(all.take(i + 1).last() == rows@[i as int]@);
            lemma_entries_read(all.take(i as int), known, outs);
            assert forall|k: usize| k < i + 1 implies read.ensures(
                (seed, rows, k),
                #[trigger] outs[k as int],
            ) by {
                if k < i {
                    assert(outs[k as int] == known[k as int]);
                }
            }
        }
        match out {
            None => {},
            Some(x) => {
                let row = &rows[i];
                let ghost model = entry_read(row@, x@);
                let e = HistoryEntry {
                    op: x.op,
                    key: x.key,
                    value: x.value,
                    height: row.height,
                    timestamp: row.timestamp,
                    txid: row.txid.clone(),
                    output_index: row.output_index,
                    signature: x.signature,
                    seq: x.seq,
                    signer: x.signer,
                    verified: x.verified,
                    status: row.status,
                    memo: Some(row.text.clone()),
                    fee: None,
                    output_value: None,
                };
                assert(e@ == model);
                r.push(e);
                assert(views(r@) =~= views(before).push(model));
            },
        }
        i += 1;
    }
    assert(all.take(i as int) =~= all);
    (r, Ghost(outs))
}

proof fn lemma_entries_read(rows: Seq<ShownModel>, a: Seq<Option<Reading>>, b: Seq<Option<Reading>>)
    requires
        rows.len() <= a.len() <= b.len(),
        forall|i: int| 0 <= i < a.len() ==> a[i] == #[trigger] b[i],
    ensures
        entries_read(rows, a) == entries_read(rows, b),
    decreases rows.len(),
{
    if rows.len() > 0 {
        lemma_entries_read(rows.drop_last(), a, b);
        assert(a[rows.len() - 1] == b[rows.len() - 1]);
    }
}

proof fn lemma_shown_len(rows: Seq<DecodedModel>, account: Seq<u8>, tip: u32, min_confs: u32)
    ensures
        shown_rows_of(rows, account, tip, min_confs).len() <= rows.len(),
    decreases rows.len(),
{
    if rows.len() > 0 {
        lemma_shown_len(rows.drop_last(), account, tip, min_confs);
    }
}

/// The snapshot from which the history is shown: none that the wallet has gone back
/// behind.
pub open spec fn history_start(m: SnapModel, tip: u32) -> SnapModel {
    if tip != 0 && tip < m.watermark.height {
        genesis()
    } else {
        m
    }
}

/// One page of a database's history, from what its wallet holds: discards a
/// snapshot that the wallet has gone back behind, scans past the watermark, has
/// `decode` tell what each memo asks for and `read` read those that are shown, and
/// cuts the page.
pub fn load_history<
    D: Fn(&str) -> (Option<Op>, Option<Command>),
    R: Fn(&ReplayResult, &Vec<ShownRow>, usize) -> Option<Reading>,
>(
    snap: &mut Snapshot,
    wallet: &WalletRows,
    account: &[u8],
    pool: ShieldedPool,
    decode: D,
    read: R,
    locals: &Vec<LocalWrite>,
    signer: &str,
    zkv_addr: &str,
    min_confs: u32,
    filter: Option<&str>,
    ops: Option<&Vec<String>>,
    order: HistoryOrder,
    limit: Option<u32>,
    offset: u32,
    locate: Option<&str>,
) -> (r: HistoryResult)
    requires
        old(snap).wf(),
        forall|t: &str| #[trigger] decode.requires((t,)),
        forall|s: &ReplayResult, v: &Vec<ShownRow>, i: usize| #[trigger] read.requires((s, v, i)),
        wallet.outputs.len() + locals.len() + old(snap).history.len() <= u64::MAX,
    ensures
        final(snap).wf(),
        final(snap)@ == history_start(old(snap)@, wallet.tip),
        exists|live: Seq<EntryModel>| #[trigger]
            is_recent_history(
                decode,
                read,
                *wallet,
                account@,
                pool,
                *final(snap),
                min_confs,
                live,
            ) && is_history_page(
                r,
                live,
                views(locals@),
                final(snap)@.history,
                wallet.tip,
                signer@,
                zkv_addr@,
                min_confs,
                opt_str(filter),
                ops_model(ops),
                order,
                limit,
                offset,
                opt_str(locate),
            ),
{
    let _ = wipe_if_rewound(snap, wallet.tip);
    let memos = scan_memos_past_watermark(
        &wallet.outputs,
        account,
        wallet.tip,
        &snap.watermark,
        pool,
    );
    let rows = read_memos(memos, &decode);
    let shown = shown_rows(&rows, account, wallet.tip, min_confs);
    let seed = snap.load_seed();
    let (live, outs) = read_entries(&seed, &shown, &read);
    proof {
        let found = wallet.memos(account@, snap@.watermark, pool);
        assert(are_readings(decode, found, views(rows@)));
        assert(is_seed_of(seed, snap@));
        assert(views(shown@).len() == shown.len());
        assert(snap@.history.len() == snap.history.len());
        assert(old(snap)@.history.len() == old(snap).history.len());
        lemma_shown_len(views(rows@), account@, wallet.tip, min_confs);
        lemma_scan_len(views(wallet.outputs@), account@, wallet.tip, snap@.watermark, pool);
        assert(are_outcomes(read, seed, shown, outs@));
        assert(is_recent_history(
            decode,
            read,
            *wallet,
            account@,
            pool,
            *snap,
            min_confs,
            views(live@),
        ));
    }
    load_history_page(
        snap,
        &live,
        locals,
        wallet.tip,
        signer,
        zkv_addr,
        min_confs,
        filter,
        ops,
        order,
        limit,
        offset,
        locate,
    )
}

proof fn lemma_added_len(
    locals: Seq<LocalWriteModel>,
    seen: Seq<EntryModel>,
    filter: Option<Seq<char>>,
)
    ensures
        added_entries(locals, seen, filter).len() <= locals.len(),
    decreases locals.len(),
{
    if locals.len() > 0 {
        lemma_added_len(locals.drop_last(), seen, filter);
    }
}

proof fn lemma_live_len(
    live: Seq<EntryModel>,
    locals: Seq<LocalWriteModel>,
    min_confs: u32,
    filter: Option<Seq<char>>,
    ops: Option<Seq<Seq<char>>>,
)
    ensures
        live_part(live, locals, min_confs, filter, ops).len() <= live.len() + locals.len(),
{
    let shown = shown_entries(live, locals, min_confs, filter);
    live.lemma_filter_len(|e: EntryModel| is_shown(e, locals, min_confs, filter));
    lemma_added_len(locals, shown, filter);
    let both = shown + added_entries(locals, shown, filter);
    crate::sort::sorting_orders_everything::<HistoryEntry>(both);
    sorted::<HistoryEntry>(both).lemma_filter_len(
        |e: EntryModel| op_matches(op_name(e.op), ops),
    );
}

/// The fee and value of one entry, as the wallet has them.
#[derive(Clone, Debug, PartialEq, Eq)]
pub struct TxFacts {
    /// The fee that the wallet recorded for the transaction.
    pub fee: Option<i64>,
    /// Whether the transaction spent a note of this wallet.
    pub spent: bool,
    /// The value of the entry's own output.
    pub value: Option<i64>,
}

/// The fee that is shown: this wallet's own, so only where it spent a note.
pub open spec fn own_fee(fee: Option<i64>, spent: bool) -> Option<u64> {
    match fee {
        Some(f) => if spent && f >= 0 {
            Some(f as u64)
        } else {
            None
        },
        None => None,
    }
}

/// The value that is shown: what the output carried, unless nothing.
pub open spec fn carried_value(value: Option<i64>) -> Option<u64> {
    match value {
        Some(v) => if v > 0 {
            Some(v as u64)
        } else {
            None
        },
        None => None,
    }
}

/// The fee that is shown for a transaction.
pub fn shown_fee(fee: Option<i64>, spent: bool) -> (r: Option<u64>)
    ensures
        r == own_fee(fee, spent),
{
    match fee {
        Some(f) => if spent && f >= 0 {
            Some(f as u64)
        } else {
            None
        },
        None => None,
    }
}

/// The value that is shown for an output.
pub fn shown_value(value: Option<i64>) -> (r: Option<u64>)
    ensures
        r == carried_value(value),
{
    match value {
        Some(v) => if v > 0 {
            Some(v as u64)
        } else {
            None
        },
        None => None,
    }
}

/// The entry with its fee and value filled in; one without a transaction id keeps
/// what it has.
pub open spec fn with_facts(e: EntryModel, f: TxFacts) -> EntryModel {
    if txid_blob(e.txid) is Some {
        EntryModel { fee: own_fee(f.fee, f.spent), output_value: carried_value(f.value), ..e }
    } else {
        e
    }
}

/// Fills each entry's fee and value from what the wallet has recorded.
pub fn fill_tx_fee_and_output(entries: &mut Vec<HistoryEntry>, facts: &Vec<TxFacts>)
    requires
        old(entries).len() == facts.len(),
    ensures
        final(entries).len() == old(entries).len(),
        forall|i: int|
            0 <= i < final(entries).len() ==> (#[trigger] final(entries)@[i])@ == with_facts(
                old(entries)@[i]@,
                facts@[i],
            ),
{
    let ghost all = entries@;
    let mut i: usize = 0;
    while i < entries.len()
        invariant
            i <= entries.len(),
            entries.len() == all.len(),
            facts.len() == all.len(),
            forall|k: int|
                0 <= k < i ==> (#[trigger] entries@[k])@ == with_facts(all[k]@, facts@[k]),
            forall|k: int| i <= k < all.len() ==> (#[trigger] entries@[k])@ == all[k]@,
        decreases entries.len() - i,
    {
        assert(entries@[i as int]@ == all[i as int]@);
        if txid_blob_from_hex(entries[i].txid.as_str()).is_some() {
            let mut e = entries[i].copy();
            e.fee = shown_fee(facts[i].fee, facts[i].spent);
            e.output_value = shown_value(facts[i].value);
            entries.set(i, e);
        }
        i += 1;
    }
}

/// Writes in flight stand on top: no recent entry stands above one that is
/// further from being confirmed, or above a newer one of the same standing.
pub proof fn writes_in_flight_stand_on_top(
    live: Seq<EntryModel>,
    locals: Seq<LocalWriteModel>,
    min_confs: u32,
    filter: Option<Seq<char>>,
    ops: Option<Seq<Seq<char>>>,
    i: int,
    j: int,
)
    requires
        0 <= i < j < live_part(live, locals, min_confs, filter, ops).len(),
    ensures
        ({
            let a = live_part(live, locals, min_confs, filter, ops)[i];
            let b = live_part(live, locals, min_confs, filter, ops)[j];
            rank_of(a.status) < rank_of(b.status) || rank_of(a.status) == rank_of(b.status)
                && sort_height(a.height) >= sort_height(b.height)
        }),
{
    let shown = shown_entries(live, locals, min_confs, filter);
    let both = shown + added_entries(locals, shown, filter);
    let p = |e: EntryModel| op_matches(op_name(e.op), ops);
    crate::sort::sorting_orders_everything::<HistoryEntry>(both);
    crate::sort::lemma_filter_sorted::<HistoryEntry>(sorted::<HistoryEntry>(both), p);
    let l = live_part(live, locals, min_confs, filter, ops);
    assert(!HistoryEntry::precedes(l[j], l[i]));
}

proof fn lemma_first_of(s: Seq<EntryModel>, txid: Seq<char>)
    ensures
        first_of(s, txid) matches Some(k) ==> k < s.len() && s[k as int].txid == txid,
    decreases s.len(),
{
    if s.len() > 0 {
        lemma_first_of(s.drop_last(), txid);
    }
}

/// Oldest first is newest first, reversed.
pub proof fn oldest_first_is_newest_first_reversed(
    live: Seq<EntryModel>,
    h: Seq<HistModel>,
    filter: Option<Seq<char>>,
    ops: Option<Seq<Seq<char>>>,
    tip: u32,
)
    ensures
        whole_list(live, h, filter, ops, HistoryOrder::Asc, tip) == whole_list(
            live,
            h,
            filter,
            ops,
            HistoryOrder::Desc,
            tip,
        ).reverse(),
{
    assert(whole_list(live, h, filter, ops, HistoryOrder::Asc, tip) =~= whole_list(
        live,
        h,
        filter,
        ops,
        HistoryOrder::Desc,
        tip,
    ).reverse());
}

/// Every page is cut from one and the same list, and tells how long that list is;
/// and the list that is shown oldest first is the one that is shown newest first,
/// reversed.
pub proof fn pages_are_cut_from_one_list(
    page: HistoryResult,
    all: HistoryResult,
    newest_first: HistoryResult,
    live: Seq<EntryModel>,
    locals: Seq<LocalWriteModel>,
    h: Seq<HistModel>,
    tip: u32,
    signer: Seq<char>,
    zkv_addr: Seq<char>,
    min_confs: u32,
    filter: Option<Seq<char>>,
    ops: Option<Seq<Seq<char>>>,
    order: HistoryOrder,
    limit: u32,
    offset: u32,
)
    requires
        is_history_page(
            page,
            live,
            locals,
            h,
            tip,
            signer,
            zkv_addr,
            min_confs,
            filter,
            ops,
            order,
            Some(limit),
            offset,
            None,
        ),
        is_history_page(
            all,
            live,
            locals,
            h,
            tip,
            signer,
            zkv_addr,
            min_confs,
            filter,
            ops,
            order,
            None,
            0,
            None,
        ),
        is_history_page(
            newest_first,
            live,
            locals,
            h,
            tip,
            signer,
            zkv_addr,
            min_confs,
            filter,
            ops,
            HistoryOrder::Desc,
            None,
            0,
            None,
        ),
    ensures
        ({
            let n = all.entries.len() as int;
            let from = if offset < n {
                offset as int
            } else {
                n
            };
            let to = if offset + limit < n {
                offset + limit
            } else {
                n
            };
            views(page.entries@) == views(all.entries@).subrange(from, to)
        }),
        page.total == all.entries.len(),
        all.total == all.entries.len(),
        views(all.entries@) == (if order is Desc {
            views(newest_first.entries@)
        } else {
            views(newest_first.entries@).reverse()
        }),
{
    let f = |e: EntryModel| with_own_address(e, zkv_addr);
    let recent = live_part(live, locals, min_confs, filter, ops);
    let whole = whole_list(recent, h, filter, ops, order, tip);
    let desc = whole_list(recent, h, filter, ops, HistoryOrder::Desc, tip);
    oldest_first_is_newest_first_reversed(recent, h, filter, ops, tip);
    unlimited_page_is_everything(whole);
    unlimited_page_is_everything(desc);
    assert(views(all.entries@).len() == all.entries.len());
    assert(desc.reverse().map_values(f) =~= desc.map_values(f).reverse());
    let n = all.entries.len() as int;
    let from = if offset < n {
        offset as int
    } else {
        n
    };
    let to = if offset + limit < n {
        offset + limit
    } else {
        n
    };
    assert(views(page.entries@) =~= views(all.entries@).subrange(from, to));
}

/// A write that is asked for by its transaction stands on the page that is given
/// for it.
pub proof fn located_write_is_on_the_page(
    live: Seq<EntryModel>,
    h: Seq<HistModel>,
    filter: Option<Seq<char>>,
    limit: u32,
    offset: u32,
    txid: Seq<char>,
    tip: u32,
    r: nat,
)
    requires
        limit > 0,
        place_of(live, h, filter, txid) == Some(r),
        r <= u32::MAX,
    ensures
        ({
            let whole = whole_list(live, h, filter, None, HistoryOrder::Desc, tip);
            let at = page_offset(live, h, filter, HistoryOrder::Desc, Some(limit), offset, Some(txid));
            let page = page_of(whole, Some(limit), at);
            &&& at <= r
            &&& r - at < page.len()
            &&& page[r - at].txid == txid || txid_blob(page[r - at].txid) == txid_blob(txid)
        }),
{
    let whole = whole_list(live, h, filter, None, HistoryOrder::Desc, tip);
    let deep = deep_part(h, filter, None, false, tip);
    let l = limit as int;
    let q = r as int / l;
    vstd::arithmetic::div_mod::lemma_fundamental_div_mod(r as int, l);
    vstd::arithmetic::div_mod::lemma_mod_bound(r as int, l);
    assert(q * l == l * q) by (nonlinear_arith);
    assert(q * l >= 0) by (nonlinear_arith)
        requires
            l > 0,
            q >= 0,
    ;
    let at = page_offset(live, h, filter, HistoryOrder::Desc, Some(limit), offset, Some(txid));
    assert(at == q * l);
    assert(r - at < l);
    match first_of(live, txid) {
        Some(k) => {
            lemma_first_of(live, txid);
            assert(whole[r as int] == live[r as int]);
        },
        None => {
            let blob = txid_blob(txid)->0;
            let sel = selected(h, filter, None);
            let k = newest_of(sel, blob)->0;
            lemma_newest_place(sel, blob);
            assert(ordered(sel, false)[k as int] == sel[sel.len() - 1 - k]);
            assert(deep[k as int] == deep_entry(sel[sel.len() - 1 - k], tip));
            assert(whole[r as int] == deep[k as int]);
            crate::internal::txid::txid_round_trip(blob);
        },
    }
    assert(page_of(whole, Some(limit), at)[r - at] == whole[r as int]);
}

proof fn lemma_newest_place(s: Seq<HistModel>, txid: Seq<u8>)
    ensures
        newest_of(s, txid) matches Some(k) ==> k < s.len() && s[s.len() - 1 - k].pos.txid == txid,
    decreases s.len(),
{
    if s.len() > 0 && s.last().pos.txid != txid {
        lemma_newest_place(s.drop_last(), txid);
    }
}

/// A memo of the whole chain, for an audit.
#[derive(Clone, Debug, PartialEq, Eq)]
pub struct AuditEntry {
    pub mined_height: Option<u32>,
    pub timestamp: Option<u32>,
    /// The shown transaction id.
    pub txid: String,
    pub text: String,
    pub status: WriteStatus,
}

/// [`AuditEntry`] as mathematics.
pub struct AuditModel {
    pub mined_height: Option<u32>,
    pub timestamp: Option<u32>,
    pub txid: Seq<char>,
    pub text: Seq<char>,
    pub status: WriteStatus,
}

impl View for AuditEntry {
    type V = AuditModel;

    open spec fn view(&self) -> AuditModel {
        AuditModel {
            mined_height: self.mined_height,
            timestamp: self.timestamp,
            txid: self.txid@,
            text: self.text@,
            status: self.status,
        }
    }
}

/// A row as an audit sees it: nothing is left out, a shallow memo is one that
/// still confirms.
pub open spec fn audited(row: DecodedModel, tip: u32, min_confs: u32) -> AuditModel {
    let mined = block_height(row.mined_height);
    let done = confirmations(mined, tip) as u32;
    AuditModel {
        mined_height: mined,
        timestamp: block_height(row.block_time),
        txid: shown_txid(row.txid),
        text: row.text,
        status: if mined is Some && done >= min_confs {
            WriteStatus::Confirmed
        } else {
            WriteStatus::Confirming { done, required: min_confs }
        },
    }
}

/// The memos of the whole chain, for an audit.
pub fn load_audit(rows: &Vec<DecodedRow>, tip: u32, min_confs: u32) -> (r: Vec<AuditEntry>)
    ensures
        views(r@) == views(rows@).map_values(|d: DecodedModel| audited(d, tip, min_confs)),
{
    let mut r: Vec<AuditEntry> = Vec::new();
    let mut i: usize = 0;
    while i < rows.len()
        invariant
            i <= rows.len(),
            r.len() == i,
            forall|k: int| 0 <= k < i ==> (#[trigger] r@[k])@ == audited(rows@[k]@, tip, min_confs),
        decreases rows.len() - i,
    {
        let row = &rows[i];
        let mined: Option<u32> = positive_u32(row.mined_height);
        let done: u32 = confirmations_at(mined, tip);
        let status = if mined.is_some() && done >= min_confs {
            WriteStatus::Confirmed
        } else {
            WriteStatus::Confirming { done, required: min_confs }
        };
        r.push(
            AuditEntry {
                mined_height: mined,
                timestamp: positive_u32(row.block_time),
                txid: txid_hex(row.txid.as_slice()),
                text: row.text.clone(),
                status,
            },
        );
        i += 1;
    }
    assert(views(r@) =~= views(rows@).map_values(|d: DecodedModel| audited(d, tip, min_confs)));
    r
}

/// Recorded writes are shown as the commands that wrote them: on the whole history
/// every recorded row stands once, at its place in chain order, with its operation,
/// key and value, where and when it was mined, who signed it and over which
/// sequence. It counts as verified and confirmed. An `INIT` stands under the
/// reader's own address.
pub proof fn recorded_writes_are_shown_as_written(
    r: HistoryResult,
    live: Seq<EntryModel>,
    locals: Seq<LocalWriteModel>,
    h: Seq<HistModel>,
    tip: u32,
    signer: Seq<char>,
    zkv_addr: Seq<char>,
    min_confs: u32,
    order: HistoryOrder,
    k: int,
) -> (j: int)
    requires
        is_history_page(
            r,
            live,
            locals,
            h,
            tip,
            signer,
            zkv_addr,
            min_confs,
            None,
            None,
            order,
            None,
            0,
            None,
        ),
        0 <= k < h.len(),
        is_recorded_op(h[k].op),
        0 <= h[k].pos.height <= u32::MAX,
        0 <= h[k].pos.output_index <= u32::MAX,
    ensures
        order is Desc ==> j == r.total - 1 - k,
        order is Asc ==> j == k,
        0 <= j < r.entries.len(),
        ({
            let e = r.entries@[j]@;
            let row = h[k];
            &&& row.op == "SET"@ ==> e.op is Put
            &&& row.op == "SETL"@ ==> e.op is SetL
            &&& row.op == "DEL"@ ==> e.op is Del
            &&& row.op == "INIT"@ ==> e.op is Init
            &&& op_name(e.op) == row.op
            &&& e.key == (if row.op == "INIT"@ {
                zkv_addr
            } else {
                row.key
            })
            &&& e.value == row.value
            &&& e.height == Some(row.pos.height as u32)
            &&& e.timestamp == row.block_time
            &&& e.output_index == row.pos.output_index
            &&& row.pos.txid.len() == 32 ==> e.txid == txid_text(row.pos.txid)
            &&& e.signature == Some(row.signature)
            &&& e.signer == Some(row.signer)
            &&& e.seq == Some(row.seq)
            &&& e.memo == Some(row.memo)
            &&& e.verified == Some(true)
            &&& e.status is Confirmed
            &&& 0 < row.pos.height <= tip ==> e.status == (HistoryStatus::Confirmed {
                confirmations: (tip - row.pos.height + 1) as u32,
            })
        }),
{
    lemma_recorded_names();
    let sel = selected(h, None, None);
    let p = |x: HistModel| filter_matches(x.key, None) && op_matches(x.op, None);
    lemma_filter_all(h, p);
    let recent = live_part(live, locals, min_confs, None, None);
    let whole = whole_list(recent, h, None, None, order, tip);
    unlimited_page_is_everything(whole);
    let j: int = match order {
        HistoryOrder::Desc => recent.len() + (h.len() - 1 - k),
        HistoryOrder::Asc => k,
    };
    assert(whole[j] == deep_entry(h[k], tip));
    let f = |e: EntryModel| with_own_address(e, zkv_addr);
    assert(views(r.entries@).len() == r.entries.len());
    assert(views(r.entries@)[j] == f(whole[j]));
    assert(views(r.entries@)[j] == r.entries@[j]@);
    j
}

proof fn lemma_recorded_names()
    ensures
        "SET"@ != "SETL"@,
        "SET"@ != "DEL"@,
        "SET"@ != "INIT"@,
        "SETL"@ != "DEL"@,
        "SETL"@ != "INIT"@,
        "DEL"@ != "INIT"@,
{
    reveal_strlit("SET");
    reveal_strlit("SETL");
    reveal_strlit("DEL");
    reveal_strlit("INIT");
    assert("SET"@[0] == 'S' && "DEL"@[0] == 'D' && "INIT"@[0] == 'I' && "SETL"@[0] == 'S');
    assert("SET"@.len() == 3 && "SETL"@.len() == 4);
}

proof fn lemma_filter_all<T>(s: Seq<T>, p: spec_fn(T) -> bool)
    requires
        forall|i: int| 0 <= i < s.len() ==> p(#[trigger] s[i]),
    ensures
        s.filter(p) == s,
    decreases s.len(),
{
    reveal(Seq::filter);
    if s.len() > 0 {
        let t = s.drop_last();
        assert forall|i: int| 0 <= i < t.len() implies p(#[trigger] t[i]) by {
            assert(p(s[i]));
        }
        lemma_filter_all(t, p);
        assert(p(s[s.len() - 1]));
        assert(t.push(s.last()) =~= s);
    } else {
        assert(s.filter(p) =~= s);
    }
}

/// A write that the database accepted is on its history, as the command that it
/// was: its operation, key and value, its signer and sequence, and the place and
/// time of its memo.
pub proof fn an_accepted_write_is_shown(
    m: SnapModel,
    row: RowModel,
    cmd: CommandModel,
    root: Seq<char>,
    window: u64,
    n: SnapModel,
    r: HistoryResult,
    live: Seq<EntryModel>,
    locals: Seq<LocalWriteModel>,
    tip: u32,
    signer: Seq<char>,
    zkv_addr: Seq<char>,
    min_confs: u32,
    order: HistoryOrder,
) -> (j: int)
    requires
        row.command == Some(cmd),
        accepts(m, cmd, root, window),
        cmd.op is Put || cmd.op is SetL || cmd.op is Del,
        step(m, row, root, window) == Ok::<SnapModel, PromoteError>(n),
        0 <= row.pos.height <= u32::MAX,
        0 <= row.pos.output_index <= u32::MAX,
        is_history_page(
            r,
            live,
            locals,
            n.history,
            tip,
            signer,
            zkv_addr,
            min_confs,
            None,
            None,
            order,
            None,
            0,
            None,
        ),
    ensures
        0 <= j < r.entries.len(),
        ({
            let e = r.entries@[j]@;
            &&& e.op == cmd.op
            &&& e.key == cmd.key
            &&& e.value == (if cmd.op is Del {
                None
            } else {
                cmd.value
            })
            &&& e.height == Some(row.pos.height as u32)
            &&& e.timestamp == row.block_time
            &&& e.output_index == row.pos.output_index
            &&& row.pos.txid.len() == 32 ==> e.txid == txid_text(row.pos.txid)
            &&& e.signer == Some(cmd.signer)
            &&& e.seq == Some(cmd.seq)
            &&& e.signature == Some(cmd.sig)
            &&& e.memo == Some(row.memo)
            &&& e.verified == Some(true)
            &&& e.status is Confirmed
        }),
{
    let k = an_accepted_write_is_recorded(m, row, cmd, root, window, n);
    lemma_recorded_names();
    recorded_writes_are_shown_as_written(
        r,
        live,
        locals,
        n.history,
        tip,
        signer,
        zkv_addr,
        min_confs,
        order,
        k,
    )
}

/// A filter and a list of operations show the recorded writes that match both, and
/// no other recorded write: those whose key holds the filter, and whose operation
/// is in the list.
pub proof fn a_filter_shows_what_matches(
    h: Seq<HistModel>,
    filter: Seq<char>,
    ops: Seq<Seq<char>>,
    row: HistModel,
    ascending: bool,
    tip: u32,
)
    requires
        ops.len() > 0,
    ensures
        selected(h, Some(filter), Some(ops)).contains(row) <==> h.contains(row) && is_substring(
            ascii_lowered(row.key),
            ascii_lowered(filter),
        ) && ops.contains(row.op),
        selected(h, None, Some(ops)).contains(row) <==> h.contains(row) && ops.contains(row.op),
        selected(h, Some(filter), None).contains(row) <==> h.contains(row) && is_substring(
            ascii_lowered(row.key),
            ascii_lowered(filter),
        ),
        selected(h, None, None) == h,
        selected(h, None, Some(Seq::empty())) == h,
        deep_part(h, Some(filter), Some(ops), ascending, tip).len() == selected(
            h,
            Some(filter),
            Some(ops),
        ).len(),
{
    let both = |x: HistModel| filter_matches(x.key, Some(filter)) && op_matches(x.op, Some(ops));
    let by_op = |x: HistModel| filter_matches(x.key, None) && op_matches(x.op, Some(ops));
    let by_key = |x: HistModel| filter_matches(x.key, Some(filter)) && op_matches(x.op, None);
    lemma_filter_holds(h, both, row);
    lemma_filter_holds(h, by_op, row);
    lemma_filter_holds(h, by_key, row);
    lemma_filter_all(h, |x: HistModel| filter_matches(x.key, None) && op_matches(x.op, None));
    lemma_filter_all(
        h,
        |x: HistModel| filter_matches(x.key, None) && op_matches(x.op, Some(Seq::empty())),
    );
}

proof fn lemma_filter_holds<T>(s: Seq<T>, p: spec_fn(T) -> bool, x: T)
    ensures
        s.filter(p).contains(x) <==> s.contains(x) && p(x),
{
    if s.filter(p).contains(x) {
        s.lemma_filter_contains_rev(p, x);
        s.filter_lemma(p);
        let i = choose|i: int| 0 <= i < s.filter(p).len() && s.filter(p)[i] == x;
        assert(p(s.filter(p)[i]));
    }
    if s.contains(x) && p(x) {
        let i = choose|i: int| 0 <= i < s.len() && s[i] == x;
        s.filter_lemma(p);
        assert(s.filter(p).contains(s[i]));
    }
}

/// How a recent memo is shown: one that is not mined is pending; one as deep as is
/// asked for is confirmed, with its depth; a shallower one confirms where it is our
/// own, and is hidden where it is not. An `INIT` needs one confirmation at most.
pub proof fn how_a_recent_memo_is_shown(
    row: DecodedModel,
    account: Seq<u8>,
    tip: u32,
    min_confs: u32,
)
    ensures
        row.mined_height is None || row.mined_height->0 <= 0 ==> live_status(
            row,
            account,
            tip,
            min_confs,
        ) == Some(HistoryStatus::Pending),
        row.mined_height matches Some(h) && 0 < h <= tip ==> {
            let depth = tip - row.mined_height->0 + 1;
            let required: int = if row.parsed_op == Some(Op::Init) && min_confs >= 1 {
                1
            } else {
                min_confs as int
            };
            let s = live_status(row, account, tip, min_confs);
            if depth >= required {
                s == Some(HistoryStatus::Confirmed { confirmations: depth as u32 })
            } else if row.from_uuid == Some(account) {
                s == Some(
                    HistoryStatus::Confirming { done: depth as u32, required: required as u32 },
                )
            } else {
                s is None
            }
        },
{
}

/// A recent memo that is shown says where it comes from: its text, height, time,
/// transaction and output are those of the memo.
pub proof fn a_shown_memo_says_where_it_comes_from(
    rows: Seq<DecodedModel>,
    account: Seq<u8>,
    tip: u32,
    min_confs: u32,
    k: int,
) -> (j: int)
    requires
        0 <= k < rows.len(),
        live_status(rows[k], account, tip, min_confs) is Some,
    ensures
        0 <= j < shown_rows_of(rows, account, tip, min_confs).len(),
        ({
            let e = shown_rows_of(rows, account, tip, min_confs)[j];
            let row = rows[k];
            &&& e.text == row.text
            &&& e.height == block_height(row.mined_height)
            &&& e.timestamp == block_height(row.block_time)
            &&& e.output_index == row.output_index
            &&& row.txid.len() == 32 ==> e.txid == txid_text(row.txid)
            &&& live_status(row, account, tip, min_confs) == Some(e.status)
            &&& e.write_status is Confirmed <==> e.status is Confirmed
            &&& e.status matches HistoryStatus::Confirming { done, required } ==> e.write_status
                == (WriteStatus::Confirming { done, required })
            &&& e.status is Pending ==> e.write_status == (WriteStatus::Confirming {
                done: 0,
                required: min_confs,
            })
        }),
    decreases rows.len(),
{
    if k == rows.len() - 1 {
        shown_rows_of(rows, account, tip, min_confs).len() - 1
    } else {
        a_shown_memo_says_where_it_comes_from(rows.drop_last(), account, tip, min_confs, k)
    }
}

/// A recent memo that was read is shown as it reads, under its own place, status
/// and text.
pub proof fn a_read_memo_is_shown_as_it_reads(
    rows: Seq<ShownModel>,
    outs: Seq<Option<Reading>>,
    k: int,
) -> (j: int)
    requires
        0 <= k < rows.len() <= outs.len(),
        outs[k] is Some,
    ensures
        0 <= j < entries_read(rows, outs).len(),
        ({
            let e = entries_read(rows, outs)[j];
            let x = (outs[k]->0)@;
            &&& e.op == x.op
            &&& e.key == x.key
            &&& e.value == x.value
            &&& e.signature == x.signature
            &&& e.seq == x.seq
            &&& e.signer == x.signer
            &&& e.verified == x.verified
            &&& e.height == rows[k].height
            &&& e.timestamp == rows[k].timestamp
            &&& e.txid == rows[k].txid
            &&& e.output_index == rows[k].output_index
            &&& e.status == rows[k].status
            &&& e.memo == Some(rows[k].text)
        }),
    decreases rows.len(),
{
    if k == rows.len() - 1 {
        entries_read(rows, outs).len() - 1
    } else {
        a_read_memo_is_shown_as_it_reads(rows.drop_last(), outs, k)
    }
}

/// Who sees what is not mined: everybody who asks for no confirmations, and else
/// only who broadcast it. What is mined is shown to all, as far as the filter goes.
pub proof fn unmined_writes_are_shown_to_their_author(
    live: Seq<EntryModel>,
    locals: Seq<LocalWriteModel>,
    min_confs: u32,
    e: EntryModel,
)
    requires
        live.contains(e),
    ensures
        shown_entries(live, locals, min_confs, None).contains(e) <==> min_confs == 0
            || e.status is Confirming || e.status is Confirmed || exists|i: int|
            0 <= i < locals.len() && (#[trigger] locals[i]).entry.txid == e.txid,
{
    lemma_filter_holds(live, |x: EntryModel| is_shown(x, locals, min_confs, None), e);
}

/// A write that this client broadcast is on top of the history at once: until the
/// wallet shows its transaction, it stands there as pending, under its own
/// transaction, with what it wrote. Once the wallet shows the transaction, it is
/// not added a second time.
pub proof fn a_broadcast_write_is_shown_at_once(
    live: Seq<EntryModel>,
    locals: Seq<LocalWriteModel>,
    min_confs: u32,
    k: int,
) -> (e: EntryModel)
    requires
        0 <= k < locals.len(),
        locals[k].parsed is None,
        locals[k].entry.op == "SET"@ || locals[k].entry.op == "DEL"@ || locals[k].entry.op
            == "INIT"@,
        forall|i: int|
            0 <= i < live.len() ==> (#[trigger] live[i]).txid != locals[k].entry.txid,
    ensures
        live_part(live, locals, min_confs, None, None).contains(e),
        e.status is Pending,
        e.height is None,
        e.txid == locals[k].entry.txid,
        e.key == locals[k].entry.key,
        e.memo == locals[k].entry.memo,
        locals[k].entry.op == "SET"@ ==> e.op is Put && (locals[k].entry.value is Some ==> e.value
            == locals[k].entry.value),
        locals[k].entry.op == "DEL"@ ==> e.op is Del && e.value is None,
        locals[k].entry.op == "INIT"@ ==> e.op is Init && e.value is None,
{
    lemma_recorded_names();
    let shown = shown_entries(live, locals, min_confs, None);
    let p = |x: EntryModel| is_shown(x, locals, min_confs, None);
    assert forall|i: int| 0 <= i < shown.len() implies (#[trigger] shown[i]).txid
        != locals[k].entry.txid by {
        assert(shown.contains(shown[i]));
        live.lemma_filter_contains_rev(p, shown[i]);
        let q = choose|q: int| 0 <= q < live.len() && live[q] == shown[i];
        assert(live[q].txid != locals[k].entry.txid);
    }
    let j = lemma_added(locals, shown, k);
    let added = added_entries(locals, shown, None);
    let e = added[j];
    let both = shown + added;
    assert(both[shown.len() + j] == e);
    lemma_sorting_keeps(both, e);
    let all = sorted::<HistoryEntry>(both);
    lemma_filter_holds(all, |x: EntryModel| op_matches(op_name(x.op), None), e);
    e
}

proof fn lemma_sorting_keeps(s: Seq<EntryModel>, e: EntryModel)
    requires
        s.contains(e),
    ensures
        sorted::<HistoryEntry>(s).contains(e),
{
    broadcast use vstd::seq_lib::group_to_multiset_ensures;

    crate::sort::sorting_orders_everything::<HistoryEntry>(s);
    assert(s.to_multiset().count(e) > 0);
    assert(sorted::<HistoryEntry>(s).to_multiset().count(e) > 0);
}

proof fn lemma_added(locals: Seq<LocalWriteModel>, seen: Seq<EntryModel>, k: int) -> (j: int)
    requires
        0 <= k < locals.len(),
        shown_op(locals[k].entry.op) is Some,
        !has_txid(seen, locals[k].entry.txid),
    ensures
        0 <= j < added_entries(locals, seen, None).len(),
        added_entries(locals, seen, None)[j] == local_entry(
            locals[k],
            shown_op(locals[k].entry.op)->0,
        ),
    decreases locals.len(),
{
    if k == locals.len() - 1 {
        added_entries(locals, seen, None).len() - 1
    } else {
        lemma_added(locals.drop_last(), seen, k)
    }
}

/// No broadcast write is added that the wallet shows already, and none but a data
/// write or an `INIT`.
pub proof fn nothing_is_shown_twice(
    locals: Seq<LocalWriteModel>,
    seen: Seq<EntryModel>,
    filter: Option<Seq<char>>,
    j: int,
)
    requires
        0 <= j < added_entries(locals, seen, filter).len(),
    ensures
        exists|k: int|
            0 <= k < locals.len() && !has_txid(seen, (#[trigger] locals[k]).entry.txid) && (
            locals[k].entry.op == "SET"@ || locals[k].entry.op == "DEL"@ || locals[k].entry.op
                == "INIT"@) && (locals[k].parsed is None ==> added_entries(
                locals,
                seen,
                filter,
            )[j].txid == locals[k].entry.txid) && (locals[k].parsed matches Some(e)
                ==> added_entries(locals, seen, filter)[j] == e),
    decreases locals.len(),
{
    let front = locals.drop_last();
    let before = added_entries(front, seen, filter);
    if j < before.len() {
        nothing_is_shown_twice(front, seen, filter, j);
        let k = choose|k: int|
            0 <= k < front.len() && !has_txid(seen, (#[trigger] front[k]).entry.txid) && (
            front[k].entry.op == "SET"@ || front[k].entry.op == "DEL"@ || front[k].entry.op
                == "INIT"@) && (front[k].parsed is None ==> before[j].txid == front[k].entry.txid)
                && (front[k].parsed matches Some(e) ==> before[j] == e);
        assert(locals[k] == front[k]);
    } else {
        assert(!has_txid(seen, locals[locals.len() - 1].entry.txid));
    }
}

/// The recent writes stand with those in flight on top, then those that confirm,
/// then the confirmed ones; among each from the highest block down, and within a
/// block from the last output down.
pub proof fn recent_writes_are_newest_first(
    live: Seq<EntryModel>,
    locals: Seq<LocalWriteModel>,
    min_confs: u32,
    filter: Option<Seq<char>>,
    ops: Option<Seq<Seq<char>>>,
    i: int,
    j: int,
)
    requires
        0 <= i < j < live_part(live, locals, min_confs, filter, ops).len(),
    ensures
        ({
            let a = live_part(live, locals, min_confs, filter, ops)[i];
            let b = live_part(live, locals, min_confs, filter, ops)[j];
            &&& b.status is Pending ==> a.status is Pending
            &&& b.status is Confirming ==> !(a.status is Confirmed)
            &&& a.status is Confirmed && b.status is Confirmed && a.height is Some
                && b.height is Some ==> a.height->0 >= b.height->0
            &&& a.status is Confirming && b.status is Confirming && a.height is Some
                && b.height is Some ==> a.height->0 >= b.height->0
            &&& a.status is Confirmed && b.status is Confirmed && a.height == b.height
                ==> a.output_index >= b.output_index
        }),
{
    let shown = shown_entries(live, locals, min_confs, filter);
    let both = shown + added_entries(locals, shown, filter);
    let p = |e: EntryModel| op_matches(op_name(e.op), ops);
    crate::sort::sorting_orders_everything::<HistoryEntry>(both);
    crate::sort::lemma_filter_sorted::<HistoryEntry>(sorted::<HistoryEntry>(both), p);
    let l = live_part(live, locals, min_confs, filter, ops);
    assert(!HistoryEntry::precedes(l[j], l[i]));
}

/// A write that is on the history is found by its transaction.
pub proof fn a_known_write_is_located(
    live: Seq<EntryModel>,
    h: Seq<HistModel>,
    txid: Seq<u8>,
    k: int,
)
    requires
        txid.len() == 32,
        0 <= k < h.len() ==> h[k].pos.txid == txid,
        0 <= k < h.len() || live.len() > 0 && exists|i: int|
            0 <= i < live.len() && (#[trigger] live[i]).txid == txid_text(txid),
    ensures
        place_of(live, h, None, txid_text(txid)) is Some,
{
    crate::internal::txid::txid_round_trip(txid);
    if exists|i: int| 0 <= i < live.len() && (#[trigger] live[i]).txid == txid_text(txid) {
        let i = choose|i: int| 0 <= i < live.len() && (#[trigger] live[i]).txid == txid_text(txid);
        lemma_first_found(live, txid_text(txid), i);
    } else {
        lemma_filter_all(h, |x: HistModel| filter_matches(x.key, None) && op_matches(x.op, None));
        lemma_newest_found(h, txid, k);
    }
}

proof fn lemma_first_found(s: Seq<EntryModel>, txid: Seq<char>, i: int)
    requires
        0 <= i < s.len(),
        s[i].txid == txid,
    ensures
        first_of(s, txid) is Some,
    decreases s.len(),
{
    if i < s.len() - 1 {
        lemma_first_found(s.drop_last(), txid, i);
    }
}

proof fn lemma_newest_found(s: Seq<HistModel>, txid: Seq<u8>, i: int)
    requires
        0 <= i < s.len(),
        s[i].pos.txid == txid,
    ensures
        newest_of(s, txid) is Some,
    decreases s.len(),
{
    if i < s.len() - 1 {
        lemma_newest_found(s.drop_last(), txid, i);
    }
}

/// The fee of an entry is this wallet's own: it is shown where the wallet spent a
/// note, and hidden where another paid it. A value is shown where there is one. All
/// else stays as it was.
pub proof fn fees_are_shown_to_who_paid_them(e: EntryModel, f: TxFacts)
    requires
        txid_blob(e.txid) is Some,
    ensures
        ({
            let g = with_facts(e, f);
            &&& f.spent && f.fee is Some && f.fee->0 >= 0 ==> g.fee == Some(f.fee->0 as u64)
            &&& !f.spent || f.fee is None ==> g.fee is None
            &&& f.value is Some && f.value->0 > 0 ==> g.output_value == Some(f.value->0 as u64)
            &&& f.value is None || f.value->0 <= 0 ==> g.output_value is None
            &&& g == (EntryModel { fee: g.fee, output_value: g.output_value, ..e })
        }),
{
}

/// What an audit says of a memo: it counts as confirmed once it is mined as deep as
/// is asked for, and confirms before that, with its depth; its text, transaction,
/// height and time are its own.
pub proof fn an_audit_judges_by_depth(row: DecodedModel, tip: u32, min_confs: u32)
    ensures
        ({
            let a = audited(row, tip, min_confs);
            &&& a.text == row.text
            &&& row.txid.len() == 32 ==> a.txid == txid_text(row.txid)
            &&& a.mined_height == block_height(row.mined_height)
            &&& a.timestamp == block_height(row.block_time)
            &&& row.mined_height is None || row.mined_height->0 <= 0 ==> a.status == (
            WriteStatus::Confirming { done: 0, required: min_confs })
            &&& row.mined_height matches Some(h) ==> (0 < h <= tip ==> {
                let depth = tip - h + 1;
                if depth >= min_confs {
                    a.status is Confirmed
                } else {
                    a.status == (WriteStatus::Confirming {
                        done: depth as u32,
                        required: min_confs,
                    })
                }
            })
        }),
{
}

/// The page that is given for a write starts where the pages of that size start, so
/// that it is one of the pages that turning them gives; and where no write is asked
/// for, or none is found, or the order is oldest first, the page is the one that was
/// asked for.
pub proof fn a_located_page_is_one_of_the_pages(
    live: Seq<EntryModel>,
    h: Seq<HistModel>,
    filter: Option<Seq<char>>,
    limit: u32,
    offset: u32,
    txid: Seq<char>,
)
    requires
        limit > 0,
    ensures
        place_of(live, h, filter, txid) matches Some(r) ==> (r <= u32::MAX ==> page_offset(
            live,
            h,
            filter,
            HistoryOrder::Desc,
            Some(limit),
            offset,
            Some(txid),
        ) % limit == 0),
        place_of(live, h, filter, txid) is None ==> page_offset(
            live,
            h,
            filter,
            HistoryOrder::Desc,
            Some(limit),
            offset,
            Some(txid),
        ) == offset,
        page_offset(live, h, filter, HistoryOrder::Asc, Some(limit), offset, Some(txid)) == offset,
        page_offset(live, h, filter, HistoryOrder::Desc, None, offset, Some(txid)) == offset,
        page_offset(live, h, filter, HistoryOrder::Desc, Some(limit), offset, None) == offset,
{
    if place_of(live, h, filter, txid) is Some {
        let r = place_of(live, h, filter, txid)->0 as int;
        let l = limit as int;
        let q = r / l;
        vstd::arithmetic::div_mod::lemma_fundamental_div_mod(r, l);
        vstd::arithmetic::div_mod::lemma_mod_bound(r, l);
        assert(0 <= q * l <= r) by (nonlinear_arith)
            requires
                l > 0,
                r >= 0,
                q >= 0,
                r == l * q + r % l,
                r % l >= 0,
        ;
        vstd::arithmetic::div_mod::lemma_mod_multiples_basic(q, l);
    }
}

/// A page says whose database it shows, how long the whole list is, and which part
/// of it this is.
pub proof fn a_page_says_what_it_is(
    r: HistoryResult,
    live: Seq<EntryModel>,
    locals: Seq<LocalWriteModel>,
    h: Seq<HistModel>,
    tip: u32,
    signer: Seq<char>,
    zkv_addr: Seq<char>,
    min_confs: u32,
    filter: Option<Seq<char>>,
    ops: Option<Seq<Seq<char>>>,
    order: HistoryOrder,
    limit: Option<u32>,
    offset: u32,
)
    requires
        is_history_page(
            r,
            live,
            locals,
            h,
            tip,
            signer,
            zkv_addr,
            min_confs,
            filter,
            ops,
            order,
            limit,
            offset,
            None,
        ),
    ensures
        r.signer@ == signer,
        r.offset == offset,
        r.limit == limit,
        limit matches Some(l) ==> r.entries.len() <= l,
        r.entries.len() <= r.total,
        filter is None && ops is None ==> r.total >= h.len(),
        filter is None && ops is None ==> r.total == h.len() + live_part(
            live,
            locals,
            min_confs,
            None,
            None,
        ).len(),
{
    assert(views(r.entries@).len() == r.entries.len());
    lemma_filter_all(h, |x: HistModel| filter_matches(x.key, None) && op_matches(x.op, None));
}

/// A list of operations shows only recent entries of those, and all of them that are
/// shown without it.
pub proof fn operations_pick_recent_entries(
    live: Seq<EntryModel>,
    locals: Seq<LocalWriteModel>,
    min_confs: u32,
    filter: Option<Seq<char>>,
    ops: Seq<Seq<char>>,
    e: EntryModel,
)
    requires
        ops.len() > 0,
    ensures
        live_part(live, locals, min_confs, filter, Some(ops)).contains(e) <==> live_part(
            live,
            locals,
            min_confs,
            filter,
            None,
        ).contains(e) && ops.contains(op_name(e.op)),
{
    let shown = shown_entries(live, locals, min_confs, filter);
    let all = sorted::<HistoryEntry>(shown + added_entries(locals, shown, filter));
    lemma_filter_holds(all, |x: EntryModel| op_matches(op_name(x.op), Some(ops)), e);
    lemma_filter_holds(all, |x: EntryModel| op_matches(op_name(x.op), None), e);
}

/// A snapshot that the wallet has gone back behind is not shown; any other is shown
/// as it is.
pub proof fn a_rewound_wallet_starts_over(m: SnapModel, tip: u32)
    ensures
        0 < tip < m.watermark.height ==> history_start(m, tip) == genesis(),
        tip == 0 || tip >= m.watermark.height ==> history_start(m, tip) == m,
        genesis().history.len() == 0,
        !genesis().initialized,
{
}

} // verus!
