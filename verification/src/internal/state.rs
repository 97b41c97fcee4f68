//! Reading a database: which memos enter the snapshot, and which are replayed on
//! top of it.

use crate::internal::pool::{
    block_height, positive_u32, unenhanced_floor, waiting_min, OutputRow, ShieldedPool,
};
use crate::internal::scan::{
    decoded_memo, is_deep, memo_place, scan_is_in_chain_order, scan_memos_past_watermark,
    scan_picks_up_where_it_stopped, scanned, ScannedMemo, ScannedModel, StoredModel, StoredOutput,
};
use crate::internal::snapshot::{
    accepts, copy_bytes, fold, genesis, has_row, lemma_fold_append, lemma_fold_never_undone,
    lemma_fold_watermark, promote_in_parts, promoted, read_gives_back_the_write, step, Command,
    CommandModel, Pos, PromoteError, PromoteRow, RowModel, SnapModel, Snapshot, SAFE_DEPTH,
};
use crate::internal::txid::{txid_hex, txid_text};
use crate::lex::bytes_equal;
use crate::protocol::{is_data_op, InitState, Op, ReplayResult, WriteStatus};
use crate::sort::{sorted, views, Ranked};
use crate::text::copy_opt;
use vstd::prelude::*;
use vstd::string::*;

verus! {

/// How deep an `INIT` must lie to count as confirmed.
pub const INIT_CONFIRMATIONS: u32 = 1;

/// How deep a memo must lie to count as confirmed. `INIT` has its own depth,
/// unless the reader asks for less.
pub open spec fn required_confs(is_init: bool, min_confs: u32) -> u32 {
    if is_init && INIT_CONFIRMATIONS < min_confs {
        INIT_CONFIRMATIONS
    } else {
        min_confs
    }
}

/// How deep a memo must lie to count as confirmed.
pub fn effective_min_confs(is_init: bool, min_confs: u32) -> (r: u32)
    ensures
        r == required_confs(is_init, min_confs),
{
    if is_init && INIT_CONFIRMATIONS < min_confs {
        INIT_CONFIRMATIONS
    } else {
        min_confs
    }
}

/// The smaller of two heights.
pub open spec fn lower(a: int, b: int) -> int {
    if a < b {
        a
    } else {
        b
    }
}

/// `a - b`, and zero where that is negative.
pub open spec fn minus(a: int, b: int) -> int {
    if a >= b {
        a - b
    } else {
        0
    }
}

/// The highest block that is both scanned and safe from reorganisation.
pub open spec fn safe_height(tip: u32, fully_scanned: u32) -> int {
    lower(minus(tip as int, SAFE_DEPTH as int), fully_scanned as int)
}

/// The highest block whose memos may enter the snapshot.
pub open spec fn cutoff(tip: u32, fully_scanned: u32, unenhanced_from: Option<u32>) -> int {
    match unenhanced_from {
        Some(h) => lower(safe_height(tip, fully_scanned), minus(h as int, 1)),
        None => safe_height(tip, fully_scanned),
    }
}

/// The highest block whose memos may enter the snapshot: deep enough, within
/// what is scanned without gaps, and below the lowest output whose memo has not
/// arrived.
pub fn promote_cutoff(tip: u32, fully_scanned: u32, unenhanced_from: Option<u32>) -> (r: u32)
    ensures
        r == cutoff(tip, fully_scanned, unenhanced_from),
{
    let deep: u32 = tip.saturating_sub(SAFE_DEPTH);
    let safe: u32 = if deep < fully_scanned {
        deep
    } else {
        fully_scanned
    };
    match unenhanced_from {
        Some(h) => {
            let below: u32 = h.saturating_sub(1);
            if safe < below {
                safe
            } else {
                below
            }
        },
        None => safe,
    }
}

/// The cutoff never outruns the scan, the reorganisation margin, or an output
/// whose memo has not arrived.
pub proof fn cutoff_is_safe(tip: u32, fully_scanned: u32, unenhanced_from: Option<u32>)
    ensures
        cutoff(tip, fully_scanned, unenhanced_from) <= fully_scanned,
        cutoff(tip, fully_scanned, unenhanced_from) > 0 ==> cutoff(
            tip,
            fully_scanned,
            unenhanced_from,
        ) + SAFE_DEPTH <= tip,
        unenhanced_from matches Some(h) ==> cutoff(tip, fully_scanned, unenhanced_from) < h || cutoff(
            tip,
            fully_scanned,
            unenhanced_from,
        ) == 0,
{
}

/// How far an output whose memo has not arrived holds the snapshot back.
#[derive(Clone, Copy, Debug, PartialEq, Eq, Structural)]
pub enum HeldBack {
    No,
    /// By a few blocks: the memo will arrive.
    Waiting(u32),
    /// By more than the reorganisation margin: fetching is stuck.
    Stuck(u32),
}

/// Whether this is how far the snapshot is held back that could reach `free` and
/// reaches `held`.
pub open spec fn is_held_back(r: HeldBack, free: int, held: int) -> bool {
    let by = free - held;
    match r {
        HeldBack::No => by == 0,
        HeldBack::Waiting(n) => n == by && 0 < by <= SAFE_DEPTH,
        HeldBack::Stuck(n) => n == by && by > SAFE_DEPTH,
    }
}

/// How far an output whose memo has not arrived holds the snapshot back.
pub fn held_back(tip: u32, fully_scanned: u32, unenhanced_from: Option<u32>) -> (r: HeldBack)
    ensures
        is_held_back(r, safe_height(tip, fully_scanned), cutoff(tip, fully_scanned, unenhanced_from)),
{
    let free: u32 = promote_cutoff(tip, fully_scanned, None);
    let held: u32 = promote_cutoff(tip, fully_scanned, unenhanced_from);
    let by: u32 = free - held;
    if by == 0 {
        HeldBack::No
    } else if by > SAFE_DEPTH {
        HeldBack::Stuck(by)
    } else {
        HeldBack::Waiting(by)
    }
}

/// A text memo from the wallet, past the watermark.
#[derive(Clone, Debug, PartialEq, Eq)]
pub struct DecodedRow {
    pub text: String,
    /// What the memo asks for, if it parses as an operation.
    pub parsed_op: Option<Op>,
    /// The operation with its signer, if its signature leads to one.
    pub command: Option<Command>,
    /// Where it was mined; none or not positive means not yet.
    pub mined_height: Option<i64>,
    pub block_time: Option<i64>,
    /// The account of this wallet that sent it, if one did.
    pub from_uuid: Option<Vec<u8>>,
    pub txid: Vec<u8>,
    pub output_index: u32,
}

/// [`DecodedRow`] as mathematics.
pub struct DecodedModel {
    pub text: Seq<char>,
    pub parsed_op: Option<Op>,
    pub command: Option<CommandModel>,
    pub mined_height: Option<i64>,
    pub block_time: Option<i64>,
    pub from_uuid: Option<Seq<u8>>,
    pub txid: Seq<u8>,
    pub output_index: u32,
}

impl View for DecodedRow {
    type V = DecodedModel;

    open spec fn view(&self) -> DecodedModel {
        DecodedModel {
            text: self.text@,
            parsed_op: self.parsed_op,
            command: match self.command {
                Some(c) => Some(c@),
                None => None,
            },
            mined_height: self.mined_height,
            block_time: self.block_time,
            from_uuid: match self.from_uuid {
                Some(u) => Some(u@),
                None => None,
            },
            txid: self.txid@,
            output_index: self.output_index,
        }
    }
}

/// How deep a row lies: zero while it is not mined.
pub open spec fn confirmations(mined: Option<u32>, tip: u32) -> int {
    match mined {
        None => 0,
        Some(h) => lower(minus(tip as int, h as int) + 1, u32::MAX as int),
    }
}

/// How deep a row lies.
pub fn confirmations_at(mined: Option<u32>, tip: u32) -> (r: u32)
    ensures
        r == confirmations(mined, tip),
{
    match mined {
        None => 0,
        Some(h) => tip.saturating_sub(h).saturating_add(1),
    }
}

/// How deep a row must lie to count as confirmed.
pub open spec fn row_required(row: DecodedModel, min_confs: u32) -> u32 {
    required_confs(row.parsed_op == Some(Op::Init), min_confs)
}

/// What becomes of a row that does not enter the snapshot: it is replayed with a
/// status, or left out where it came from elsewhere and lies too shallow.
pub open spec fn tail_status(
    row: DecodedModel,
    account: Seq<u8>,
    tip: u32,
    min_confs: u32,
) -> Option<WriteStatus> {
    let mined = block_height(row.mined_height);
    let required = row_required(row, min_confs);
    if mined is None {
        Some(WriteStatus::Confirming { done: 0, required })
    } else if confirmations(mined, tip) >= required {
        Some(WriteStatus::Confirmed)
    } else if row.from_uuid == Some(account) {
        Some(WriteStatus::Confirming { done: confirmations(mined, tip) as u32, required })
    } else {
        None
    }
}

/// Whether a row enters the snapshot.
pub open spec fn is_promotable(row: DecodedModel, cut: u32) -> bool {
    block_height(row.mined_height) matches Some(h) && h <= cut
}

/// The row as it enters the snapshot.
pub open spec fn promote_row(row: DecodedModel) -> RowModel {
    RowModel {
        pos: Pos {
            height: block_height(row.mined_height)->0 as int,
            txid: row.txid,
            output_index: row.output_index as int,
        },
        block_time: block_height(row.block_time),
        memo: row.text,
        command: row.command,
    }
}

/// A memo that is replayed on top of the snapshot.
#[derive(Clone, Debug, PartialEq, Eq)]
pub struct TailRow {
    pub text: String,
    pub status: WriteStatus,
    /// The shown transaction id.
    pub txid: String,
    pub block_time: Option<u32>,
}

/// [`TailRow`] as mathematics.
pub struct TailModel {
    pub text: Seq<char>,
    pub status: WriteStatus,
    pub txid: Seq<char>,
    pub block_time: Option<u32>,
}

impl View for TailRow {
    type V = TailModel;

    open spec fn view(&self) -> TailModel {
        TailModel {
            text: self.text@,
            status: self.status,
            txid: self.txid@,
            block_time: self.block_time,
        }
    }
}

/// The shown form of a transaction id, empty where it has none.
pub open spec fn shown_txid(b: Seq<u8>) -> Seq<char> {
    if b.len() == 32 {
        txid_text(b)
    } else {
        Seq::empty()
    }
}

/// The row as it is replayed.
pub open spec fn tail_row(row: DecodedModel, status: WriteStatus) -> TailModel {
    TailModel {
        text: row.text,
        status,
        txid: shown_txid(row.txid),
        block_time: block_height(row.block_time),
    }
}

/// The rows that enter the snapshot, in their order.
pub open spec fn promotable_rows(rows: Seq<DecodedModel>, cut: u32) -> Seq<RowModel>
    decreases rows.len(),
{
    if rows.len() == 0 {
        Seq::empty()
    } else if is_promotable(rows.last(), cut) {
        promotable_rows(rows.drop_last(), cut).push(promote_row(rows.last()))
    } else {
        promotable_rows(rows.drop_last(), cut)
    }
}

/// The rows that are replayed on top, in their order.
pub open spec fn tail_rows(
    rows: Seq<DecodedModel>,
    account: Seq<u8>,
    tip: u32,
    min_confs: u32,
    cut: u32,
) -> Seq<TailModel>
    decreases rows.len(),
{
    if rows.len() == 0 {
        Seq::empty()
    } else {
        let before = tail_rows(rows.drop_last(), account, tip, min_confs, cut);
        let row = rows.last();
        if is_promotable(row, cut) {
            before
        } else {
            match tail_status(row, account, tip, min_confs) {
                Some(status) => before.push(tail_row(row, status)),
                None => before,
            }
        }
    }
}

/// Whether a row was sent by this account.
fn is_self_sent(from: &Option<Vec<u8>>, account: &[u8]) -> (r: bool)
    ensures
        r == (match from {
            Some(u) => u@ == account@,
            None => false,
        }),
{
    match from {
        Some(u) => bytes_equal(u.as_slice(), account),
        None => false,
    }
}

/// A copy of a command.
fn copy_command(c: &Command) -> (r: Command)
    ensures
        r@ == c@,
{
    Command {
        op: c.op,
        key: c.key.clone(),
        target: copy_opt(&c.target),
        value: copy_opt(&c.value),
        seq: c.seq,
        sig_hex: c.sig_hex.clone(),
        signer: c.signer.clone(),
        comment: copy_opt(&c.comment),
    }
}

/// The status with which a row is replayed on top of the snapshot.
fn status_of(row: &DecodedRow, account: &[u8], tip: u32, min_confs: u32) -> (r: Option<WriteStatus>)
    ensures
        r == tail_status(row@, account@, tip, min_confs),
{
    let mined: Option<u32> = positive_u32(row.mined_height);
    let is_init = matches!(row.parsed_op, Some(Op::Init));
    let required: u32 = effective_min_confs(is_init, min_confs);
    let done: u32 = confirmations_at(mined, tip);
    if mined.is_none() {
        Some(WriteStatus::Confirming { done: 0, required })
    } else if done >= required {
        Some(WriteStatus::Confirmed)
    } else if is_self_sent(&row.from_uuid, account) {
        Some(WriteStatus::Confirming { done, required })
    } else {
        None
    }
}

/// A mined row as it enters the snapshot.
fn mined_row(row: &DecodedRow) -> (r: PromoteRow)
    requires
        block_height(row.mined_height) is Some,
    ensures
        r@ == promote_row(row@),
{
    let height: u32 = match positive_u32(row.mined_height) {
        Some(h) => h,
        None => 0,
    };
    let command = match &row.command {
        Some(c) => Some(copy_command(c)),
        None => None,
    };
    PromoteRow {
        mined_height: height,
        txid: copy_bytes(&row.txid),
        output_index: row.output_index,
        block_time: positive_u32(row.block_time),
        memo_text: row.text.clone(),
        command,
    }
}

/// Whether a row that does not enter the snapshot counts as confirmed.
pub open spec fn is_late(
    row: DecodedModel,
    account: Seq<u8>,
    tip: u32,
    min_confs: u32,
    cut: u32,
) -> bool {
    !is_promotable(row, cut) && tail_status(row, account, tip, min_confs) == Some(
        WriteStatus::Confirmed,
    )
}

/// The confirmed rows that do not enter the snapshot, in their order.
pub open spec fn late_rows_of(
    rows: Seq<DecodedModel>,
    account: Seq<u8>,
    tip: u32,
    min_confs: u32,
    cut: u32,
) -> Seq<RowModel>
    decreases rows.len(),
{
    if rows.len() == 0 {
        Seq::empty()
    } else {
        let before = late_rows_of(rows.drop_last(), account, tip, min_confs, cut);
        if is_late(rows.last(), account, tip, min_confs, cut) {
            before.push(promote_row(rows.last()))
        } else {
            before
        }
    }
}

/// The confirmed rows that do not enter the snapshot, in their order.
pub fn late_rows(rows: &Vec<DecodedRow>, account: &[u8], tip: u32, min_confs: u32, cut: u32) -> (r:
    Vec<PromoteRow>)
    ensures
        views(r@) == late_rows_of(views(rows@), account@, tip, min_confs, cut),
{
    let ghost all = views(rows@);
    let mut r: Vec<PromoteRow> = Vec::new();
    let mut i: usize = 0;
    assert(views(r@) =~= Seq::<RowModel>::empty());
    while i < rows.len()
        invariant
            i <= rows.len(),
            all == views(rows@),
            views(r@) == late_rows_of(all.take(i as int), account@, tip, min_confs, cut),
        decreases rows.len() - i,
    {
        let ghost before = r@;
        let row = &rows[i];
        proof {
            assert(all.take(i + 1).drop_last() =~= all.take(i as int));
            assert(all.take(i + 1).last() == row@);
        }
        let above: bool = match positive_u32(row.mined_height) {
            Some(h) => h > cut,
            None => false,
        };
        if above && matches!(status_of(row, account, tip, min_confs), Some(WriteStatus::Confirmed)) {
            r.push(mined_row(row));
            assert(views(r@) =~= views(before).push(promote_row(row@)));
        }
        i += 1;
    }
    assert(all.take(i as int) =~= all);
    r
}

/// Parts the rows past the watermark into those that enter the snapshot and
/// those that are replayed on top of it.
pub fn partition_rows(
    rows: &Vec<DecodedRow>,
    account: &[u8],
    tip: u32,
    min_confs: u32,
    cut: u32,
) -> (r: (Vec<PromoteRow>, Vec<TailRow>))
    ensures
        views(r.0@) == promotable_rows(views(rows@), cut),
        views(r.1@) == tail_rows(views(rows@), account@, tip, min_confs, cut),
{
    let ghost all = views(rows@);
    let mut promotable: Vec<PromoteRow> = Vec::new();
    let mut tail: Vec<TailRow> = Vec::new();
    let mut i: usize = 0;
    assert(views(promotable@) =~= Seq::<RowModel>::empty());
    assert(views(tail@) =~= Seq::<TailModel>::empty());
    while i < rows.len()
        invariant
            i <= rows.len(),
            all == views(rows@),
            views(promotable@) == promotable_rows(all.take(i as int), cut),
            views(tail@) == tail_rows(all.take(i as int), account@, tip, min_confs, cut),
        decreases rows.len() - i,
    {
        let row = &rows[i];
        proof {
            assert(all.take(i + 1).drop_last() =~= all.take(i as int));
            assert(all.take(i + 1).last() == row@);
        }
        let ghost p0 = promotable@;
        let ghost t0 = tail@;
        let mined: Option<u32> = positive_u32(row.mined_height);
        let promote: bool = match mined {
            Some(h) => h <= cut,
            None => false,
        };
        if promote {
            promotable.push(mined_row(row));
            assert(views(promotable@) =~= views(p0).push(promote_row(row@)));
        } else {
            match status_of(row, account, tip, min_confs) {
                None => {},
                Some(status) => {
                    let out = TailRow {
                        text: row.text.clone(),
                        status,
                        txid: txid_hex(row.txid.as_slice()),
                        block_time: positive_u32(row.block_time),
                    };
                    assert(out@ == tail_row(row@, status));
                    tail.push(out);
                    assert(views(tail@) =~= views(t0).push(tail_row(row@, status)));
                },
            }
        }
        i += 1;
    }
    assert(all.take(i as int) =~= all);
    (promotable, tail)
}

/// Whether a stored snapshot must be discarded: the wallet has gone back behind
/// it, or it moved on without ever having seen the `INIT`.
pub open spec fn must_wipe(m: SnapModel, tip: u32) -> bool {
    ||| tip != 0 && tip < m.watermark.height
    ||| m.watermark.height > 0 && !m.initialized
}

/// Discards a snapshot that cannot be relied on.
pub fn check_snapshot(snap: &mut Snapshot, tip: u32) -> (wiped: bool)
    requires
        old(snap).wf(),
    ensures
        final(snap).wf(),
        wiped == must_wipe(old(snap)@, tip),
        wiped ==> final(snap)@ == genesis(),
        !wiped ==> *final(snap) == *old(snap),
{
    if (tip != 0 && tip < snap.watermark.height) || (snap.watermark.height > 0
        && !snap.initialized) {
        snap.wipe();
        true
    } else {
        false
    }
}

/// What a read gives, and the height as of which it holds.
#[derive(Debug, PartialEq, Eq)]
pub struct LoadedState {
    /// The state that the snapshot holds. What lies above the cutoff is not in it.
    pub seed: ReplayResult,
    /// The confirmed state: that of the snapshot and the confirmed rows above the
    /// cutoff. An error where one of these could not be recorded.
    pub confirmed: Result<ReplayResult, PromoteError>,
    /// The rows above the cutoff, confirmed or not, to replay on top of `seed`.
    pub tail: Vec<TailRow>,
    pub height: u32,
}

/// Whether a read gives what a snapshot and the rows past it come to: the state that
/// the snapshot holds, the confirmed state, and the rows above the cutoff.
pub open spec fn is_loaded(
    s: LoadedState,
    m: SnapModel,
    rows: Seq<DecodedModel>,
    account: Seq<u8>,
    tip: u32,
    min_confs: u32,
    cut: u32,
    root: Seq<char>,
    window: u64,
) -> bool {
    &&& is_seed_of(s.seed, m)
    &&& is_confirmed_state(
        s.confirmed,
        fold(m, late_rows_of(rows, account, tip, min_confs, cut), root, window),
    )
    &&& views(s.tail@) == tail_rows(rows, account, tip, min_confs, cut)
    &&& s.height == tip
}

/// Takes the rows past the watermark in: the deep ones enter the snapshot, the
/// others are left to replay on top of the confirmed state.
pub fn take_in(
    snap: &mut Snapshot,
    rows: &Vec<DecodedRow>,
    account: &[u8],
    tip: u32,
    fully_scanned: u32,
    unenhanced_from: Option<u32>,
    min_confs: u32,
    root: &str,
    window: u64,
) -> (r: Result<LoadedState, PromoteError>)
    requires
        old(snap).wf(),
    ensures
        final(snap).wf(),
        ({
            let cut = cutoff(tip, fully_scanned, unenhanced_from) as u32;
            let batch = promotable_rows(views(rows@), cut);
            match r {
                Err(e) => promoted(old(snap)@, batch, root@, window) == Err::<
                    SnapModel,
                    PromoteError,
                >(e) && final(snap)@ == old(snap)@,
                Ok(s) => {
                    &&& promoted(old(snap)@, batch, root@, window) == Ok::<SnapModel, PromoteError>(
                        final(snap)@,
                    )
                    &&& is_loaded(
                        s,
                        final(snap)@,
                        views(rows@),
                        account@,
                        tip,
                        min_confs,
                        cut,
                        root@,
                        window,
                    )
                },
            }
        }),
{
    let cut: u32 = promote_cutoff(tip, fully_scanned, unenhanced_from);
    let (promotable, tail) = partition_rows(rows, account, tip, min_confs, cut);
    assert(crate::internal::snapshot::row_models(promotable@) =~= views(promotable@));
    match snap.promote(&promotable, root, window) {
        Err(e) => {
            return Err(e);
        },
        Ok(_) => {},
    }
    let late = late_rows(rows, account, tip, min_confs, cut);
    assert(crate::internal::snapshot::row_models(late@) =~= views(late@));
    let confirmed: Result<ReplayResult, PromoteError> = match snap.folded(&late, root, window) {
        Ok(s) => Ok(s.load_seed()),
        Err(e) => Err(e),
    };
    let seed = snap.load_seed();
    Ok(LoadedState { seed, confirmed, tail, height: tip })
}

/// What a decoder makes of the text of a memo: what it asks for, and the operation
/// with its signer.
pub open spec fn is_reading<F: Fn(&str) -> (Option<Op>, Option<Command>)>(
    decode: F,
    memo: ScannedModel,
    row: DecodedModel,
) -> bool {
    exists|t: &str, out: (Option<Op>, Option<Command>)| #[trigger]
        decode.ensures((t,), out) && t@ == memo.text && row == decoded_memo(
            memo,
            out.0,
            match out.1 {
                Some(c) => Some(c@),
                None => None,
            },
        )
}

/// Whether each row is what a decoder makes of the memo in its place.
pub open spec fn are_readings<F: Fn(&str) -> (Option<Op>, Option<Command>)>(
    decode: F,
    memos: Seq<ScannedModel>,
    rows: Seq<DecodedModel>,
) -> bool {
    &&& rows.len() == memos.len()
    &&& forall|i: int| 0 <= i < rows.len() ==> is_reading(decode, memos[i], #[trigger] rows[i])
}

/// Reads the memos, one by one.
pub fn read_memos<F: Fn(&str) -> (Option<Op>, Option<Command>)>(memos: Vec<ScannedMemo>, decode: &F) -> (r:
    Vec<DecodedRow>)
    requires
        forall|t: &str| #[trigger] decode.requires((t,)),
    ensures
        are_readings(*decode, views(memos@), views(r@)),
{
    let ghost all = views(memos@);
    let mut r: Vec<DecodedRow> = Vec::new();
    let mut i: usize = 0;
    while i < memos.len()
        invariant
            i <= memos.len(),
            r.len() == i,
            all == views(memos@),
            forall|t: &str| #[trigger] decode.requires((t,)),
            forall|k: int| 0 <= k < i ==> is_reading(*decode, all[k], (#[trigger] r@[k])@),
        decreases memos.len() - i,
    {
        let memo = &memos[i];
        let text: &str = memo.text.as_str();
        let out = decode(text);
        assert(decode.ensures((text,), out));
        let row = memo.copy().decoded(out.0, out.1);
        assert(is_reading(*decode, all[i as int], row@));
        r.push(row);
        i += 1;
    }
    assert forall|k: int| 0 <= k < r.len() implies is_reading(
        *decode,
        all[k],
        #[trigger] views(r@)[k],
    ) by {
        assert(is_reading(*decode, all[k], r@[k]@));
    }
    r
}

/// The snapshot that a read starts from.
pub open spec fn read_start(m: SnapModel, tip: u32) -> SnapModel {
    if must_wipe(m, tip) {
        genesis()
    } else {
        m
    }
}

/// What a wallet knows of a database: the outputs with their memos, the same as
/// far as the arrival of the memos goes, and how far it has scanned, at all and
/// without a gap.
#[derive(Clone, Debug, PartialEq, Eq)]
pub struct WalletRows {
    pub outputs: Vec<StoredOutput>,
    pub arrivals: Vec<OutputRow>,
    pub tip: u32,
    pub fully_scanned: u32,
}

impl WalletRows {
    /// The text memos past a place on the chain, in chain order.
    pub open spec fn memos(self, account: Seq<u8>, mark: Pos, pool: ShieldedPool) -> Seq<ScannedModel> {
        sorted::<ScannedMemo>(scanned(views(self.outputs@), account, self.tip, mark, pool))
    }

    /// The highest block whose memos may enter the snapshot.
    pub open spec fn cutoff(self, account: Seq<u8>, pool: ShieldedPool) -> u32 {
        cutoff(
            self.tip,
            self.fully_scanned,
            block_height(waiting_min(views(self.arrivals@), account, pool)),
        ) as u32
    }
}

/// Whether rows are what a decoder makes of the memos that a wallet holds past
/// what the snapshot has taken in.
pub open spec fn are_rows_of<F: Fn(&str) -> (Option<Op>, Option<Command>)>(
    decode: F,
    wallet: WalletRows,
    account: Seq<u8>,
    pool: ShieldedPool,
    m: SnapModel,
    rows: Seq<DecodedModel>,
) -> bool {
    are_readings(
        decode,
        wallet.memos(account, read_start(m, wallet.tip).watermark, pool),
        rows,
    )
}

/// Reads a database: discards a snapshot that cannot be relied on, scans the
/// wallet past the watermark, has `decode` read each memo, and takes the rows in.
pub fn load_state_with_height<F: Fn(&str) -> (Option<Op>, Option<Command>)>(
    snap: &mut Snapshot,
    wallet: &WalletRows,
    account: &[u8],
    pool: ShieldedPool,
    min_confs: u32,
    root: &str,
    window: u64,
    decode: F,
) -> (r: Result<LoadedState, PromoteError>)
    requires
        old(snap).wf(),
        forall|t: &str| #[trigger] decode.requires((t,)),
    ensures
        final(snap).wf(),
        exists|rows: Seq<DecodedModel>| #[trigger]
            are_rows_of(decode, *wallet, account@, pool, old(snap)@, rows) && {
                let start = read_start(old(snap)@, wallet.tip);
                let cut = wallet.cutoff(account@, pool);
                match r {
                    Err(e) => promoted(start, promotable_rows(rows, cut), root@, window) == Err::<
                        SnapModel,
                        PromoteError,
                    >(e) && final(snap)@ == start,
                    Ok(s) => {
                        &&& promoted(start, promotable_rows(rows, cut), root@, window) == Ok::<
                            SnapModel,
                            PromoteError,
                        >(final(snap)@)
                        &&& is_loaded(
                            s,
                            final(snap)@,
                            rows,
                            account@,
                            wallet.tip,
                            min_confs,
                            cut,
                            root@,
                            window,
                        )
                    },
                }
            },
{
    let _ = check_snapshot(snap, wallet.tip);
    let memos = scan_memos_past_watermark(
        &wallet.outputs,
        account,
        wallet.tip,
        &snap.watermark,
        pool,
    );
    let rows = read_memos(memos, &decode);
    assert(are_rows_of(decode, *wallet, account@, pool, old(snap)@, views(rows@)));
    let unenhanced_from: Option<u32> = unenhanced_floor(&wallet.arrivals, account, pool);
    take_in(
        snap,
        &rows,
        account,
        wallet.tip,
        wallet.fully_scanned,
        unenhanced_from,
        min_confs,
        root,
        window,
    )
}

/// Reads a database: its confirmed state, and the rows above the cutoff.
pub fn load_state<F: Fn(&str) -> (Option<Op>, Option<Command>)>(
    snap: &mut Snapshot,
    wallet: &WalletRows,
    account: &[u8],
    pool: ShieldedPool,
    min_confs: u32,
    root: &str,
    window: u64,
    decode: F,
) -> (r: Result<(Result<ReplayResult, PromoteError>, Vec<TailRow>), PromoteError>)
    requires
        old(snap).wf(),
        forall|t: &str| #[trigger] decode.requires((t,)),
    ensures
        final(snap).wf(),
        exists|rows: Seq<DecodedModel>| #[trigger]
            are_rows_of(decode, *wallet, account@, pool, old(snap)@, rows) && {
                let start = read_start(old(snap)@, wallet.tip);
                let cut = wallet.cutoff(account@, pool);
                match r {
                    Err(e) => promoted(start, promotable_rows(rows, cut), root@, window) == Err::<
                        SnapModel,
                        PromoteError,
                    >(e) && final(snap)@ == start,
                    Ok(s) => {
                        &&& promoted(start, promotable_rows(rows, cut), root@, window) == Ok::<
                            SnapModel,
                            PromoteError,
                        >(final(snap)@)
                        &&& is_confirmed_state(
                            s.0,
                            fold(
                                final(snap)@,
                                late_rows_of(rows, account@, wallet.tip, min_confs, cut),
                                root@,
                                window,
                            ),
                        )
                        &&& views(s.1@) == tail_rows(rows, account@, wallet.tip, min_confs, cut)
                    },
                }
            },
{
    match load_state_with_height(snap, wallet, account, pool, min_confs, root, window, decode) {
        Ok(s) => Ok((s.confirmed, s.tail)),
        Err(e) => Err(e),
    }
}

/// How far a wallet has scanned: nowhere, where it says nothing.
pub fn wallet_tip(chain_height: Option<u32>) -> (r: u32)
    ensures
        r == (match chain_height {
            Some(h) => h,
            None => 0,
        }),
{
    match chain_height {
        Some(h) => h,
        None => 0,
    }
}

/// Whether a state is the one that a snapshot holds.
pub open spec fn is_seed_of(r: ReplayResult, m: SnapModel) -> bool {
    &&& r.wf()
    &&& r.init == (if m.initialized {
        InitState::Initialized
    } else {
        InitState::Uninitialized
    })
    &&& r.state.map() == m.kv.map_values(
        |c: crate::internal::snapshot::KvModel| crate::internal::history::seeded_key(c),
    )
    &&& r.auth@ == m.auth
    &&& r.finalized == m.finalized
    &&& r.version == m.version
    &&& r.kv_versions.map() == m.kv_versions
    &&& r.target_versions.map() == m.target_versions
}

/// Whether a state is the one after some rows, or the error that they give.
pub open spec fn is_confirmed_state(
    r: Result<ReplayResult, PromoteError>,
    after: Result<SnapModel, PromoteError>,
) -> bool {
    match after {
        Err(e) => r == Err::<ReplayResult, PromoteError>(e),
        Ok(n) => r matches Ok(x) && is_seed_of(x, n),
    }
}

/// Whether the mined rows come in the order of their heights.
pub open spec fn in_height_order(rows: Seq<DecodedModel>) -> bool {
    forall|i: int, j: int|
        0 <= i < j < rows.len() && block_height((#[trigger] rows[i]).mined_height) is Some
            && block_height((#[trigger] rows[j]).mined_height) is Some ==> block_height(
            rows[i].mined_height,
        )->0 <= block_height(rows[j].mined_height)->0
}

/// The rows that a read makes of scanned memos come in the order of their heights.
pub proof fn read_rows_are_in_height_order<F: Fn(&str) -> (Option<Op>, Option<Command>)>(
    decode: F,
    wallet: WalletRows,
    account: Seq<u8>,
    pool: ShieldedPool,
    m: SnapModel,
    rows: Seq<DecodedModel>,
)
    requires
        are_rows_of(decode, wallet, account, pool, m, rows),
    ensures
        in_height_order(rows),
{
    let mark = read_start(m, wallet.tip).watermark;
    let memos = wallet.memos(account, mark, pool);
    scan_is_in_chain_order(views(wallet.outputs@), account, wallet.tip, mark, pool);
    assert forall|i: int, j: int|
        0 <= i < j < rows.len() && block_height((#[trigger] rows[i]).mined_height) is Some
            && block_height((#[trigger] rows[j]).mined_height) is Some implies block_height(
        rows[i].mined_height,
    )->0 <= block_height(rows[j].mined_height)->0 by {
        assert(is_reading(decode, memos[i], rows[i]));
        assert(is_reading(decode, memos[j], rows[j]));
        assert(!ScannedMemo::precedes(memos[j], memos[i]));
    }
}

/// Of rows in order, those that enter the snapshot and then the other confirmed
/// ones are all the confirmed ones.
proof fn lemma_confirmed_in_two(
    rows: Seq<DecodedModel>,
    account: Seq<u8>,
    tip: u32,
    min_confs: u32,
    cut: u32,
)
    requires
        in_height_order(rows),
        cut == 0 || cut + SAFE_DEPTH <= tip,
        min_confs <= SAFE_DEPTH + 1,
    ensures
        late_rows_of(rows, account, tip, min_confs, 0) == promotable_rows(rows, cut) + late_rows_of(
            rows,
            account,
            tip,
            min_confs,
            cut,
        ),
        rows.len() > 0 && is_promotable(rows.last(), cut) ==> late_rows_of(
            rows,
            account,
            tip,
            min_confs,
            cut,
        ).len() == 0,
    decreases rows.len(),
{
    let all = late_rows_of(rows, account, tip, min_confs, 0);
    let deep = promotable_rows(rows, cut);
    let late = late_rows_of(rows, account, tip, min_confs, cut);
    if rows.len() == 0 {
        assert(all =~= deep + late);
    } else {
        let t = rows.drop_last();
        let x = rows.last();
        assert forall|i: int, j: int|
            0 <= i < j < t.len() && block_height((#[trigger] t[i]).mined_height) is Some
                && block_height((#[trigger] t[j]).mined_height) is Some implies block_height(
            t[i].mined_height,
        )->0 <= block_height(t[j].mined_height)->0 by {
            assert(t[i] == rows[i] && t[j] == rows[j]);
        }
        lemma_confirmed_in_two(t, account, tip, min_confs, cut);
        if is_promotable(x, cut) {
            lemma_nothing_late(rows, account, tip, min_confs, cut);
        }
        assert(all =~= deep + late);
    }
}

proof fn lemma_nothing_late(
    rows: Seq<DecodedModel>,
    account: Seq<u8>,
    tip: u32,
    min_confs: u32,
    cut: u32,
)
    requires
        in_height_order(rows),
        rows.len() > 0,
        is_promotable(rows.last(), cut),
    ensures
        late_rows_of(rows, account, tip, min_confs, cut).len() == 0,
{
    lemma_none_late(rows, account, tip, min_confs, cut, rows.len() as int);
    assert(rows.take(rows.len() as int) =~= rows);
}

proof fn lemma_none_late(
    rows: Seq<DecodedModel>,
    account: Seq<u8>,
    tip: u32,
    min_confs: u32,
    cut: u32,
    k: int,
)
    requires
        in_height_order(rows),
        rows.len() > 0,
        is_promotable(rows.last(), cut),
        0 <= k <= rows.len(),
    ensures
        late_rows_of(rows.take(k), account, tip, min_confs, cut).len() == 0,
    decreases k,
{
    if k > 0 {
        lemma_none_late(rows, account, tip, min_confs, cut, k - 1);
        assert(rows.take(k).drop_last() =~= rows.take(k - 1));
        assert(rows.take(k).last() == rows[k - 1]);
        let last = rows.len() - 1;
        assert(rows.last() == rows[last]);
        if k - 1 < last && block_height(rows[k - 1].mined_height) is Some {
            assert(block_height(rows[k - 1].mined_height)->0 <= block_height(
                rows[last].mined_height,
            )->0);
        }
    }
}

/// What a read shows as confirmed does not depend on how far the snapshot reaches:
/// whatever the cutoff, it is the state after all the confirmed rows. (Only the
/// watermark tells where the snapshot ends.)
pub proof fn cutoff_makes_no_difference(
    m: SnapModel,
    rows: Seq<DecodedModel>,
    account: Seq<u8>,
    tip: u32,
    min_confs: u32,
    cut: u32,
    root: Seq<char>,
    window: u64,
    n: SnapModel,
)
    requires
        in_height_order(rows),
        cut == 0 || cut + SAFE_DEPTH <= tip,
        min_confs <= SAFE_DEPTH + 1,
        promoted(m, promotable_rows(rows, cut), root, window) == Ok::<SnapModel, PromoteError>(n),
    ensures
        fold(n, late_rows_of(rows, account, tip, min_confs, cut), root, window) == (match fold(
            m,
            late_rows_of(rows, account, tip, min_confs, 0),
            root,
            window,
        ) {
            Err(e) => Err(e),
            Ok(o) => Ok(SnapModel { watermark: n.watermark, ..o }),
        }),
{
    let deep = promotable_rows(rows, cut);
    let late = late_rows_of(rows, account, tip, min_confs, cut);
    lemma_confirmed_in_two(rows, account, tip, min_confs, cut);
    lemma_fold_append(m, deep, late, root, window);
    lemma_fold_watermark(m, n.watermark, late, root, window);
    assert((SnapModel { watermark: m.watermark, ..m }) == m);
    let k = fold(m, deep, root, window)->Ok_0;
    if deep.len() > 0 {
        lemma_fold_never_undone(m, deep, root, window, k);
        lemma_fold_watermark(k, n.watermark, late, root, window);
        if !k.initialized {
            assert(k == m);
        }
    }
}

/// A confirmed write is read back at once, however recent it is: where the newest
/// confirmed row is an accepted `SET`, the confirmed state holds its value, and
/// where it is an accepted `DEL`, the key is gone.
pub proof fn a_confirmed_write_is_read_back(
    m: SnapModel,
    rows: Seq<RowModel>,
    cmd: CommandModel,
    root: Seq<char>,
    window: u64,
    r: Result<ReplayResult, PromoteError>,
)
    requires
        rows.len() > 0,
        rows.last().command == Some(cmd),
        is_data_op(cmd.op),
        cmd.op is Del || cmd.value is Some,
        fold(m, rows.drop_last(), root, window) matches Ok(k) && accepts(k, cmd, root, window)
            && !has_row(k.history, rows.last().pos),
        is_confirmed_state(r, fold(m, rows, root, window)),
    ensures
        r is Ok,
        cmd.op is Del ==> !(r->Ok_0).state.map().dom().contains(cmd.key),
        !(cmd.op is Del) ==> (r->Ok_0).state.map().dom().contains(cmd.key)
            && (r->Ok_0).state.map()[cmd.key].confirmed == cmd.value,
{
    let k = fold(m, rows.drop_last(), root, window)->Ok_0;
    let n = step(k, rows.last(), root, window)->Ok_0;
    read_gives_back_the_write(k, rows.last(), cmd, root, window, n);
}

/// No row is lost: each is taken into the snapshot or replayed on top of it, but
/// for one that was sent from elsewhere and lies too shallow to be shown.
pub proof fn every_row_is_accounted_for(
    rows: Seq<DecodedModel>,
    account: Seq<u8>,
    tip: u32,
    min_confs: u32,
    cut: u32,
    i: int,
)
    requires
        0 <= i < rows.len(),
    ensures
        is_promotable(rows[i], cut) ==> promotable_rows(rows, cut).contains(promote_row(rows[i])),
        !is_promotable(rows[i], cut) ==> (match tail_status(rows[i], account, tip, min_confs) {
            Some(status) => tail_rows(rows, account, tip, min_confs, cut).contains(
                tail_row(rows[i], status),
            ),
            None => {
                &&& block_height(rows[i].mined_height) is Some
                &&& rows[i].from_uuid != Some(account)
                &&& confirmations(block_height(rows[i].mined_height), tip) < row_required(
                    rows[i],
                    min_confs,
                )
            },
        }),
    decreases rows.len(),
{
    let n = rows.len() - 1;
    let front = rows.drop_last();
    if i < n {
        every_row_is_accounted_for(front, account, tip, min_confs, cut, i);
        assert(front[i] == rows[i]);
        let p = promotable_rows(front, cut);
        let t = tail_rows(front, account, tip, min_confs, cut);
        if is_promotable(rows[i], cut) {
            let k = choose|k: int| 0 <= k < p.len() && p[k] == promote_row(rows[i]);
            assert(promotable_rows(rows, cut)[k] == promote_row(rows[i]));
        } else if tail_status(rows[i], account, tip, min_confs) is Some {
            let x = tail_row(rows[i], tail_status(rows[i], account, tip, min_confs)->0);
            let k = choose|k: int| 0 <= k < t.len() && t[k] == x;
            assert(tail_rows(rows, account, tip, min_confs, cut)[k] == x);
        }
    } else {
        let p = promotable_rows(rows, cut);
        let t = tail_rows(rows, account, tip, min_confs, cut);
        if is_promotable(rows[i], cut) {
            assert(p[p.len() - 1] == promote_row(rows[i]));
        } else if tail_status(rows[i], account, tip, min_confs) is Some {
            assert(t[t.len() - 1] == tail_row(
                rows[i],
                tail_status(rows[i], account, tip, min_confs)->0,
            ));
        }
    }
}

/// What a reader makes of the text of a memo, where it always makes the same of
/// the same text.
pub type Reader = spec_fn(Seq<char>) -> (Option<Op>, Option<CommandModel>);

/// A memo as it is read.
pub open spec fn read_memo(m: ScannedModel, reader: Reader) -> DecodedModel {
    decoded_memo(m, reader(m.text).0, reader(m.text).1)
}

/// The rows that a read takes into the snapshot: those of the memos past the mark,
/// down to the cut.
pub open spec fn rows_taken_in(
    outputs: Seq<StoredModel>,
    account: Seq<u8>,
    tip: u32,
    mark: Pos,
    pool: ShieldedPool,
    reader: Reader,
    cut: u32,
) -> Seq<RowModel> {
    promotable_rows(
        sorted::<ScannedMemo>(scanned(outputs, account, tip, mark, pool)).map_values(
            |m: ScannedModel| read_memo(m, reader),
        ),
        cut,
    )
}

proof fn lemma_promotable_memos(memos: Seq<ScannedModel>, reader: Reader, cut: u32)
    ensures
        promotable_rows(memos.map_values(|m: ScannedModel| read_memo(m, reader)), cut)
            == memos.filter(|m: ScannedModel| is_deep(m, cut)).map_values(
            |m: ScannedModel| promote_row(read_memo(m, reader)),
        ),
    decreases memos.len(),
{
    reveal(Seq::filter);
    let f = |m: ScannedModel| read_memo(m, reader);
    let g = |m: ScannedModel| promote_row(read_memo(m, reader));
    let p = |m: ScannedModel| is_deep(m, cut);
    if memos.len() == 0 {
        assert(promotable_rows(memos.map_values(f), cut) =~= memos.filter(p).map_values(g));
    } else {
        let t = memos.drop_last();
        lemma_promotable_memos(t, reader, cut);
        assert(memos.map_values(f).drop_last() =~= t.map_values(f));
        assert(memos.map_values(f).last() == f(memos.last()));
        assert(promotable_rows(memos.map_values(f), cut) =~= memos.filter(p).map_values(g));
    }
}

/// Two reads take in what one would have: reading down to a cut, and later from
/// the mark that this left down to another, gives the snapshot that reading down
/// to the second cut at once gives. Between the two the chain may grow, as long as
/// nothing at or below the first cut changes.
pub proof fn two_reads_are_one(
    m: SnapModel,
    account: Seq<u8>,
    pool: ShieldedPool,
    reader: Reader,
    root: Seq<char>,
    window: u64,
    outputs: Seq<StoredModel>,
    tip: u32,
    cut: u32,
    later_outputs: Seq<StoredModel>,
    later_tip: u32,
    later_cut: u32,
    n: SnapModel,
)
    requires
        cut <= later_cut < u32::MAX,
        rows_taken_in(outputs, account, tip, m.watermark, pool, reader, cut) == rows_taken_in(
            later_outputs,
            account,
            later_tip,
            m.watermark,
            pool,
            reader,
            cut,
        ),
        promoted(
            m,
            rows_taken_in(outputs, account, tip, m.watermark, pool, reader, cut),
            root,
            window,
        ) == Ok::<SnapModel, PromoteError>(n),
    ensures
        promoted(
            n,
            rows_taken_in(
                later_outputs,
                account,
                later_tip,
                n.watermark,
                pool,
                reader,
                later_cut,
            ),
            root,
            window,
        ) == promoted(
            m,
            rows_taken_in(
                later_outputs,
                account,
                later_tip,
                m.watermark,
                pool,
                reader,
                later_cut,
            ),
            root,
            window,
        ),
{
    let all = sorted::<ScannedMemo>(
        scanned(later_outputs, account, later_tip, m.watermark, pool),
    );
    let g = |x: ScannedModel| promote_row(read_memo(x, reader));
    let a = |x: ScannedModel| is_deep(x, cut);
    let b = |x: ScannedModel| is_deep(x, later_cut);
    let batch = rows_taken_in(later_outputs, account, later_tip, m.watermark, pool, reader, cut);
    lemma_promotable_memos(all, reader, cut);
    lemma_promotable_memos(all, reader, later_cut);
    let first = all.filter(a);
    assert(batch == first.map_values(g));
    if batch.len() > 0 && fold(m, batch, root, window)->Ok_0.initialized {
        let last = first.last();
        scan_picks_up_where_it_stopped(
            later_outputs,
            account,
            later_tip,
            m.watermark,
            pool,
            cut,
            later_cut,
        );
        all.lemma_filter_pred(a, first.len() - 1);
        assert(batch.last() == g(last));
        assert(n.watermark =~= memo_place(last));
        let rest = sorted::<ScannedMemo>(
            scanned(later_outputs, account, later_tip, n.watermark, pool),
        );
        lemma_promotable_memos(rest, reader, later_cut);
        assert(all.filter(b).map_values(g) =~= first.map_values(g) + rest.filter(b).map_values(g));
        promote_in_parts(m, batch, rest.filter(b).map_values(g), root, window, n);
    }
}

/// A memo is confirmed as deep as the reader asks for; an `INIT` needs one
/// confirmation and never more.
pub proof fn an_init_needs_one_confirmation(min_confs: u32)
    ensures
        required_confs(false, min_confs) == min_confs,
        min_confs >= 1 ==> required_confs(true, min_confs) == 1,
        min_confs == 0 ==> required_confs(true, min_confs) == 0,
{
}

/// The cutoff is a hundred blocks deep, and as high as it may be: every block that
/// is that deep, scanned without a gap, and below all missing memos may enter the
/// snapshot, and no other.
pub proof fn the_cutoff_is_as_high_as_it_may_be(
    tip: u32,
    fully_scanned: u32,
    unenhanced_from: Option<u32>,
    height: u32,
)
    requires
        height > 0,
    ensures
        height <= cutoff(tip, fully_scanned, unenhanced_from) <==> height + 100 <= tip && height
            <= fully_scanned && (unenhanced_from is None || height < unenhanced_from->0),
        0 <= cutoff(tip, fully_scanned, unenhanced_from) <= u32::MAX,
{
}

/// Confirmations count the block itself: one at the tip, and one more for each
/// block on top.
pub proof fn confirmations_count_from_one(height: u32, tip: u32)
    ensures
        confirmations(None, tip) == 0,
        0 < height <= tip ==> confirmations(Some(height), tip) == tip - height + 1,
        height > tip ==> confirmations(Some(height), tip) == 1,
{
}

/// How a recent memo is replayed: one that is not mined has no confirmation yet;
/// one as deep as is asked for is confirmed; a shallower one confirms where it is
/// our own and is left out where it is not.
pub proof fn how_a_recent_memo_is_replayed(
    row: DecodedModel,
    account: Seq<u8>,
    tip: u32,
    min_confs: u32,
)
    ensures
        ({
            let required: u32 = if row.parsed_op == Some(Op::Init) && min_confs >= 1 {
                1
            } else {
                min_confs
            };
            let s = tail_status(row, account, tip, min_confs);
            &&& row.mined_height is None || row.mined_height->0 <= 0 ==> s == Some(
                WriteStatus::Confirming { done: 0, required },
            )
            &&& row.mined_height matches Some(h) ==> (0 < h <= tip ==> {
                let depth = tip - h + 1;
                if depth >= required {
                    s == Some(WriteStatus::Confirmed)
                } else if row.from_uuid == Some(account) {
                    s == Some(WriteStatus::Confirming { done: depth as u32, required })
                } else {
                    s is None
                }
            })
        }),
{
}

/// A memo at or below the cutoff enters the snapshot as it stood: its place, its
/// time, its text and what it asks for.
pub proof fn a_deep_memo_enters_as_it_stood(rows: Seq<DecodedModel>, cut: u32, i: int) -> (r: RowModel)
    requires
        0 <= i < rows.len(),
        rows[i].mined_height matches Some(h) && 0 < h <= cut,
    ensures
        promotable_rows(rows, cut).contains(r),
        r.pos.height == rows[i].mined_height->0,
        r.pos.txid == rows[i].txid,
        r.pos.output_index == rows[i].output_index,
        r.memo == rows[i].text,
        r.command == rows[i].command,
        rows[i].block_time matches Some(t) ==> (0 < t <= u32::MAX ==> r.block_time == Some(t as u32)),
{
    every_row_is_accounted_for(rows, Seq::empty(), 0, 0, cut, i);
    promote_row(rows[i])
}

/// Nothing else enters the snapshot.
pub proof fn nothing_shallow_enters(rows: Seq<DecodedModel>, cut: u32, k: int)
    requires
        0 <= k < promotable_rows(rows, cut).len(),
    ensures
        0 < promotable_rows(rows, cut)[k].pos.height <= cut,
        exists|i: int|
            0 <= i < rows.len() && (#[trigger] rows[i]).txid == promotable_rows(rows, cut)[k].pos.txid
                && rows[i].text == promotable_rows(rows, cut)[k].memo,
    decreases rows.len(),
{
    let front = rows.drop_last();
    let before = promotable_rows(front, cut);
    if k < before.len() {
        nothing_shallow_enters(front, cut, k);
        let i = choose|i: int|
            0 <= i < front.len() && (#[trigger] front[i]).txid == before[k].pos.txid
                && front[i].text == before[k].memo;
        assert(rows[i] == front[i]);
    } else {
        assert(rows[rows.len() - 1].txid == promotable_rows(rows, cut)[k].pos.txid);
    }
}

/// A memo above the cutoff that is shown is replayed as it stood: its text, its
/// transaction, its time and its status.
pub proof fn a_recent_memo_is_replayed_as_it_stood(
    rows: Seq<DecodedModel>,
    account: Seq<u8>,
    tip: u32,
    min_confs: u32,
    cut: u32,
    i: int,
) -> (t: TailModel)
    requires
        0 <= i < rows.len(),
        rows[i].mined_height is None || rows[i].mined_height->0 <= 0 || cut
            < rows[i].mined_height->0 <= u32::MAX,
        tail_status(rows[i], account, tip, min_confs) is Some,
    ensures
        tail_rows(rows, account, tip, min_confs, cut).contains(t),
        t.text == rows[i].text,
        rows[i].txid.len() == 32 ==> t.txid == txid_text(rows[i].txid),
        Some(t.status) == tail_status(rows[i], account, tip, min_confs),
        t.block_time == block_height(rows[i].block_time),
{
    every_row_is_accounted_for(rows, account, tip, min_confs, cut, i);
    tail_row(rows[i], tail_status(rows[i], account, tip, min_confs)->0)
}

/// When a stored snapshot is given up: where the wallet has gone back behind what
/// the snapshot has taken in, or where it has taken something in without ever
/// having seen the `INIT`. An untouched one is kept.
pub proof fn when_a_snapshot_is_given_up(m: SnapModel, tip: u32)
    ensures
        0 < tip < m.watermark.height ==> must_wipe(m, tip) && read_start(m, tip) == genesis(),
        !m.initialized && m.watermark.height > 0 ==> must_wipe(m, tip) && read_start(m, tip)
            == genesis(),
        m.initialized && (tip == 0 || tip >= m.watermark.height) ==> !must_wipe(m, tip)
            && read_start(m, tip) == m,
        m.watermark.height == 0 ==> !must_wipe(m, tip) && read_start(m, tip) == m,
{
}

/// A read shows what the snapshot holds: each value under its key, with when and in
/// which transaction it was written and nothing in flight, and no other key; and the
/// same registry, marks, version and seal.
pub proof fn a_read_shows_what_the_snapshot_holds(r: ReplayResult, m: SnapModel, key: Seq<char>)
    requires
        is_seed_of(r, m),
    ensures
        r.state.map().dom().contains(key) <==> m.kv.dom().contains(key),
        m.kv.dom().contains(key) ==> {
            let k = r.state.map()[key];
            &&& k.confirmed == Some(m.kv[key].value)
            &&& k.pending.len() == 0
            &&& k.updated_at == m.kv[key].block_time
            &&& k.last_txid == m.kv[key].txid
        },
        r.init is Initialized <==> m.initialized,
        !(r.init is Initialized) ==> r.init is Uninitialized,
        r.finalized == m.finalized,
        r.version == m.version,
        r.auth@ == m.auth,
        r.kv_versions.map() == m.kv_versions,
        r.target_versions.map() == m.target_versions,
{
}

/// A missing memo holds the snapshot back by as many blocks as lie from it to where
/// the snapshot could reach; by more than a hundred, fetching is stuck.
pub proof fn a_missing_memo_holds_the_snapshot_back(
    r: HeldBack,
    tip: u32,
    fully_scanned: u32,
    missing: Option<u32>,
)
    requires
        is_held_back(r, safe_height(tip, fully_scanned), cutoff(tip, fully_scanned, missing)),
    ensures
        missing is None ==> r is No,
        missing matches Some(h) ==> (h > tip || h > fully_scanned || tip <= 100 ==> r is No),
        missing matches Some(h) ==> (100 <= tip && 0 < h <= tip - 100 && h <= fully_scanned ==> {
            let reach = if tip - 100 < fully_scanned {
                tip - 100
            } else {
                fully_scanned as int
            };
            &&& !(r is No)
            &&& r matches HeldBack::Waiting(n) ==> n == reach - h + 1 && n <= 100
            &&& r matches HeldBack::Stuck(n) ==> n == reach - h + 1 && n > 100
        }),
{
}

/// A mined memo above the cutoff that is as deep as is asked for counts as confirmed,
/// as it stood.
pub proof fn a_recent_deep_memo_counts(
    rows: Seq<DecodedModel>,
    account: Seq<u8>,
    tip: u32,
    min_confs: u32,
    cut: u32,
    i: int,
) -> (r: RowModel)
    requires
        0 <= i < rows.len(),
        rows[i].mined_height matches Some(h) && cut < h <= tip && tip - h + 1 >= min_confs && h
            <= u32::MAX && h > 0,
    ensures
        late_rows_of(rows, account, tip, min_confs, cut).contains(r),
        r.pos.height == rows[i].mined_height->0,
        r.pos.txid == rows[i].txid,
        r.pos.output_index == rows[i].output_index,
        r.memo == rows[i].text,
        r.command == rows[i].command,
    decreases rows.len(),
{
    let all = late_rows_of(rows, account, tip, min_confs, cut);
    if i == rows.len() - 1 {
        assert(all[all.len() - 1] == promote_row(rows[i]));
        promote_row(rows[i])
    } else {
        let front = rows.drop_last();
        let r = a_recent_deep_memo_counts(front, account, tip, min_confs, cut, i);
        let before = late_rows_of(front, account, tip, min_confs, cut);
        let k = choose|k: int| 0 <= k < before.len() && before[k] == r;
        assert(all[k] == r);
        r
    }
}

/// Only mined memos above the cutoff count beside the snapshot, each of them as deep
/// as is asked for, but for an `INIT`, which needs less.
pub proof fn only_deep_memos_count(
    rows: Seq<DecodedModel>,
    account: Seq<u8>,
    tip: u32,
    min_confs: u32,
    cut: u32,
    k: int,
)
    requires
        0 <= k < late_rows_of(rows, account, tip, min_confs, cut).len(),
    ensures
        exists|i: int|
            0 <= i < rows.len() && (#[trigger] rows[i]).txid == late_rows_of(
                rows,
                account,
                tip,
                min_confs,
                cut,
            )[k].pos.txid && rows[i].command == late_rows_of(rows, account, tip, min_confs, cut)[k].command
                && rows[i].mined_height is Some && rows[i].mined_height->0 > cut && (
            rows[i].mined_height->0 <= tip && rows[i].parsed_op != Some(Op::Init) ==> tip
                - rows[i].mined_height->0 + 1 >= min_confs),
    decreases rows.len(),
{
    let front = rows.drop_last();
    let all = late_rows_of(rows, account, tip, min_confs, cut);
    let before = late_rows_of(front, account, tip, min_confs, cut);
    if k < before.len() {
        only_deep_memos_count(front, account, tip, min_confs, cut, k);
        let i = choose|i: int|
            0 <= i < front.len() && (#[trigger] front[i]).txid == before[k].pos.txid
                && front[i].command == before[k].command && front[i].mined_height is Some
                && front[i].mined_height->0 > cut && (front[i].mined_height->0 <= tip
                && front[i].parsed_op != Some(Op::Init) ==> tip - front[i].mined_height->0 + 1
                >= min_confs);
        assert(rows[i] == front[i]);
    } else {
        assert(rows[rows.len() - 1].txid == all[k].pos.txid);
    }
}

/// Reading a memo changes nothing of it: its text, its place, its time and its sender
/// stay, and beside them stands what was read.
pub proof fn reading_changes_nothing_of_a_memo(m: ScannedModel, reader: Reader)
    ensures
        ({
            let r = read_memo(m, reader);
            &&& r.text == m.text
            &&& r.mined_height == m.mined_height
            &&& r.block_time == m.block_time
            &&& r.from_uuid == m.from_uuid
            &&& r.txid == m.txid
            &&& r.output_index == m.output_index
            &&& r.parsed_op == reader(m.text).0
            &&& r.command == reader(m.text).1
        }),
{
}

/// What a read gives: where no memo above the cutoff counts, the confirmed state is
/// what the snapshot holds; where the newest that counts is an accepted `SET`, the
/// confirmed state holds its value, and where it is an accepted `DEL`, the key is
/// gone. The read holds as of the tip.
pub proof fn a_read_is_up_to_date(
    s: LoadedState,
    m: SnapModel,
    rows: Seq<DecodedModel>,
    account: Seq<u8>,
    tip: u32,
    min_confs: u32,
    cut: u32,
    root: Seq<char>,
    window: u64,
    cmd: CommandModel,
    key: Seq<char>,
)
    requires
        is_loaded(s, m, rows, account, tip, min_confs, cut, root, window),
    ensures
        s.height == tip,
        s.seed.state.map().dom().contains(key) <==> m.kv.dom().contains(key),
        m.kv.dom().contains(key) ==> s.seed.state.map()[key].confirmed == Some(m.kv[key].value),
        ({
            let late = late_rows_of(rows, account, tip, min_confs, cut);
            &&& late.len() == 0 ==> s.confirmed is Ok && (s.confirmed->Ok_0).state.map()
                == s.seed.state.map() && (s.confirmed->Ok_0).auth@ == s.seed.auth@
            &&& late.len() > 0 && late.last().command == Some(cmd) && (cmd.op is Put
                || cmd.op is SetL || cmd.op is Del) && (cmd.op is Del || cmd.value is Some) && (
            match fold(m, late.drop_last(), root, window) {
                Ok(k) => accepts(k, cmd, root, window) && !has_row(k.history, late.last().pos),
                Err(_) => false,
            }) ==> {
                &&& s.confirmed is Ok
                &&& cmd.op is Del ==> !(s.confirmed->Ok_0).state.map().dom().contains(cmd.key)
                &&& !(cmd.op is Del) ==> (s.confirmed->Ok_0).state.map().dom().contains(cmd.key)
                    && (s.confirmed->Ok_0).state.map()[cmd.key].confirmed == cmd.value
            }
        }),
{
    let late = late_rows_of(rows, account, tip, min_confs, cut);
    if late.len() > 0 && late.last().command == Some(cmd) && (cmd.op is Put || cmd.op is SetL
        || cmd.op is Del) && (cmd.op is Del || cmd.value is Some) && (match fold(
        m,
        late.drop_last(),
        root,
        window,
    ) {
        Ok(k) => accepts(k, cmd, root, window) && !has_row(k.history, late.last().pos),
        Err(_) => false,
    }) {
        a_confirmed_write_is_read_back(m, late, cmd, root, window, s.confirmed);
    }
}

} // verus!
