//! The funding ledger: what came into the wallet, what left it, and what the
//! database's own writes cost.

use crate::internal::history::{list_contains, page_of};
use crate::internal::listing::sort_height;
use crate::internal::memo::{decode_text_memo, memo_text};
use crate::internal::pool::{block_height, positive_u32};
use crate::internal::scan::{is_live, still_live};
use crate::internal::snapshot::opt_bytes;
use crate::internal::state::{confirmations, confirmations_at, shown_txid};
use crate::internal::txid::txid_hex;
use crate::lex::{bytes_equal, lemma_str_transitive, lemma_str_trichotomy, str_before, str_lt};
use crate::sort::{sorted, stable_sort, views, Ranked};
use crate::text::{copy_opt, opt_text, texts};
use vstd::prelude::*;
use vstd::string::*;

verus! {

/// How deep a transaction of our own must lie to count as confirmed.
pub const TRUSTED_CONFIRMATIONS: u32 = 3;

/// How deep a receipt from elsewhere must lie to count as confirmed.
pub const UNTRUSTED_CONFIRMATIONS: u32 = 10;

/// The key scope of an address that is given out, as the wallet stores it.
pub const KEY_SCOPE_EXTERNAL: i64 = 0;

/// Which way the value of a transaction went.
#[derive(Clone, Copy, Debug, PartialEq, Eq, Structural)]
pub enum FundingDirection {
    /// Value came in.
    Received,
    /// Value left.
    Sent,
    /// Value went to an address of our own.
    SelfTransfer,
    /// A write of this database, which cost its fee alone.
    ZkvOperation,
}

/// A transaction in the ledger.
#[derive(Clone, Debug, PartialEq, Eq)]
pub struct FundingTx {
    /// The shown transaction id.
    pub txid: String,
    pub height: Option<u32>,
    /// When the block was mined (unix seconds).
    pub timestamp: Option<u32>,
    pub direction: FundingDirection,
    /// The value transferred (zatoshi) without the fee; for a transfer to
    /// ourselves and for a write, the fee.
    pub amount: u64,
    /// For a transfer to ourselves, the value that came back.
    pub self_sent: Option<u64>,
    /// The fee, where this wallet paid it.
    pub fee: Option<u64>,
    pub memo: Option<String>,
    /// The addresses that value left for.
    pub recipients: Vec<String>,
    /// Whether the transaction carries a memo of this protocol.
    pub is_zkv: bool,
    /// Whether it is not mined yet.
    pub pending: bool,
    pub confirmations: u32,
    pub required: u32,
    pub confirmed: bool,
}

/// [`FundingTx`] as mathematics.
pub struct FundingModel {
    pub txid: Seq<char>,
    pub height: Option<u32>,
    pub timestamp: Option<u32>,
    pub direction: FundingDirection,
    pub amount: u64,
    pub self_sent: Option<u64>,
    pub fee: Option<u64>,
    pub memo: Option<Seq<char>>,
    pub recipients: Seq<Seq<char>>,
    pub is_zkv: bool,
    pub pending: bool,
    pub confirmations: u32,
    pub required: u32,
    pub confirmed: bool,
}

impl View for FundingTx {
    type V = FundingModel;

    open spec fn view(&self) -> FundingModel {
        FundingModel {
            txid: self.txid@,
            height: self.height,
            timestamp: self.timestamp,
            direction: self.direction,
            amount: self.amount,
            self_sent: self.self_sent,
            fee: self.fee,
            memo: opt_text(self.memo),
            recipients: texts(self.recipients@),
            is_zkv: self.is_zkv,
            pending: self.pending,
            confirmations: self.confirmations,
            required: self.required,
            confirmed: self.confirmed,
        }
    }
}

/// A copy of a list of texts.
pub fn copy_texts(v: &Vec<String>) -> (r: Vec<String>)
    ensures
        texts(r@) == texts(v@),
{
    let mut r: Vec<String> = Vec::new();
    let mut i: usize = 0;
    while i < v.len()
        invariant
            i <= v.len(),
            r.len() == i,
            forall|k: int| 0 <= k < i ==> (#[trigger] r@[k])@ == v@[k]@,
        decreases v.len() - i,
    {
        r.push(v[i].clone());
        i += 1;
    }
    assert(texts(r@) =~= texts(v@));
    r
}

impl FundingTx {
    /// A copy.
    pub fn copy(&self) -> (r: FundingTx)
        ensures
            r@ == self@,
    {
        FundingTx {
            txid: self.txid.clone(),
            height: self.height,
            timestamp: self.timestamp,
            direction: self.direction,
            amount: self.amount,
            self_sent: self.self_sent,
            fee: self.fee,
            memo: copy_opt(&self.memo),
            recipients: copy_texts(&self.recipients),
            is_zkv: self.is_zkv,
            pending: self.pending,
            confirmations: self.confirmations,
            required: self.required,
            confirmed: self.confirmed,
        }
    }
}

impl Ranked for FundingTx {
    open spec fn precedes(a: FundingModel, b: FundingModel) -> bool {
        ||| a.pending && !b.pending
        ||| a.pending == b.pending && sort_height(a.height) > sort_height(b.height)
        ||| a.pending == b.pending && sort_height(a.height) == sort_height(b.height) && str_lt(
            b.txid,
            a.txid,
        )
    }

    fn before(&self, other: &Self) -> (r: bool) {
        let ha: u32 = match self.height {
            Some(h) => h,
            None => u32::MAX,
        };
        let hb: u32 = match other.height {
            Some(h) => h,
            None => u32::MAX,
        };
        (self.pending && !other.pending) || (self.pending == other.pending && (ha > hb || (ha == hb
            && str_before(other.txid.as_str(), self.txid.as_str()))))
    }

    proof fn lemma_weak_order(a: FundingModel, b: FundingModel, c: FundingModel) {
        lemma_str_trichotomy(a.txid, a.txid);
        lemma_str_trichotomy(a.txid, b.txid);
        lemma_str_trichotomy(b.txid, c.txid);
        lemma_str_trichotomy(a.txid, c.txid);
        if str_lt(a.txid, b.txid) && str_lt(b.txid, c.txid) {
            lemma_str_transitive(a.txid, b.txid, c.txid);
        }
    }
}

/// A page of the ledger.
#[derive(Clone, Debug, PartialEq, Eq)]
pub struct FundingResult {
    pub entries: Vec<FundingTx>,
    /// How many transactions there are on all pages.
    pub total: u64,
    pub offset: u32,
    pub limit: Option<u32>,
}

/// An output that the wallet sent or received.
#[derive(Clone, Debug, PartialEq, Eq)]
pub struct FundingOutput {
    pub txid: Option<Vec<u8>>,
    pub memo: Option<Vec<u8>>,
    /// Whether the text of the memo looks like this protocol's.
    pub memo_is_zkv: bool,
    pub to_address: Option<String>,
    pub to_account: Option<Vec<u8>>,
    pub from_account: Option<Vec<u8>>,
    pub is_change: Option<i64>,
    pub value: Option<i64>,
    pub key_scope: Option<i64>,
}

/// [`FundingOutput`] as mathematics.
pub struct FundingOutputModel {
    pub txid: Option<Seq<u8>>,
    pub memo: Option<Seq<u8>>,
    pub memo_is_zkv: bool,
    pub to_address: Option<Seq<char>>,
    pub to_account: Option<Seq<u8>>,
    pub from_account: Option<Seq<u8>>,
    pub is_change: Option<i64>,
    pub value: Option<i64>,
    pub key_scope: Option<i64>,
}

impl View for FundingOutput {
    type V = FundingOutputModel;

    open spec fn view(&self) -> FundingOutputModel {
        FundingOutputModel {
            txid: opt_bytes(self.txid),
            memo: opt_bytes(self.memo),
            memo_is_zkv: self.memo_is_zkv,
            to_address: opt_text(self.to_address),
            to_account: opt_bytes(self.to_account),
            from_account: opt_bytes(self.from_account),
            is_change: self.is_change,
            value: self.value,
            key_scope: self.key_scope,
        }
    }
}

/// A transaction as it concerns an account.
#[derive(Clone, Debug, PartialEq, Eq)]
pub struct FundingRow {
    pub txid: Option<Vec<u8>>,
    pub account: Vec<u8>,
    pub mined_height: Option<i64>,
    /// Where an unmined transaction expires; none or zero means never.
    pub expiry_height: Option<i64>,
    pub block_time: Option<i64>,
    /// How the balance of the account changed.
    pub delta: Option<i64>,
    pub fee: Option<i64>,
}

/// [`FundingRow`] as mathematics.
pub struct FundingRowModel {
    pub txid: Option<Seq<u8>>,
    pub account: Seq<u8>,
    pub mined_height: Option<i64>,
    pub expiry_height: Option<i64>,
    pub block_time: Option<i64>,
    pub delta: Option<i64>,
    pub fee: Option<i64>,
}

impl View for FundingRow {
    type V = FundingRowModel;

    open spec fn view(&self) -> FundingRowModel {
        FundingRowModel {
            txid: opt_bytes(self.txid),
            account: self.account@,
            mined_height: self.mined_height,
            expiry_height: self.expiry_height,
            block_time: self.block_time,
            delta: self.delta,
            fee: self.fee,
        }
    }
}

/// What the outputs of a transaction add up to.
#[derive(Clone, Debug, PartialEq, Eq)]
pub struct OutputsAgg {
    /// Whether an output carries a memo of this protocol.
    pub is_zkv: bool,
    /// The first other text that is not empty.
    pub memo: Option<String>,
    /// The addresses outside the wallet, each once.
    pub recipients: Vec<String>,
    /// What went to an address of our own that is given out. Change goes to
    /// addresses that are not.
    pub self_value: u64,
}

/// [`OutputsAgg`] as mathematics.
#[verifier::ext_equal]
pub struct AggModel {
    pub is_zkv: bool,
    pub memo: Option<Seq<char>>,
    pub recipients: Seq<Seq<char>>,
    pub self_value: u64,
}

impl View for OutputsAgg {
    type V = AggModel;

    open spec fn view(&self) -> AggModel {
        AggModel {
            is_zkv: self.is_zkv,
            memo: opt_text(self.memo),
            recipients: texts(self.recipients@),
            self_value: self.self_value,
        }
    }
}

/// A transaction of whose outputs nothing is known.
pub open spec fn empty_agg() -> AggModel {
    AggModel { is_zkv: false, memo: None, recipients: Seq::empty(), self_value: 0 }
}

/// A stored value as an amount: a negative one counts as zero.
pub open spec fn positive_value(v: Option<i64>) -> int {
    match v {
        Some(x) => if x > 0 {
            x as int
        } else {
            0
        },
        None => 0,
    }
}

/// The text of an output's memo.
pub open spec fn output_text(o: FundingOutputModel) -> Option<Seq<char>> {
    match o.memo {
        Some(b) => memo_text(b),
        None => None,
    }
}

/// Whether an output went outside the wallet.
pub open spec fn is_send_leg(o: FundingOutputModel) -> bool {
    o.to_account is None && (o.is_change is None || o.is_change->0 == 0)
}

/// Whether an output went to an address of our own that is given out.
pub open spec fn is_self_leg(o: FundingOutputModel, account: Seq<u8>) -> bool {
    !is_send_leg(o) && o.to_account == Some(account) && o.key_scope == Some(KEY_SCOPE_EXTERNAL)
}

/// The sum with one more output.
pub open spec fn with_output(a: AggModel, o: FundingOutputModel, account: Seq<u8>) -> AggModel {
    let text = output_text(o);
    AggModel {
        is_zkv: a.is_zkv || (text is Some && o.memo_is_zkv),
        memo: if text is Some && !o.memo_is_zkv && a.memo is None && text->0.len() > 0 {
            text
        } else {
            a.memo
        },
        recipients: if is_send_leg(o) && o.to_address is Some && o.to_address->0.len() > 0
            && !a.recipients.contains(o.to_address->0) {
            a.recipients.push(o.to_address->0)
        } else {
            a.recipients
        },
        self_value: if is_self_leg(o, account) {
            if a.self_value + positive_value(o.value) <= u64::MAX {
                (a.self_value + positive_value(o.value)) as u64
            } else {
                u64::MAX
            }
        } else {
            a.self_value
        },
    }
}

/// Whether an output is one that the account sent or received.
pub open spec fn concerns(o: FundingOutputModel, account: Seq<u8>) -> bool {
    o.to_account == Some(account) || o.from_account == Some(account)
}

/// What the outputs of a transaction add up to, as far as they concern the
/// account.
pub open spec fn outputs_of(
    outputs: Seq<FundingOutputModel>,
    txid: Seq<u8>,
    account: Seq<u8>,
) -> AggModel
    decreases outputs.len(),
{
    if outputs.len() == 0 {
        empty_agg()
    } else {
        let before = outputs_of(outputs.drop_last(), txid, account);
        if outputs.last().txid == Some(txid) && concerns(outputs.last(), account) {
            with_output(before, outputs.last(), account)
        } else {
            before
        }
    }
}

/// The fee that a row records; a negative one is none.
pub open spec fn recorded_fee(fee: Option<i64>) -> Option<u64> {
    match fee {
        Some(f) => if f >= 0 {
            Some(f as u64)
        } else {
            None
        },
        None => None,
    }
}

/// How the balance changed; unknown counts as not at all.
pub open spec fn balance_delta(row: FundingRowModel) -> int {
    match row.delta {
        Some(d) => d as int,
        None => 0,
    }
}

/// The value that moved, without the fee of a transaction of our own.
pub open spec fn moved(row: FundingRowModel) -> int {
    let delta = balance_delta(row);
    if delta < 0 {
        delta + (match recorded_fee(row.fee) {
            Some(f) => f as int,
            None => 0,
        })
    } else {
        delta
    }
}

/// The fee that this wallet paid: that of a transaction that lowered its
/// balance.
pub open spec fn paid_fee(row: FundingRowModel) -> Option<u64> {
    if balance_delta(row) < 0 {
        recorded_fee(row.fee)
    } else {
        None
    }
}

/// Which way the value went; none where nothing did and nobody meant it to.
pub open spec fn direction_of(row: FundingRowModel, agg: AggModel) -> Option<FundingDirection> {
    if moved(row) > 0 {
        Some(FundingDirection::Received)
    } else if moved(row) < 0 {
        Some(FundingDirection::Sent)
    } else if agg.self_value > 0 {
        Some(FundingDirection::SelfTransfer)
    } else if agg.is_zkv && balance_delta(row) < 0 {
        Some(FundingDirection::ZkvOperation)
    } else {
        None
    }
}

/// The amount that is shown.
pub open spec fn shown_amount(row: FundingRowModel, d: FundingDirection) -> int {
    match d {
        FundingDirection::Received => moved(row),
        FundingDirection::Sent => -moved(row),
        FundingDirection::SelfTransfer | FundingDirection::ZkvOperation => match paid_fee(row) {
            Some(f) => f as int,
            None => 0,
        },
    }
}

/// How deep a transaction must lie to count as confirmed.
pub open spec fn required_depth(d: FundingDirection) -> u32 {
    match d {
        FundingDirection::Received => UNTRUSTED_CONFIRMATIONS,
        _ => TRUSTED_CONFIRMATIONS,
    }
}

/// The ledger entry of a transaction.
pub open spec fn ledger_entry(
    row: FundingRowModel,
    txid: Seq<u8>,
    agg: AggModel,
    d: FundingDirection,
    tip: u32,
) -> FundingModel {
    let height = block_height(row.mined_height);
    let depth = confirmations(height, tip) as u32;
    FundingModel {
        txid: shown_txid(txid),
        height,
        timestamp: block_height(row.block_time),
        direction: d,
        amount: shown_amount(row, d) as u64,
        self_sent: if d is SelfTransfer {
            Some(agg.self_value)
        } else {
            None
        },
        fee: paid_fee(row),
        memo: agg.memo,
        recipients: agg.recipients,
        is_zkv: agg.is_zkv,
        pending: height is None,
        confirmations: depth,
        required: required_depth(d),
        confirmed: height is Some && depth >= required_depth(d),
    }
}

/// The ledger entries of the account's transactions that count, in their order.
pub open spec fn ledger(
    rows: Seq<FundingRowModel>,
    outputs: Seq<FundingOutputModel>,
    account: Seq<u8>,
    tip: u32,
) -> Seq<FundingModel>
    decreases rows.len(),
{
    if rows.len() == 0 {
        Seq::empty()
    } else {
        let before = ledger(rows.drop_last(), outputs, account, tip);
        let row = rows.last();
        match row.txid {
            None => before,
            Some(txid) => if txid.len() == 0 || row.account != account || !is_live(
                row.mined_height,
                row.expiry_height,
                tip,
            ) {
                before
            } else {
                let agg = outputs_of(outputs, txid, account);
                match direction_of(row, agg) {
                    None => before,
                    Some(d) => before.push(ledger_entry(row, txid, agg, d, tip)),
                }
            },
        }
    }
}

/// Adds one output to the sum.
fn add_output(agg: &mut OutputsAgg, o: &FundingOutput, account: &[u8])
    ensures
        final(agg)@ == with_output(old(agg)@, o@, account@),
{
    let text: Option<String> = match &o.memo {
        Some(b) => decode_text_memo(b.as_slice()),
        None => None,
    };
    match text {
        None => {},
        Some(t) => {
            if o.memo_is_zkv {
                agg.is_zkv = true;
            } else if agg.memo.is_none() && !t.as_str().is_empty() {
                agg.memo = Some(t);
            }
        },
    }
    let change: bool = match o.is_change {
        Some(c) => c != 0,
        None => false,
    };
    if o.to_account.is_none() && !change {
        match &o.to_address {
            None => {},
            Some(addr) => {
                if !addr.as_str().is_empty() && !list_contains(&agg.recipients, addr.as_str()) {
                    let ghost before = agg.recipients@;
                    agg.recipients.push(addr.clone());
                    assert(texts(agg.recipients@) =~= texts(before).push(addr@));
                }
            },
        }
    } else {
        let own: bool = match &o.to_account {
            Some(a) => bytes_equal(a.as_slice(), account),
            None => false,
        };
        let external: bool = match o.key_scope {
            Some(s) => s == KEY_SCOPE_EXTERNAL,
            None => false,
        };
        if own && external {
            let value: u64 = match o.value {
                Some(v) => if v > 0 {
                    v as u64
                } else {
                    0
                },
                None => 0,
            };
            agg.self_value = agg.self_value.saturating_add(value);
        }
    }
    assert(agg@ =~= with_output(old(agg)@, o@, account@));
}

/// Whether an optional field holds some bytes.
fn is_bytes(o: &Option<Vec<u8>>, b: &[u8]) -> (r: bool)
    ensures
        r == (opt_bytes(*o) == Some(b@)),
{
    match o {
        Some(v) => bytes_equal(v.as_slice(), b),
        None => false,
    }
}

/// What the outputs of a transaction add up to, as far as they concern the
/// account.
fn sum_outputs(outputs: &Vec<FundingOutput>, txid: &[u8], account: &[u8]) -> (r: OutputsAgg)
    ensures
        r@ == outputs_of(views(outputs@), txid@, account@),
{
    let ghost all = views(outputs@);
    let mut agg = OutputsAgg { is_zkv: false, memo: None, recipients: Vec::new(), self_value: 0 };
    let mut i: usize = 0;
    assert(agg@ =~= empty_agg());
    while i < outputs.len()
        invariant
            i <= outputs.len(),
            all == views(outputs@),
            agg@ == outputs_of(all.take(i as int), txid@, account@),
        decreases outputs.len() - i,
    {
        proof {
            assert(all.take(i + 1).drop_last() =~= all.take(i as int));
            assert(all.take(i + 1).last() == outputs@[i as int]@);
        }
        let o = &outputs[i];
        if is_bytes(&o.txid, txid) && (is_bytes(&o.to_account, account) || is_bytes(
            &o.from_account,
            account,
        )) {
            add_output(&mut agg, &outputs[i], account);
        }
        i += 1;
    }
    assert(all.take(i as int) =~= all);
    agg
}

/// The ledger entry of a transaction, if it has one.
fn entry_of_row(row: &FundingRow, txid: &Vec<u8>, agg: OutputsAgg, tip: u32) -> (r: Option<FundingTx>)
    ensures
        r is Some <==> direction_of(row@, agg@) is Some,
        r matches Some(e) ==> e@ == ledger_entry(
            row@,
            txid@,
            agg@,
            direction_of(row@, agg@)->0,
            tip,
        ),
{
    let delta: i64 = match row.delta {
        Some(d) => d,
        None => 0,
    };
    let raw_fee: Option<u64> = match row.fee {
        Some(f) => if f >= 0 {
            Some(f as u64)
        } else {
            None
        },
        None => None,
    };
    let outgoing: bool = delta < 0;
    let signed: i64 = if outgoing {
        match row.fee {
            Some(f) => if f >= 0 {
                delta + f
            } else {
                delta
            },
            None => delta,
        }
    } else {
        delta
    };
    let fee: Option<u64> = if outgoing {
        raw_fee
    } else {
        None
    };
    let bare: u64 = match fee {
        Some(f) => f,
        None => 0,
    };
    let (direction, amount): (FundingDirection, u64) = if signed > 0 {
        (FundingDirection::Received, signed as u64)
    } else if signed < 0 {
        (FundingDirection::Sent, (-(signed + 1)) as u64 + 1)
    } else if agg.self_value > 0 {
        (FundingDirection::SelfTransfer, bare)
    } else if agg.is_zkv && outgoing {
        (FundingDirection::ZkvOperation, bare)
    } else {
        return None;
    };
    let height: Option<u32> = positive_u32(row.mined_height);
    let depth: u32 = confirmations_at(height, tip);
    let required: u32 = match direction {
        FundingDirection::Received => UNTRUSTED_CONFIRMATIONS,
        _ => TRUSTED_CONFIRMATIONS,
    };
    let self_sent: Option<u64> = match direction {
        FundingDirection::SelfTransfer => Some(agg.self_value),
        _ => None,
    };
    let r = FundingTx {
        txid: txid_hex(txid.as_slice()),
        height,
        timestamp: positive_u32(row.block_time),
        direction,
        amount,
        self_sent,
        fee,
        memo: agg.memo,
        recipients: agg.recipients,
        is_zkv: agg.is_zkv,
        pending: height.is_none(),
        confirmations: depth,
        required,
        confirmed: height.is_some() && depth >= required,
    };
    Some(r)
}

/// The whole ledger: newest first, unmined transactions on top.
pub fn funding_entries(
    outputs: &Vec<FundingOutput>,
    rows: &Vec<FundingRow>,
    account: &[u8],
    tip: u32,
) -> (r: Vec<FundingTx>)
    ensures
        views(r@) == sorted::<FundingTx>(ledger(views(rows@), views(outputs@), account@, tip)),
{
    let ghost all = views(rows@);
    let mut entries: Vec<FundingTx> = Vec::new();
    let mut i: usize = 0;
    assert(views(entries@) =~= Seq::<FundingModel>::empty());
    while i < rows.len()
        invariant
            i <= rows.len(),
            all == views(rows@),
            views(entries@) == ledger(all.take(i as int), views(outputs@), account@, tip),
        decreases rows.len() - i,
    {
        let ghost before = entries@;
        proof {
            assert(all.take(i + 1).drop_last() =~= all.take(i as int));
            assert(all.take(i + 1).last() == rows@[i as int]@);
        }
        match &rows[i].txid {
            None => {},
            Some(txid) => {
                if txid.len() > 0 && bytes_equal(rows[i].account.as_slice(), account) && still_live(
                    rows[i].mined_height,
                    rows[i].expiry_height,
                    tip,
                ) {
                    let agg = sum_outputs(outputs, txid.as_slice(), account);
                    match entry_of_row(&rows[i], txid, agg, tip) {
                        None => {},
                        Some(e) => {
                            let ghost m = e@;
                            entries.push(e);
                            assert(views(entries@) =~= views(before).push(m));
                        },
                    }
                }
            },
        }
        i += 1;
    }
    assert(all.take(i as int) =~= all);
    stable_sort(entries)
}

/// Whether a result is the page asked for of these entries.
pub open spec fn is_ledger_page(
    r: FundingResult,
    entries: Seq<FundingModel>,
    limit: Option<u32>,
    offset: u32,
) -> bool {
    let all = sorted::<FundingTx>(entries);
    &&& views(r.entries@) == page_of(all, limit, offset)
    &&& r.total == all.len()
    &&& r.offset == offset
    &&& r.limit == limit
}

/// One page of the ledger.
pub fn load_funding(
    outputs: &Vec<FundingOutput>,
    rows: &Vec<FundingRow>,
    account: &[u8],
    tip: u32,
    limit: Option<u32>,
    offset: u32,
) -> (r: FundingResult)
    ensures
        is_ledger_page(r, ledger(views(rows@), views(outputs@), account@, tip), limit, offset),
{
    let entries = funding_entries(outputs, rows, account, tip);
    let ghost all = views(entries@);
    let n: usize = entries.len();
    let total: u64 = n as u64;
    let start: usize = if (offset as u64) < n as u64 {
        offset as usize
    } else {
        n
    };
    let stop: usize = match limit {
        None => n,
        Some(l) => if (l as u64) < (n - start) as u64 {
            start + l as usize
        } else {
            n
        },
    };
    let mut paged: Vec<FundingTx> = Vec::new();
    let mut i: usize = start;
    while i < stop
        invariant
            start <= i <= stop <= n,
            n == entries.len(),
            all == views(entries@),
            paged.len() == i - start,
            forall|k: int| 0 <= k < paged.len() ==> (#[trigger] paged@[k])@ == all[start + k],
        decreases stop - i,
    {
        assert(all[i as int] == entries@[i as int]@);
        paged.push(entries[i].copy());
        i += 1;
    }
    assert(views(paged@) =~= page_of(all, limit, offset));
    FundingResult { entries: paged, total, offset, limit }
}

/// The ledger accounts for the balance: what an entry shows as received came in,
/// and what it shows as sent left together with the fee. Transfers to ourselves
/// and writes cost the fee alone.
pub proof fn ledger_accounts_for_the_balance(
    row: FundingRowModel,
    txid: Seq<u8>,
    agg: AggModel,
    tip: u32,
)
    requires
        direction_of(row, agg) is Some,
    ensures
        ({
            let d = direction_of(row, agg)->0;
            let e = ledger_entry(row, txid, agg, d, tip);
            let fee: int = match e.fee {
                Some(f) => f as int,
                None => 0,
            };
            match d {
                FundingDirection::Received => balance_delta(row) + fee == e.amount,
                FundingDirection::Sent => balance_delta(row) == -(e.amount + fee),
                FundingDirection::SelfTransfer | FundingDirection::ZkvOperation => balance_delta(
                    row,
                ) == -fee && e.amount == fee,
            }
        }),
{
}

/// Nothing that changed the balance is left out of the ledger, but for the bare
/// fee of a transaction that is neither a write nor meant for ourselves.
pub proof fn ledger_leaves_no_value_out(row: FundingRowModel, agg: AggModel)
    requires
        direction_of(row, agg) is None,
    ensures
        moved(row) == 0,
        agg.self_value == 0,
        !agg.is_zkv || balance_delta(row) == 0,
{
}

/// Every entry of the ledger comes from one row, and says of it what the row says.
pub proof fn every_entry_has_its_row(
    rows: Seq<FundingRowModel>,
    outputs: Seq<FundingOutputModel>,
    account: Seq<u8>,
    tip: u32,
    i: int,
) -> (k: int)
    requires
        0 <= i < ledger(rows, outputs, account, tip).len(),
    ensures
        0 <= k < rows.len(),
        rows[k].account == account,
        rows[k].txid is Some,
        ({
            let e = ledger(rows, outputs, account, tip)[i];
            let txid = rows[k].txid->0;
            let agg = outputs_of(outputs, txid, account);
            &&& direction_of(rows[k], agg) == Some(e.direction)
            &&& e == ledger_entry(rows[k], txid, agg, e.direction, tip)
        }),
    decreases rows.len(),
{
    let before = ledger(rows.drop_last(), outputs, account, tip);
    if i < before.len() {
        every_entry_has_its_row(rows.drop_last(), outputs, account, tip, i)
    } else {
        rows.len() - 1
    }
}

/// When an entry counts as confirmed: a receipt needs ten confirmations, a
/// transaction of our own three, and nothing that is not mined is confirmed.
/// Confirmations count the block itself.
pub proof fn receipts_wait_longer_than_our_own(
    rows: Seq<FundingRowModel>,
    outputs: Seq<FundingOutputModel>,
    account: Seq<u8>,
    tip: u32,
    i: int,
)
    requires
        0 <= i < ledger(rows, outputs, account, tip).len(),
    ensures
        ({
            let e = ledger(rows, outputs, account, tip)[i];
            &&& e.direction is Received ==> e.required == 10
            &&& !(e.direction is Received) ==> e.required == 3
            &&& e.direction is Received ==> (e.confirmed <==> !e.pending && e.confirmations >= 10)
            &&& !(e.direction is Received) ==> (e.confirmed <==> !e.pending && e.confirmations
                >= 3)
            &&& e.pending <==> e.height is None
            &&& e.pending ==> e.confirmations == 0 && !e.confirmed
            &&& e.height matches Some(h) ==> (if h <= tip {
                e.confirmations == tip - h + 1 || (h == 0 && tip == u32::MAX)
            } else {
                e.confirmations == 1
            })
        }),
{
    let k = every_entry_has_its_row(rows, outputs, account, tip, i);
}

proof fn lemma_entry_is_kept(
    rows: Seq<FundingRowModel>,
    outputs: Seq<FundingOutputModel>,
    account: Seq<u8>,
    tip: u32,
    k: int,
) -> (i: int)
    requires
        0 <= k < rows.len(),
        rows[k].account == account,
        rows[k].txid matches Some(t) && t.len() > 0,
        is_live(rows[k].mined_height, rows[k].expiry_height, tip),
        direction_of(rows[k], outputs_of(outputs, rows[k].txid->0, account)) is Some,
    ensures
        0 <= i < ledger(rows, outputs, account, tip).len(),
        ({
            let txid = rows[k].txid->0;
            let agg = outputs_of(outputs, txid, account);
            ledger(rows, outputs, account, tip)[i] == ledger_entry(
                rows[k],
                txid,
                agg,
                direction_of(rows[k], agg)->0,
                tip,
            )
        }),
    decreases rows.len(),
{
    if k == rows.len() - 1 {
        ledger(rows, outputs, account, tip).len() - 1
    } else {
        lemma_entry_is_kept(rows.drop_last(), outputs, account, tip, k)
    }
}

/// Whether a row belongs to the account and counts: it names its transaction, and
/// that is mined or may still be.
pub open spec fn row_counts(row: FundingRowModel, account: Seq<u8>, tip: u32) -> bool {
    &&& row.account == account
    &&& row.txid matches Some(t) && t.len() > 0
    &&& row.mined_height is Some || row.expiry_height is None || row.expiry_height == Some(0i64)
        || row.expiry_height->0 >= tip
}

/// Value that came in is in the ledger as a receipt, whole and without a fee,
/// whatever fee its sender paid and whatever memo it carries.
pub proof fn a_deposit_is_shown_as_received(
    rows: Seq<FundingRowModel>,
    outputs: Seq<FundingOutputModel>,
    account: Seq<u8>,
    tip: u32,
    k: int,
) -> (i: int)
    requires
        0 <= k < rows.len(),
        row_counts(rows[k], account, tip),
        rows[k].delta matches Some(d) && d > 0,
    ensures
        0 <= i < ledger(rows, outputs, account, tip).len(),
        ({
            let e = ledger(rows, outputs, account, tip)[i];
            &&& e.direction is Received
            &&& e.amount == rows[k].delta->0
            &&& e.fee is None
            &&& e.self_sent is None
            &&& e.txid == shown_txid(rows[k].txid->0)
            &&& e.height == block_height(rows[k].mined_height)
            &&& e.timestamp == block_height(rows[k].block_time)
        }),
{
    lemma_entry_is_kept(rows, outputs, account, tip, k)
}

/// Value that left is in the ledger as sent: the amount without the fee, and the
/// fee beside it.
pub proof fn a_payment_is_shown_without_its_fee(
    rows: Seq<FundingRowModel>,
    outputs: Seq<FundingOutputModel>,
    account: Seq<u8>,
    tip: u32,
    k: int,
    amount: u64,
    fee: u64,
) -> (i: int)
    requires
        0 <= k < rows.len(),
        row_counts(rows[k], account, tip),
        amount > 0,
        fee <= i64::MAX,
        rows[k].delta matches Some(d) && d == -(amount + fee),
        rows[k].fee == Some(fee as i64),
    ensures
        0 <= i < ledger(rows, outputs, account, tip).len(),
        ({
            let e = ledger(rows, outputs, account, tip)[i];
            &&& e.direction is Sent
            &&& e.amount == amount
            &&& e.fee == Some(fee)
            &&& e.self_sent is None
            &&& e.txid == shown_txid(rows[k].txid->0)
            &&& e.height == block_height(rows[k].mined_height)
            &&& e.timestamp == block_height(rows[k].block_time)
        }),
{
    lemma_entry_is_kept(rows, outputs, account, tip, k)
}

/// A transaction that cost its fee alone is a transfer to ourselves where an output
/// went to an address of our own that is given out; else it is a write where an
/// output carries a memo of this protocol; else it is left out. What went to
/// ourselves is shown beside the fee.
pub proof fn a_bare_fee_is_told_apart(
    rows: Seq<FundingRowModel>,
    outputs: Seq<FundingOutputModel>,
    account: Seq<u8>,
    tip: u32,
    k: int,
    fee: u64,
) -> (i: int)
    requires
        0 <= k < rows.len(),
        row_counts(rows[k], account, tip),
        0 < fee <= i64::MAX,
        rows[k].delta matches Some(d) && d == -fee,
        rows[k].fee == Some(fee as i64),
        ({
            let agg = outputs_of(outputs, rows[k].txid->0, account);
            agg.self_value > 0 || agg.is_zkv
        }),
    ensures
        0 <= i < ledger(rows, outputs, account, tip).len(),
        ({
            let e = ledger(rows, outputs, account, tip)[i];
            let agg = outputs_of(outputs, rows[k].txid->0, account);
            &&& agg.self_value > 0 ==> e.direction is SelfTransfer && e.self_sent == Some(
                agg.self_value,
            )
            &&& agg.self_value == 0 ==> e.direction is ZkvOperation && e.self_sent is None
            &&& e.amount == fee
            &&& e.fee == Some(fee)
            &&& e.txid == shown_txid(rows[k].txid->0)
            &&& e.height == block_height(rows[k].mined_height)
        }),
{
    lemma_entry_is_kept(rows, outputs, account, tip, k)
}

/// A transaction that neither moved value, nor was meant for ourselves, nor is a
/// write has no entry, and neither has one of another account, one without an id,
/// or one that expired unmined.
pub proof fn what_is_not_ours_is_left_out(
    rows: Seq<FundingRowModel>,
    outputs: Seq<FundingOutputModel>,
    account: Seq<u8>,
    tip: u32,
    i: int,
)
    requires
        0 <= i < ledger(rows, outputs, account, tip).len(),
    ensures
        exists|k: int|
            0 <= k < rows.len() && #[trigger] row_counts(rows[k], account, tip) && ledger(
                rows,
                outputs,
                account,
                tip,
            )[i].txid == shown_txid(rows[k].txid->0),
    decreases rows.len(),
{
    let before = ledger(rows.drop_last(), outputs, account, tip);
    if i < before.len() {
        what_is_not_ours_is_left_out(rows.drop_last(), outputs, account, tip, i);
        let k = choose|k: int|
            0 <= k < rows.drop_last().len() && #[trigger] row_counts(
                rows.drop_last()[k],
                account,
                tip,
            ) && before[i].txid == shown_txid(rows.drop_last()[k].txid->0);
        assert(row_counts(rows[k], account, tip));
    } else {
        assert(row_counts(rows[rows.len() - 1], account, tip));
    }
}

/// Whether an output belongs to a transaction and concerns the account.
pub open spec fn is_output_of(o: FundingOutputModel, txid: Seq<u8>, account: Seq<u8>) -> bool {
    o.txid == Some(txid) && (o.to_account == Some(account) || o.from_account == Some(account))
}

/// The recipients of a transaction are the addresses outside the wallet that its
/// outputs went to, each once; change has none, and neither has what went to an
/// account of this wallet.
pub proof fn recipients_are_those_outside_the_wallet(
    outputs: Seq<FundingOutputModel>,
    txid: Seq<u8>,
    account: Seq<u8>,
    address: Seq<char>,
)
    ensures
        outputs_of(outputs, txid, account).recipients.no_duplicates(),
        outputs_of(outputs, txid, account).recipients.contains(address) <==> address.len() > 0
            && exists|k: int|
            0 <= k < outputs.len() && #[trigger] is_output_of(outputs[k], txid, account)
                && outputs[k].to_account is None && (outputs[k].is_change is None
                || outputs[k].is_change == Some(0i64)) && outputs[k].to_address == Some(address),
    decreases outputs.len(),
{
    if outputs.len() > 0 {
        let front = outputs.drop_last();
        let o = outputs.last();
        recipients_are_those_outside_the_wallet(front, txid, account, address);
        let a = outputs_of(front, txid, account).recipients;
        let b = outputs_of(outputs, txid, account).recipients;
        let good = |p: FundingOutputModel|
            is_output_of(p, txid, account) && p.to_account is None && (p.is_change is None
                || p.is_change == Some(0i64)) && p.to_address == Some(address);
        if a.contains(address) {
            let j = choose|j: int| 0 <= j < a.len() && a[j] == address;
            assert(b[j] == address);
            let k = choose|k: int| 0 <= k < front.len() && #[trigger] is_output_of(
                front[k],
                txid,
                account,
            ) && good(front[k]);
            assert(is_output_of(outputs[k], txid, account));
        }
        if address.len() > 0 && good(o) {
            assert(is_output_of(outputs[outputs.len() - 1], txid, account));
            if !a.contains(address) {
                assert(b[b.len() - 1] == address);
            }
        }
        if b.contains(address) && !a.contains(address) {
            let j = choose|j: int| 0 <= j < b.len() && b[j] == address;
            if j < a.len() {
                assert(a[j] == address);
            }
            assert(is_output_of(outputs[outputs.len() - 1], txid, account));
        }
        if exists|k: int| 0 <= k < outputs.len() && #[trigger] is_output_of(
            outputs[k],
            txid,
            account,
        ) && good(outputs[k]) {
            let k = choose|k: int| 0 <= k < outputs.len() && #[trigger] is_output_of(
                outputs[k],
                txid,
                account,
            ) && good(outputs[k]);
            if k < front.len() {
                assert(is_output_of(front[k], txid, account));
            }
        }
    }
}

/// A transaction is a write of this database exactly where one of its outputs
/// carries a text memo of this protocol.
pub proof fn a_write_is_told_by_its_memo(
    outputs: Seq<FundingOutputModel>,
    txid: Seq<u8>,
    account: Seq<u8>,
)
    ensures
        outputs_of(outputs, txid, account).is_zkv <==> exists|k: int|
            0 <= k < outputs.len() && #[trigger] is_output_of(outputs[k], txid, account)
                && outputs[k].memo_is_zkv && outputs[k].memo is Some && memo_text(
                outputs[k].memo->0,
            ) is Some,
    decreases outputs.len(),
{
    if outputs.len() > 0 {
        let front = outputs.drop_last();
        a_write_is_told_by_its_memo(front, txid, account);
        let good = |p: FundingOutputModel|
            p.memo_is_zkv && p.memo is Some && memo_text(p.memo->0) is Some;
        if outputs_of(front, txid, account).is_zkv {
            let k = choose|k: int| 0 <= k < front.len() && #[trigger] is_output_of(
                front[k],
                txid,
                account,
            ) && good(front[k]);
            assert(is_output_of(outputs[k], txid, account));
        }
        if is_output_of(outputs[outputs.len() - 1], txid, account) && good(outputs.last()) {
            assert(outputs_of(outputs, txid, account).is_zkv);
        }
        if exists|k: int| 0 <= k < outputs.len() && #[trigger] is_output_of(
            outputs[k],
            txid,
            account,
        ) && good(outputs[k]) {
            let k = choose|k: int| 0 <= k < outputs.len() && #[trigger] is_output_of(
                outputs[k],
                txid,
                account,
            ) && good(outputs[k]);
            if k < front.len() {
                assert(is_output_of(front[k], txid, account));
            }
        }
    }
}

/// The memo that is shown is the text of an output that is no memo of this
/// protocol; the first one that is not empty. One more output never changes it.
pub proof fn the_first_message_is_shown(
    outputs: Seq<FundingOutputModel>,
    txid: Seq<u8>,
    account: Seq<u8>,
    o: FundingOutputModel,
)
    ensures
        outputs_of(outputs, txid, account).memo is Some ==> outputs_of(
            outputs.push(o),
            txid,
            account,
        ).memo == outputs_of(outputs, txid, account).memo,
        outputs_of(outputs, txid, account).memo is None ==> (outputs_of(
            outputs.push(o),
            txid,
            account,
        ).memo == (if is_output_of(o, txid, account) && !o.memo_is_zkv && o.memo is Some
            && memo_text(o.memo->0) is Some && (memo_text(o.memo->0)->0).len() > 0 {
            memo_text(o.memo->0)
        } else {
            None
        })),
{
    assert(outputs.push(o).drop_last() =~= outputs);
}

/// What went to ourselves is the sum of the outputs to an address of our own that
/// is given out; change and what went elsewhere add nothing to it.
pub proof fn self_value_is_what_came_back(
    outputs: Seq<FundingOutputModel>,
    txid: Seq<u8>,
    account: Seq<u8>,
    o: FundingOutputModel,
)
    ensures
        ({
            let before = outputs_of(outputs, txid, account).self_value;
            let after = outputs_of(outputs.push(o), txid, account).self_value;
            if o.txid == Some(txid) && o.to_account == Some(account) && o.key_scope == Some(0i64)
                && o.value is Some && o.value->0 > 0 {
                after == before + o.value->0 || (before + o.value->0 > u64::MAX && after
                    == u64::MAX)
            } else {
                after == before
            }
        }),
        outputs_of(Seq::empty(), txid, account).self_value == 0,
{
    assert(outputs.push(o).drop_last() =~= outputs);
}

/// The ledger is shown newest first: transactions that are not mined on top, then
/// from the highest block down, and none is lost.
pub proof fn the_ledger_is_newest_first(s: Seq<FundingModel>, i: int, j: int)
    requires
        0 <= i < j < s.len(),
    ensures
        ({
            let t = sorted::<FundingTx>(s);
            &&& t.to_multiset() == s.to_multiset()
            &&& t[j].pending ==> t[i].pending
            &&& t[i].pending == t[j].pending && t[i].height is Some && t[j].height is Some
                ==> t[i].height->0 >= t[j].height->0
            &&& t[i].pending == t[j].pending && t[i].height == t[j].height ==> !str_lt(
                t[i].txid,
                t[j].txid,
            )
        }),
{
    crate::sort::sorting_orders_everything::<FundingTx>(s);
    let t = sorted::<FundingTx>(s);
    assert(!FundingTx::precedes(t[j], t[i]));
    lemma_str_trichotomy(t[i].txid, t[j].txid);
}

/// Without a limit the ledger is shown whole: every entry once. A page is cut from
/// that, and tells how much there is on all pages.
pub proof fn the_ledger_is_shown_whole(
    page: FundingResult,
    all: FundingResult,
    entries: Seq<FundingModel>,
    limit: Option<u32>,
    offset: u32,
    i: int,
)
    requires
        is_ledger_page(page, entries, limit, offset),
        is_ledger_page(all, entries, None, 0),
    ensures
        views(all.entries@).to_multiset() == entries.to_multiset(),
        all.total == entries.len(),
        page.total == entries.len(),
        page.offset == offset,
        page.limit == limit,
        0 <= i < page.entries.len() ==> page.entries@[i]@ == all.entries@[offset + i]@,
        limit is None && offset <= entries.len() ==> page.entries.len() == entries.len() - offset,
        limit matches Some(l) ==> page.entries.len() <= l,
{
    crate::sort::sorting_orders_everything::<FundingTx>(entries);
    let s = sorted::<FundingTx>(entries);
    crate::internal::history::unlimited_page_is_everything(s);
    assert(views(page.entries@).len() == page.entries.len());
    assert(views(all.entries@).len() == all.entries.len());
    if 0 <= i < page.entries.len() {
        assert(views(page.entries@)[i] == page.entries@[i]@);
        assert(views(all.entries@)[offset + i] == all.entries@[offset + i]@);
        crate::internal::history::a_page_holds_what_was_asked_for(s, limit, offset, i);
    }
}

} // verus!
