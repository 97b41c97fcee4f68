//! The memos that the wallet holds past what the snapshot has taken in.

use crate::internal::memo::{decode_text_memo, memo_text};
use crate::internal::pool::{block_height, is_of_pool, output_codes, ShieldedPool};
use crate::internal::snapshot::{
    copy_bytes, copy_opt_bytes, lemma_pos_transitive, lemma_pos_trichotomy, opt_bytes, pos_lt, Command, CommandModel,
    Pos, Watermark,
};
use crate::internal::state::{DecodedModel, DecodedRow};
use crate::lex::{bytes_before, bytes_equal, lemma_lex_transitive, lemma_lex_trichotomy, lex_lt};
use crate::protocol::Op;
use crate::sort::{
    is_sorted, lemma_filter_sorted, lemma_sorted_filter, sorted, sorting_orders_everything, stable_sort, views, Ranked,
};
use vstd::prelude::*;

verus! {

/// An output that the wallet received, joined with what it knows of its sending.
#[derive(Clone, Debug, PartialEq, Eq)]
pub struct StoredOutput {
    /// The account that received the output.
    pub account: Vec<u8>,
    /// The pool code of the output.
    pub pool: i64,
    pub memo: Option<Vec<u8>>,
    /// The memo as it was sent, where this wallet sent it.
    pub sent_memo: Option<Vec<u8>>,
    /// The account of this wallet that sent it, if one did.
    pub from_account: Option<Vec<u8>>,
    pub mined_height: Option<i64>,
    /// Where an unmined transaction expires; none or zero means never.
    pub expiry_height: Option<i64>,
    pub block_time: Option<i64>,
    pub txid: Vec<u8>,
    pub output_index: u32,
}

/// [`StoredOutput`] as mathematics.
pub struct StoredModel {
    pub account: Seq<u8>,
    pub pool: i64,
    pub memo: Option<Seq<u8>>,
    pub sent_memo: Option<Seq<u8>>,
    pub from_account: Option<Seq<u8>>,
    pub mined_height: Option<i64>,
    pub expiry_height: Option<i64>,
    pub block_time: Option<i64>,
    pub txid: Seq<u8>,
    pub output_index: u32,
}

impl View for StoredOutput {
    type V = StoredModel;

    open spec fn view(&self) -> StoredModel {
        StoredModel {
            account: self.account@,
            pool: self.pool,
            memo: opt_bytes(self.memo),
            sent_memo: opt_bytes(self.sent_memo),
            from_account: opt_bytes(self.from_account),
            mined_height: self.mined_height,
            expiry_height: self.expiry_height,
            block_time: self.block_time,
            txid: self.txid@,
            output_index: self.output_index,
        }
    }
}

/// A text memo of the wallet.
#[derive(Clone, Debug, PartialEq, Eq)]
pub struct ScannedMemo {
    pub text: String,
    pub mined_height: Option<i64>,
    pub block_time: Option<i64>,
    pub from_uuid: Option<Vec<u8>>,
    pub txid: Vec<u8>,
    pub output_index: u32,
}

/// [`ScannedMemo`] as mathematics.
pub struct ScannedModel {
    pub text: Seq<char>,
    pub mined_height: Option<i64>,
    pub block_time: Option<i64>,
    pub from_uuid: Option<Seq<u8>>,
    pub txid: Seq<u8>,
    pub output_index: u32,
}

impl View for ScannedMemo {
    type V = ScannedModel;

    open spec fn view(&self) -> ScannedModel {
        ScannedModel {
            text: self.text@,
            mined_height: self.mined_height,
            block_time: self.block_time,
            from_uuid: opt_bytes(self.from_uuid),
            txid: self.txid@,
            output_index: self.output_index,
        }
    }
}

/// Chain order, with what is not mined last.
pub open spec fn scanned_before(a: ScannedModel, b: ScannedModel) -> bool {
    match (a.mined_height, b.mined_height) {
        (Some(_), None) => true,
        (None, Some(_)) => false,
        (Some(x), Some(y)) => x < y || (x == y && output_before(a, b)),
        (None, None) => output_before(a, b),
    }
}

/// The order within a block: by transaction id, then output.
pub open spec fn output_before(a: ScannedModel, b: ScannedModel) -> bool {
    lex_lt(a.txid, b.txid) || (a.txid == b.txid && a.output_index < b.output_index)
}

impl Ranked for ScannedMemo {
    open spec fn precedes(a: ScannedModel, b: ScannedModel) -> bool {
        scanned_before(a, b)
    }

    fn before(&self, other: &Self) -> (r: bool) {
        let earlier: bool = bytes_before(self.txid.as_slice(), other.txid.as_slice()) || (
        bytes_equal(self.txid.as_slice(), other.txid.as_slice()) && self.output_index
            < other.output_index);
        match (self.mined_height, other.mined_height) {
            (Some(_), None) => true,
            (None, Some(_)) => false,
            (Some(x), Some(y)) => x < y || (x == y && earlier),
            (None, None) => earlier,
        }
    }

    proof fn lemma_weak_order(a: ScannedModel, b: ScannedModel, c: ScannedModel) {
        lemma_lex_trichotomy(a.txid, a.txid);
        lemma_lex_trichotomy(a.txid, b.txid);
        lemma_lex_trichotomy(b.txid, c.txid);
        lemma_lex_trichotomy(a.txid, c.txid);
        if lex_lt(c.txid, b.txid) && lex_lt(b.txid, a.txid) {
            lemma_lex_transitive(c.txid, b.txid, a.txid);
        }
        if lex_lt(a.txid, c.txid) && lex_lt(c.txid, b.txid) {
            lemma_lex_transitive(a.txid, c.txid, b.txid);
        }
        if lex_lt(b.txid, a.txid) && lex_lt(a.txid, c.txid) {
            lemma_lex_transitive(b.txid, a.txid, c.txid);
        }
    }
}

/// The greater of two memos; the one there is where there is only one.
pub open spec fn greater_memo(a: Option<Seq<u8>>, b: Option<Seq<u8>>) -> Option<Seq<u8>> {
    match (a, b) {
        (Some(x), Some(y)) => Some(
            if lex_lt(x, y) {
                y
            } else {
                x
            },
        ),
        (Some(x), None) => Some(x),
        (None, _) => b,
    }
}

/// The place of a mined output on the chain.
pub open spec fn place_of(o: StoredModel) -> Pos {
    Pos {
        height: o.mined_height->0 as int,
        txid: o.txid,
        output_index: o.output_index as int,
    }
}

/// Whether an output belongs to a database: the account received it in the
/// database's pool, with a memo or from itself.
pub open spec fn is_ours(o: StoredModel, account: Seq<u8>, pool: ShieldedPool) -> bool {
    &&& o.account == account
    &&& output_codes(pool).contains(o.pool)
    &&& (o.memo is Some || o.from_account == Some(account))
}

/// Whether a transaction counts: it is mined, or has not expired.
pub open spec fn is_live(mined_height: Option<i64>, expiry_height: Option<i64>, tip: u32) -> bool {
    mined_height is Some || (match expiry_height {
        None => true,
        Some(e) => e == 0 || e >= tip,
    })
}

/// Whether a transaction counts.
pub fn still_live(mined_height: Option<i64>, expiry_height: Option<i64>, tip: u32) -> (r: bool)
    ensures
        r == is_live(mined_height, expiry_height, tip),
{
    mined_height.is_some() || match expiry_height {
        None => true,
        Some(e) => e == 0 || e >= tip as i64,
    }
}

/// Whether an output lies past a place on the chain; one that is not mined does.
pub open spec fn is_past(o: StoredModel, mark: Pos) -> bool {
    o.mined_height is None || pos_lt(mark, place_of(o))
}

/// Whether a scan from a place on the chain looks at an output.
pub open spec fn is_scanned(
    o: StoredModel,
    account: Seq<u8>,
    tip: u32,
    mark: Pos,
    pool: ShieldedPool,
) -> bool {
    is_ours(o, account, pool) && is_live(o.mined_height, o.expiry_height, tip) && is_past(o, mark)
}

/// The text memo that an output carries, if it carries one.
pub open spec fn text_of(o: StoredModel) -> Option<ScannedModel> {
    match greater_memo(o.memo, o.sent_memo) {
        None => None,
        Some(m) => match memo_text(m) {
            None => None,
            Some(t) => Some(
                ScannedModel {
                    text: t,
                    mined_height: o.mined_height,
                    block_time: o.block_time,
                    from_uuid: o.from_account,
                    txid: o.txid,
                    output_index: o.output_index,
                },
            ),
        },
    }
}

/// The text memos that a scan finds.
pub open spec fn scanned(
    rows: Seq<StoredModel>,
    account: Seq<u8>,
    tip: u32,
    mark: Pos,
    pool: ShieldedPool,
) -> Seq<ScannedModel>
    decreases rows.len(),
{
    if rows.len() == 0 {
        Seq::empty()
    } else {
        let before = scanned(rows.drop_last(), account, tip, mark, pool);
        if is_scanned(rows.last(), account, tip, mark, pool) && text_of(rows.last()) is Some {
            before.push(text_of(rows.last())->0)
        } else {
            before
        }
    }
}

impl StoredOutput {
    /// Whether a scan looks at the output.
    fn in_scan(&self, account: &[u8], tip: u32, mark: &Watermark, pool: ShieldedPool) -> (r: bool)
        ensures
            r == is_scanned(self@, account@, tip, mark@, pool),
    {
        let from_us: bool = match &self.from_account {
            Some(a) => bytes_equal(a.as_slice(), account),
            None => false,
        };
        if !bytes_equal(self.account.as_slice(), account) || !is_of_pool(self.pool, pool) || !(
        self.memo.is_some() || from_us) || !still_live(self.mined_height, self.expiry_height, tip) {
            return false;
        }
        match self.mined_height {
            None => true,
            Some(h) => {
                let w: i64 = mark.height as i64;
                w < h || (w == h && (bytes_before(mark.txid.as_slice(), self.txid.as_slice()) || (
                bytes_equal(mark.txid.as_slice(), self.txid.as_slice()) && mark.output_index
                    < self.output_index)))
            },
        }
    }

    /// The text memo that the output carries.
    fn text_memo(&self) -> (r: Option<ScannedMemo>)
        ensures
            r is Some <==> text_of(self@) is Some,
            r matches Some(m) ==> text_of(self@) == Some(m@),
    {
        let text: Option<String> = match (&self.memo, &self.sent_memo) {
            (Some(x), Some(y)) => if bytes_before(x.as_slice(), y.as_slice()) {
                decode_text_memo(y.as_slice())
            } else {
                decode_text_memo(x.as_slice())
            },
            (Some(x), None) => decode_text_memo(x.as_slice()),
            (None, Some(y)) => decode_text_memo(y.as_slice()),
            (None, None) => None,
        };
        match text {
            None => None,
            Some(text) => Some(
                ScannedMemo {
                    text,
                    mined_height: self.mined_height,
                    block_time: self.block_time,
                    from_uuid: copy_opt_bytes(&self.from_account),
                    txid: copy_bytes(&self.txid),
                    output_index: self.output_index,
                },
            ),
        }
    }
}

/// The text memos of a database past the watermark, in chain order, with those
/// that are not mined last.
pub fn scan_memos_past_watermark(
    rows: &Vec<StoredOutput>,
    account: &[u8],
    tip: u32,
    watermark: &Watermark,
    pool: ShieldedPool,
) -> (r: Vec<ScannedMemo>)
    ensures
        views(r@) == sorted::<ScannedMemo>(
            scanned(views(rows@), account@, tip, watermark@, pool),
        ),
{
    let ghost all = views(rows@);
    let mut found: Vec<ScannedMemo> = Vec::new();
    let mut i: usize = 0;
    assert(views(found@) =~= Seq::<ScannedModel>::empty());
    while i < rows.len()
        invariant
            i <= rows.len(),
            all == views(rows@),
            views(found@) == scanned(all.take(i as int), account@, tip, watermark@, pool),
        decreases rows.len() - i,
    {
        let ghost before = found@;
        assert(all.take(i + 1).drop_last() =~= all.take(i as int));
        assert(all.take(i + 1).last() == rows@[i as int]@);
        if rows[i].in_scan(account, tip, watermark, pool) {
            match rows[i].text_memo() {
                Some(m) => {
                    let ghost model = m@;
                    found.push(m);
                    assert(views(found@) =~= views(before).push(model));
                },
                None => {},
            }
        }
        i += 1;
    }
    assert(all.take(i as int) =~= all);
    stable_sort(found)
}

impl ScannedMemo {
    /// A copy.
    pub fn copy(&self) -> (r: ScannedMemo)
        ensures
            r@ == self@,
    {
        ScannedMemo {
            text: self.text.clone(),
            mined_height: self.mined_height,
            block_time: self.block_time,
            from_uuid: copy_opt_bytes(&self.from_uuid),
            txid: copy_bytes(&self.txid),
            output_index: self.output_index,
        }
    }

    /// The memo together with what it asks for, if it parses as an operation, and
    /// the signed operation, if its signature leads to a signer.
    pub fn decoded(self, parsed_op: Option<Op>, command: Option<Command>) -> (r: DecodedRow)
        ensures
            r@ == decoded_memo(
                self@,
                parsed_op,
                match command {
                    Some(c) => Some(c@),
                    None => None,
                },
            ),
    {
        DecodedRow {
            text: self.text,
            parsed_op,
            command,
            mined_height: self.mined_height,
            block_time: self.block_time,
            from_uuid: self.from_uuid,
            txid: self.txid,
            output_index: self.output_index,
        }
    }
}

/// A memo together with what was read from it.
pub open spec fn decoded_memo(
    m: ScannedModel,
    parsed_op: Option<Op>,
    command: Option<CommandModel>,
) -> DecodedModel {
    DecodedModel {
        text: m.text,
        parsed_op,
        command,
        mined_height: m.mined_height,
        block_time: m.block_time,
        from_uuid: m.from_uuid,
        txid: m.txid,
        output_index: m.output_index,
    }
}

/// A scan hands out memos in chain order, those that are not mined last, and
/// leaves out and adds none.
pub proof fn scan_is_in_chain_order(
    rows: Seq<StoredModel>,
    account: Seq<u8>,
    tip: u32,
    mark: Pos,
    pool: ShieldedPool,
)
    ensures
        ({
            let found = scanned(rows, account, tip, mark, pool);
            let r = sorted::<ScannedMemo>(found);
            &&& is_sorted::<ScannedMemo>(r)
            &&& r.to_multiset() == found.to_multiset()
        }),
{
    sorting_orders_everything::<ScannedMemo>(scanned(rows, account, tip, mark, pool));
}

/// When the mark moves on, a scan from it looks at exactly what a scan from the
/// old mark looked at, less what lies between the two: nothing is read twice, and
/// nothing is skipped.
pub proof fn mark_divides_the_chain(
    o: StoredModel,
    account: Seq<u8>,
    tip: u32,
    mark: Pos,
    later: Pos,
    pool: ShieldedPool,
)
    requires
        pos_lt(mark, later),
    ensures
        is_scanned(o, account, tip, later, pool) <==> is_scanned(o, account, tip, mark, pool) && !(
        o.mined_height is Some && !pos_lt(later, place_of(o))),
{
    lemma_pos_trichotomy(mark, later);
    if o.mined_height is Some && pos_lt(later, place_of(o)) {
        lemma_pos_transitive(mark, later, place_of(o));
    }
}

/// A scan finds no more memos than there are outputs.
pub proof fn lemma_scan_len(
    rows: Seq<StoredModel>,
    account: Seq<u8>,
    tip: u32,
    mark: Pos,
    pool: ShieldedPool,
)
    ensures
        scanned(rows, account, tip, mark, pool).len() <= rows.len(),
        sorted::<ScannedMemo>(scanned(rows, account, tip, mark, pool)).len() <= rows.len(),
    decreases rows.len(),
{
    if rows.len() > 0 {
        lemma_scan_len(rows.drop_last(), account, tip, mark, pool);
    }
    sorting_orders_everything::<ScannedMemo>(scanned(rows, account, tip, mark, pool));
}

/// The place of a mined memo on the chain.
pub open spec fn memo_place(m: ScannedModel) -> Pos {
    Pos {
        height: m.mined_height->0 as int,
        txid: m.txid,
        output_index: m.output_index as int,
    }
}

/// Whether a memo lies past a place on the chain; one that is not mined does.
pub open spec fn memo_past(m: ScannedModel, mark: Pos) -> bool {
    m.mined_height is None || pos_lt(mark, memo_place(m))
}

/// Whether a memo is mined, at a height that is at most `cut`.
pub open spec fn is_deep(m: ScannedModel, cut: u32) -> bool {
    block_height(m.mined_height) matches Some(h) && h <= cut
}

proof fn lemma_scanned_past(
    rows: Seq<StoredModel>,
    account: Seq<u8>,
    tip: u32,
    mark: Pos,
    pool: ShieldedPool,
    i: int,
)
    requires
        0 <= i < scanned(rows, account, tip, mark, pool).len(),
    ensures
        memo_past(scanned(rows, account, tip, mark, pool)[i], mark),
    decreases rows.len(),
{
    let before = scanned(rows.drop_last(), account, tip, mark, pool);
    if i < before.len() {
        lemma_scanned_past(rows.drop_last(), account, tip, mark, pool, i);
    }
}

/// A scan from a later mark finds what a scan from an earlier one finds past it.
proof fn lemma_later_scan(
    rows: Seq<StoredModel>,
    account: Seq<u8>,
    tip: u32,
    mark: Pos,
    later: Pos,
    pool: ShieldedPool,
)
    requires
        pos_lt(mark, later),
    ensures
        scanned(rows, account, tip, later, pool) == scanned(rows, account, tip, mark, pool).filter(
            |m: ScannedModel| memo_past(m, later),
        ),
    decreases rows.len(),
{
    reveal(Seq::filter);
    let p = |m: ScannedModel| memo_past(m, later);
    if rows.len() > 0 {
        let o = rows.last();
        let before = scanned(rows.drop_last(), account, tip, mark, pool);
        lemma_later_scan(rows.drop_last(), account, tip, mark, later, pool);
        mark_divides_the_chain(o, account, tip, mark, later, pool);
        if is_scanned(o, account, tip, mark, pool) && text_of(o) is Some {
            let m = text_of(o)->0;
            assert(before.push(m).drop_last() =~= before);
            assert(p(m) == is_past(o, later));
        }
    }
}

/// Of a list in which what satisfies `a` stands before what satisfies `b` alone,
/// the former and then the rest are the whole.
proof fn lemma_filter_in_two(
    s: Seq<ScannedModel>,
    a: spec_fn(ScannedModel) -> bool,
    b: spec_fn(ScannedModel) -> bool,
    c: spec_fn(ScannedModel) -> bool,
)
    requires
        forall|i: int|
            0 <= i < s.len() ==> (a(#[trigger] s[i]) ==> b(s[i])) && (b(s[i]) ==> (a(s[i]) <==> !c(
                s[i],
            ))),
        forall|i: int, j: int|
            0 <= i < j < s.len() && a(#[trigger] s[j]) && b(#[trigger] s[i]) ==> a(s[i]),
    ensures
        s.filter(b) == s.filter(a) + s.filter(c).filter(b),
    decreases s.len(),
{
    reveal(Seq::filter);
    if s.len() == 0 {
        assert(s.filter(b) =~= s.filter(a) + s.filter(c).filter(b));
    } else {
        let t = s.drop_last();
        let x = s.last();
        assert(x == s[s.len() - 1]);
        assert forall|i: int| 0 <= i < t.len() implies (a(#[trigger] t[i]) ==> b(t[i])) && (b(t[i])
            ==> (a(t[i]) <==> !c(t[i]))) by {
            assert(t[i] == s[i]);
        }
        assert forall|i: int, j: int|
            0 <= i < j < t.len() && a(#[trigger] t[j]) && b(#[trigger] t[i]) implies a(t[i]) by {
            assert(t[i] == s[i] && t[j] == s[j]);
        }
        lemma_filter_in_two(t, a, b, c);
        let rest = t.filter(c).filter(b);
        if a(x) {
            if rest.len() > 0 {
                assert(rest.contains(rest[0]));
                t.filter(c).lemma_filter_contains_rev(b, rest[0]);
                t.lemma_filter_contains_rev(c, rest[0]);
                t.filter(c).lemma_filter_pred(b, 0);
                let k = choose|k: int| 0 <= k < t.len() && t[k] == rest[0];
                assert(s[k] == rest[0]);
                assert(t.filter(c).contains(rest[0]));
                let q = choose|q: int| 0 <= q < t.filter(c).len() && t.filter(c)[q] == rest[0];
                t.lemma_filter_pred(c, q);
                assert(false);
            }
            assert(s.filter(b) =~= s.filter(a) + s.filter(c).filter(b));
        } else if b(x) {
            assert(t.filter(c).push(x).drop_last() =~= t.filter(c));
            assert(s.filter(b) =~= s.filter(a) + s.filter(c).filter(b));
        } else {
            if c(x) {
                assert(t.filter(c).push(x).drop_last() =~= t.filter(c));
            }
            assert(s.filter(b) =~= s.filter(a) + s.filter(c).filter(b));
        }
    }
}

/// A scan picks up where the last one stopped: the memos down to a cut are those
/// down to an earlier cut, and then those that a scan past the last of these
/// finds.
pub proof fn scan_picks_up_where_it_stopped(
    rows: Seq<StoredModel>,
    account: Seq<u8>,
    tip: u32,
    mark: Pos,
    pool: ShieldedPool,
    cut: u32,
    next_cut: u32,
)
    requires
        cut <= next_cut < u32::MAX,
        sorted::<ScannedMemo>(scanned(rows, account, tip, mark, pool)).filter(
            |m: ScannedModel| is_deep(m, cut),
        ).len() > 0,
    ensures
        ({
            let all = sorted::<ScannedMemo>(scanned(rows, account, tip, mark, pool));
            let first = all.filter(|m: ScannedModel| is_deep(m, cut));
            let rest = sorted::<ScannedMemo>(
                scanned(rows, account, tip, memo_place(first.last()), pool),
            );
            all.filter(|m: ScannedModel| is_deep(m, next_cut)) == first + rest.filter(
                |m: ScannedModel| is_deep(m, next_cut),
            )
        }),
{
    let found = scanned(rows, account, tip, mark, pool);
    let all = sorted::<ScannedMemo>(found);
    let a = |m: ScannedModel| is_deep(m, cut);
    let b = |m: ScannedModel| is_deep(m, next_cut);
    let first = all.filter(a);
    let last = first.last();
    let later = memo_place(last);
    let c = |m: ScannedModel| memo_past(m, later);
    sorting_orders_everything::<ScannedMemo>(found);
    lemma_filter_sorted::<ScannedMemo>(all, a);
    all.lemma_filter_pred(a, first.len() - 1);
    // The last one lies past the mark.
    assert(first.contains(last));
    all.lemma_filter_contains_rev(a, last);
    assert(found.contains(last)) by {
        broadcast use vstd::seq_lib::group_to_multiset_ensures;

        assert(all.to_multiset().contains(last));
        assert(found.to_multiset().contains(last));
    }
    let k = choose|k: int| 0 <= k < found.len() && found[k] == last;
    lemma_scanned_past(rows, account, tip, mark, pool, k);
    lemma_later_scan(rows, account, tip, mark, later, pool);
    lemma_sorted_filter::<ScannedMemo>(found, c);
    assert forall|i: int| 0 <= i < all.len() implies (a(#[trigger] all[i]) ==> b(all[i])) && (b(
        all[i],
    ) ==> (a(all[i]) <==> !c(all[i]))) by {
        let e = all[i];
        if a(e) {
            all.lemma_filter_contains(a, i);
            let q = choose|q: int| 0 <= q < first.len() && first[q] == e;
            if q < first.len() - 1 {
                assert(!scanned_before(first[first.len() - 1], first[q]));
            } else {
                lemma_pos_trichotomy(later, later);
            }
        }
    }
    assert forall|i: int, j: int|
        0 <= i < j < all.len() && a(#[trigger] all[j]) && b(#[trigger] all[i]) implies a(all[i]) by {
        assert(!scanned_before(all[j], all[i]));
    }
    lemma_filter_in_two(all, a, b, c);
}

/// Whether a code is one under which the wallet stores the outputs of a pool.
pub open spec fn stored_in(code: i64, pool: ShieldedPool) -> bool {
    match pool {
        ShieldedPool::Sapling => code == 2,
        ShieldedPool::Orchard | ShieldedPool::Ironwood => code == 3 || code == 4,
    }
}

/// Whether an output is mined past a place on the chain, or may still be mined.
pub open spec fn lies_ahead(o: StoredModel, tip: u32, mark: Pos) -> bool {
    match o.mined_height {
        Some(h) => h > mark.height || (h == mark.height && (lex_lt(mark.txid, o.txid) || (o.txid
            == mark.txid && o.output_index > mark.output_index))),
        None => o.expiry_height is None || o.expiry_height == Some(0i64) || o.expiry_height->0
            >= tip,
    }
}

/// Every text memo that the account received in its pool past the mark is found,
/// mined or not, with its text, its place, its time and its sender.
pub proof fn a_memo_past_the_mark_is_found(
    rows: Seq<StoredModel>,
    account: Seq<u8>,
    tip: u32,
    mark: Pos,
    pool: ShieldedPool,
    k: int,
    bytes: Seq<u8>,
    text: Seq<char>,
) -> (m: ScannedModel)
    requires
        0 <= k < rows.len(),
        rows[k].account == account,
        stored_in(rows[k].pool, pool),
        lies_ahead(rows[k], tip, mark),
        memo_text(bytes) == Some(text),
        (rows[k].memo == Some(bytes) && (rows[k].sent_memo is None || rows[k].sent_memo == Some(
            bytes,
        ))) || (rows[k].memo is None && rows[k].sent_memo == Some(bytes) && rows[k].from_account
            == Some(account)),
    ensures
        sorted::<ScannedMemo>(scanned(rows, account, tip, mark, pool)).contains(m),
        m.text == text,
        m.mined_height == rows[k].mined_height,
        m.block_time == rows[k].block_time,
        m.from_uuid == rows[k].from_account,
        m.txid == rows[k].txid,
        m.output_index == rows[k].output_index,
{
    broadcast use vstd::seq_lib::group_to_multiset_ensures;

    crate::internal::pool::pools_see_their_own_outputs(rows[k].pool);
    lemma_lex_trichotomy(bytes, bytes);
    lemma_scan_finds(rows, account, tip, mark, pool, k);
    let found = scanned(rows, account, tip, mark, pool);
    let m = text_of(rows[k])->0;
    sorting_orders_everything::<ScannedMemo>(found);
    assert(found.to_multiset().count(m) > 0);
    assert(sorted::<ScannedMemo>(found).to_multiset().count(m) > 0);
    m
}

proof fn lemma_scan_finds(
    rows: Seq<StoredModel>,
    account: Seq<u8>,
    tip: u32,
    mark: Pos,
    pool: ShieldedPool,
    k: int,
)
    requires
        0 <= k < rows.len(),
        is_scanned(rows[k], account, tip, mark, pool),
        text_of(rows[k]) is Some,
    ensures
        scanned(rows, account, tip, mark, pool).contains(text_of(rows[k])->0),
    decreases rows.len(),
{
    let all = scanned(rows, account, tip, mark, pool);
    if k == rows.len() - 1 {
        assert(all[all.len() - 1] == text_of(rows[k])->0);
    } else {
        lemma_scan_finds(rows.drop_last(), account, tip, mark, pool, k);
        let front = scanned(rows.drop_last(), account, tip, mark, pool);
        let i = choose|i: int| 0 <= i < front.len() && front[i] == text_of(rows[k])->0;
        assert(all[i] == front[i]);
    }
}

/// Nothing else is found: each memo is one that the account received in its pool,
/// past the mark, in a transaction that is mined or may still be.
pub proof fn nothing_else_is_found(
    rows: Seq<StoredModel>,
    account: Seq<u8>,
    tip: u32,
    mark: Pos,
    pool: ShieldedPool,
    m: ScannedModel,
)
    requires
        scanned(rows, account, tip, mark, pool).contains(m),
    ensures
        exists|k: int|
            0 <= k < rows.len() && (#[trigger] rows[k]).account == account && stored_in(
                rows[k].pool,
                pool,
            ) && lies_ahead(rows[k], tip, mark) && rows[k].txid == m.txid && rows[k].output_index
                == m.output_index && rows[k].mined_height == m.mined_height && (rows[k].memo
                is Some || rows[k].from_account == Some(account)),
    decreases rows.len(),
{
    if rows.len() > 0 {
        let front = rows.drop_last();
        let all = scanned(rows, account, tip, mark, pool);
        let i = choose|i: int| 0 <= i < all.len() && all[i] == m;
        let before = scanned(front, account, tip, mark, pool);
        if i < before.len() {
            assert(before[i] == m);
            nothing_else_is_found(front, account, tip, mark, pool, m);
            let k = choose|k: int|
                0 <= k < front.len() && (#[trigger] front[k]).account == account && stored_in(
                    front[k].pool,
                    pool,
                ) && lies_ahead(front[k], tip, mark) && front[k].txid == m.txid
                    && front[k].output_index == m.output_index && front[k].mined_height
                    == m.mined_height && (front[k].memo is Some || front[k].from_account == Some(
                    account,
                ));
            assert(rows[k] == front[k]);
        } else {
            let o = rows[rows.len() - 1];
            crate::internal::pool::pools_see_their_own_outputs(o.pool);
            lemma_lex_trichotomy(mark.txid, o.txid);
            assert(o.account == account);
        }
    }
}

/// Memos are handed out oldest first: from the lowest block up, within a block by
/// transaction id and then by output, and those that are not mined after all that
/// are.
pub proof fn memos_come_oldest_first(s: Seq<ScannedModel>, i: int, j: int)
    requires
        0 <= i < j < s.len(),
    ensures
        ({
            let a = sorted::<ScannedMemo>(s)[i];
            let b = sorted::<ScannedMemo>(s)[j];
            &&& b.mined_height is Some ==> a.mined_height is Some && a.mined_height->0
                <= b.mined_height->0
            &&& a.mined_height == b.mined_height ==> a.txid == b.txid || lex_lt(a.txid, b.txid)
            &&& a.mined_height == b.mined_height && a.txid == b.txid ==> a.output_index
                <= b.output_index
        }),
{
    sorting_orders_everything::<ScannedMemo>(s);
    let t = sorted::<ScannedMemo>(s);
    assert(!ScannedMemo::precedes(t[j], t[i]));
    lemma_lex_trichotomy(t[i].txid, t[j].txid);
}

/// Where the wallet has a memo as it was received and as it was sent, the greater of
/// the two is read; where it has one of them, that one.
pub proof fn the_greater_memo_is_read(a: Seq<u8>, b: Seq<u8>)
    ensures
        lex_lt(a, b) ==> greater_memo(Some(a), Some(b)) == Some(b),
        lex_lt(b, a) ==> greater_memo(Some(a), Some(b)) == Some(a),
        greater_memo(Some(a), Some(a)) == Some(a),
        greater_memo(Some(a), None) == Some(a),
        greater_memo(None, Some(b)) == Some(b),
        greater_memo(None, None) is None,
{
    lemma_lex_trichotomy(a, b);
}

} // verus!
