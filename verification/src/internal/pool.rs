//! The shielded pools of a wallet and the queries over its tables.

use crate::text::{decimal, push_decimal};
use vstd::prelude::*;
use vstd::string::*;

verus! {

/// A shielded pool.
#[derive(Clone, Copy, Debug, PartialEq, Eq, Structural)]
pub enum ShieldedPool {
    Sapling,
    Orchard,
    Ironwood,
}

/// The codes under which a wallet stores the outputs of a database's pool.
/// Orchard and Ironwood share one receiver, so a database in either sees both.
pub open spec fn output_codes(pool: ShieldedPool) -> Seq<i64> {
    match pool {
        ShieldedPool::Sapling => seq![2i64],
        ShieldedPool::Orchard | ShieldedPool::Ironwood => seq![3i64, 4i64],
    }
}

/// Whether a code is one of a shielded pool.
pub open spec fn is_pool_code(code: i64) -> bool {
    code == 2 || code == 3 || code == 4
}

/// The codes under which a wallet stores the outputs of a database's pool.
pub fn pool_output_codes(pool: ShieldedPool) -> (r: Vec<i64>)
    ensures
        r@ == output_codes(pool),
{
    let mut r: Vec<i64> = Vec::new();
    match pool {
        ShieldedPool::Sapling => {
            r.push(2);
        },
        ShieldedPool::Orchard | ShieldedPool::Ironwood => {
            r.push(3);
            r.push(4);
        },
    }
    assert(r@ =~= output_codes(pool));
    r
}

/// Whether an output with this code is one of a database's pool.
pub fn is_of_pool(code: i64, pool: ShieldedPool) -> (r: bool)
    ensures
        r == output_codes(pool).contains(code),
{
    proof {
        let c = output_codes(pool);
        assert(c[0] == 2 || c[0] == 3);
        assert(c.len() > 1 ==> c[1] == 4);
    }
    match pool {
        ShieldedPool::Sapling => code == 2,
        ShieldedPool::Orchard | ShieldedPool::Ironwood => code == 3 || code == 4,
    }
}

/// The note table of a pool code, and the name of its index column.
pub open spec fn note_table(code: i64) -> (Seq<char>, Seq<char>) {
    if code == 2 {
        ("sapling_received_notes"@, "output_index"@)
    } else if code == 3 {
        ("orchard_received_notes"@, "action_index"@)
    } else {
        ("ironwood_received_notes"@, "action_index"@)
    }
}

/// The note table of a pool code, and the name of its index column.
pub fn pool_table(code: i64) -> (r: (&'static str, &'static str))
    requires
        is_pool_code(code),
    ensures
        (r.0@, r.1@) == note_table(code),
{
    if code == 2 {
        ("sapling_received_notes", "output_index")
    } else if code == 3 {
        ("orchard_received_notes", "action_index")
    } else {
        ("ironwood_received_notes", "action_index")
    }
}

/// The table of spent notes of a pool code.
pub open spec fn spends_table(code: i64) -> Seq<char> {
    if code == 2 {
        "sapling_received_note_spends"@
    } else if code == 3 {
        "orchard_received_note_spends"@
    } else {
        "ironwood_received_note_spends"@
    }
}

/// The table of spent notes of a pool code.
pub fn pool_spends_table(code: i64) -> (r: &'static str)
    requires
        is_pool_code(code),
    ensures
        r@ == spends_table(code),
{
    if code == 2 {
        "sapling_received_note_spends"
    } else if code == 3 {
        "orchard_received_note_spends"
    } else {
        "ironwood_received_note_spends"
    }
}

/// The received outputs of one pool code.
pub open spec fn received_select(code: i64) -> Seq<char> {
    "SELECT transaction_id, "@ + note_table(code).1
        + " AS output_index, account_id, value, memo, "@ + decimal(code as nat) + " AS pool FROM "@
        + note_table(code).0
}

/// The spent outputs of one pool code.
pub open spec fn spent_select(code: i64) -> Seq<char> {
    "SELECT transaction_id FROM "@ + spends_table(code)
}

/// The union of one query for each code.
pub open spec fn union_all(codes: Seq<i64>, select: spec_fn(i64) -> Seq<char>) -> Seq<char>
    decreases codes.len(),
{
    if codes.len() == 0 {
        Seq::empty()
    } else if codes.len() == 1 {
        select(codes[0])
    } else {
        union_all(codes.drop_last(), select) + " UNION ALL "@ + select(codes.last())
    }
}

/// The received outputs of a database's pool.
pub open spec fn received_outputs(pool: ShieldedPool) -> Seq<char> {
    union_all(output_codes(pool), |code: i64| received_select(code))
}

/// The spent outputs of a database's pool.
pub open spec fn spent_outputs(pool: ShieldedPool) -> Seq<char> {
    union_all(output_codes(pool), |code: i64| spent_select(code))
}

/// The subquery of a database's received outputs. Its columns are
/// `transaction_id`, `output_index`, `account_id`, `value`, `memo` and `pool`.
pub fn received_outputs_sql(pool: ShieldedPool) -> (r: String)
    ensures
        r@ == received_outputs(pool),
{
    let codes = pool_output_codes(pool);
    let ghost select = |code: i64| received_select(code);
    let mut r = String::new();
    let mut i: usize = 0;
    while i < codes.len()
        invariant
            i <= codes.len(),
            codes@ == output_codes(pool),
            select == (|code: i64| received_select(code)),
            r@ == union_all(codes@.take(i as int), select),
        decreases codes.len() - i,
    {
        if i > 0 {
            r.append(" UNION ALL ");
        }
        let code: i64 = codes[i];
        let ghost start = r@;
        assert(is_pool_code(code));
        let (table, index) = pool_table(code);
        r.append("SELECT transaction_id, ");
        r.append(index);
        r.append(" AS output_index, account_id, value, memo, ");
        push_decimal(&mut r, code as u64);
        r.append(" AS pool FROM ");
        r.append(table);
        proof {
            assert(r@ =~= start + received_select(code));
            assert(codes@.take(i + 1).drop_last() =~= codes@.take(i as int));
            assert(codes@.take(i + 1).last() == code);
            if i == 0 {
                assert(r@ =~= select(code));
            }
        }
        i += 1;
    }
    assert(codes@.take(i as int) =~= codes@);
    r
}

/// The subquery of the transactions that spent a note of this wallet.
pub fn spent_outputs_sql(pool: ShieldedPool) -> (r: String)
    ensures
        r@ == spent_outputs(pool),
{
    let codes = pool_output_codes(pool);
    let ghost select = |code: i64| spent_select(code);
    let mut r = String::new();
    let mut i: usize = 0;
    while i < codes.len()
        invariant
            i <= codes.len(),
            codes@ == output_codes(pool),
            select == (|code: i64| spent_select(code)),
            r@ == union_all(codes@.take(i as int), select),
        decreases codes.len() - i,
    {
        if i > 0 {
            r.append(" UNION ALL ");
        }
        let code: i64 = codes[i];
        let ghost start = r@;
        assert(is_pool_code(code));
        r.append("SELECT transaction_id FROM ");
        r.append(pool_spends_table(code));
        proof {
            assert(r@ =~= start + spent_select(code));
            assert(codes@.take(i + 1).drop_last() =~= codes@.take(i as int));
            assert(codes@.take(i + 1).last() == code);
            if i == 0 {
                assert(r@ =~= select(code));
            }
        }
        i += 1;
    }
    assert(codes@.take(i as int) =~= codes@);
    r
}

/// The query for the memos past a watermark, up to the received outputs.
pub const SCAN_HEAD: &'static str = "SELECT COALESCE(MAX(n.memo, sn.memo), n.memo, sn.memo) AS memo,
                t.mined_height AS mined_height,
                b.time AS block_time,
                fa.uuid AS from_account_uuid,
                t.txid AS txid,
                n.output_index AS output_index
         FROM (";

/// The query for the memos past a watermark, from the received outputs on.
pub const SCAN_TAIL: &'static str = ") n
         JOIN accounts acct ON acct.id = n.account_id
         JOIN transactions t ON t.id_tx = n.transaction_id
         LEFT JOIN blocks b ON b.height = t.mined_height
         LEFT JOIN sent_notes sn
                ON sn.transaction_id = n.transaction_id
               AND sn.output_pool = n.pool
               AND sn.output_index = n.output_index
         LEFT JOIN accounts fa ON fa.id = sn.from_account_id
         WHERE acct.uuid = :account_uuid
           AND (n.memo IS NOT NULL OR fa.uuid = :account_uuid)
           AND (t.mined_height IS NOT NULL
                OR t.expiry_height IS NULL
                OR t.expiry_height = 0
                OR t.expiry_height >= :tip)
           AND (t.mined_height IS NULL
                OR t.mined_height > :wm_height
                OR (t.mined_height = :wm_height
                    AND (t.txid > :wm_txid
                         OR (t.txid = :wm_txid
                             AND n.output_index > :wm_output_index))))
         ORDER BY t.mined_height ASC NULLS LAST, t.txid ASC, n.output_index ASC";

/// The query for the memos past a watermark, in chain order, unmined ones last.
pub fn scan_memos_sql(pool: ShieldedPool) -> (r: String)
    ensures
        r@ == SCAN_HEAD@ + received_outputs(pool) + SCAN_TAIL@,
{
    let mut r = String::new();
    r.append(SCAN_HEAD);
    r.append(received_outputs_sql(pool).as_str());
    r.append(SCAN_TAIL);
    assert(r@ =~= SCAN_HEAD@ + received_outputs(pool) + SCAN_TAIL@);
    r
}

/// An output of the wallet, as far as its memo's arrival goes.
#[derive(Clone, Debug, PartialEq, Eq)]
pub struct OutputRow {
    /// The account that received the output.
    pub account: Vec<u8>,
    /// The pool code of the output.
    pub pool: i64,
    pub mined_height: Option<i64>,
    /// Whether the whole transaction has been fetched, and with it the memo.
    pub enhanced: bool,
}

/// [`OutputRow`] as mathematics.
pub struct OutputModel {
    pub account: Seq<u8>,
    pub pool: i64,
    pub mined_height: Option<i64>,
    pub enhanced: bool,
}

impl View for OutputRow {
    type V = OutputModel;

    open spec fn view(&self) -> OutputModel {
        OutputModel {
            account: self.account@,
            pool: self.pool,
            mined_height: self.mined_height,
            enhanced: self.enhanced,
        }
    }
}

/// A mined output of the account, in its pool, whose memo has not arrived.
pub open spec fn is_waiting(o: OutputModel, account: Seq<u8>, pool: ShieldedPool) -> bool {
    &&& o.account == account
    &&& output_codes(pool).contains(o.pool)
    &&& o.mined_height is Some
    &&& !o.enhanced
}

/// The lowest height of the outputs that wait for their memos.
pub open spec fn waiting_min(rows: Seq<OutputModel>, account: Seq<u8>, pool: ShieldedPool) -> Option<
    i64,
>
    decreases rows.len(),
{
    if rows.len() == 0 {
        None
    } else {
        let before = waiting_min(rows.drop_last(), account, pool);
        if is_waiting(rows.last(), account, pool) {
            let h = rows.last().mined_height->0;
            match before {
                Some(m) => Some(
                    if h < m {
                        h
                    } else {
                        m
                    },
                ),
                None => Some(h),
            }
        } else {
            before
        }
    }
}

/// A stored height as a block height: none unless it is positive, the largest
/// height where it does not fit.
pub open spec fn block_height(h: Option<i64>) -> Option<u32> {
    match h {
        Some(v) => if v <= 0 {
            None
        } else if v <= u32::MAX {
            Some(v as u32)
        } else {
            Some(u32::MAX)
        },
        None => None,
    }
}

/// A stored height (or time) as a number: none unless it is positive.
pub fn positive_u32(h: Option<i64>) -> (r: Option<u32>)
    ensures
        r == block_height(h),
{
    match h {
        Some(v) => if v <= 0 {
            None
        } else if v <= u32::MAX as i64 {
            Some(v as u32)
        } else {
            Some(u32::MAX)
        },
        None => None,
    }
}

/// The lowest height at which the account holds an output in its pool whose memo
/// has not arrived.
pub fn unenhanced_floor(rows: &Vec<OutputRow>, account: &[u8], pool: ShieldedPool) -> (r: Option<
    u32,
>)
    ensures
        r == block_height(waiting_min(crate::sort::views(rows@), account@, pool)),
{
    let ghost all = crate::sort::views(rows@);
    let mut min: Option<i64> = None;
    let mut i: usize = 0;
    while i < rows.len()
        invariant
            i <= rows.len(),
            all == crate::sort::views(rows@),
            min == waiting_min(all.take(i as int), account@, pool),
        decreases rows.len() - i,
    {
        assert(all.take(i + 1).drop_last() =~= all.take(i as int));
        assert(all.take(i + 1).last() == rows@[i as int]@);
        let row = &rows[i];
        if is_of_pool(row.pool, pool) && !row.enhanced && crate::lex::bytes_equal(row.account.as_slice(), account) {
            match row.mined_height {
                None => {},
                Some(h) => {
                    min = match min {
                        Some(m) => Some(
                            if h < m {
                                h
                            } else {
                                m
                            },
                        ),
                        None => Some(h),
                    };
                },
            }
        }
        i += 1;
    }
    assert(all.take(i as int) =~= all);
    positive_u32(min)
}

/// Orchard and Ironwood share one receiver, so a database in either sees the
/// outputs of both; one in Sapling sees those of Sapling alone.
pub proof fn pools_see_their_own_outputs(code: i64)
    ensures
        output_codes(ShieldedPool::Sapling).contains(code) <==> code == 2,
        output_codes(ShieldedPool::Orchard).contains(code) <==> code == 3 || code == 4,
        output_codes(ShieldedPool::Ironwood) == output_codes(ShieldedPool::Orchard),
{
    let s = output_codes(ShieldedPool::Sapling);
    let o = output_codes(ShieldedPool::Orchard);
    assert(s[0] == 2);
    assert(o[0] == 3 && o[1] == 4);
}

/// A stored height stands for the block of that number, and for none where it is
/// not positive.
pub proof fn stored_heights_are_block_heights(h: i64)
    ensures
        0 < h <= u32::MAX ==> block_height(Some(h)) == Some(h as u32),
        h <= 0 ==> block_height(Some(h)) is None,
        h > u32::MAX ==> block_height(Some(h)) == Some(u32::MAX),
        block_height(None) is None,
{
}

/// The floor is the lowest height at which a memo is missing: every mined output of
/// the account in the pool whose transaction was not fetched lies at or above it,
/// one of them lies on it, and there is no floor where there is none.
pub proof fn the_floor_is_the_lowest_missing_memo(
    rows: Seq<OutputModel>,
    account: Seq<u8>,
    pool: ShieldedPool,
)
    ensures
        forall|i: int|
            0 <= i < rows.len() && (#[trigger] rows[i]).account == account && output_codes(
                pool,
            ).contains(rows[i].pool) && rows[i].mined_height is Some && !rows[i].enhanced
                ==> waiting_min(rows, account, pool) is Some && waiting_min(rows, account, pool)->0
                <= rows[i].mined_height->0,
        waiting_min(rows, account, pool) matches Some(m) ==> exists|i: int|
            0 <= i < rows.len() && (#[trigger] rows[i]).account == account && output_codes(
                pool,
            ).contains(rows[i].pool) && rows[i].mined_height == Some(m) && !rows[i].enhanced,
    decreases rows.len(),
{
    if rows.len() > 0 {
        let front = rows.drop_last();
        the_floor_is_the_lowest_missing_memo(front, account, pool);
        assert forall|i: int|
            0 <= i < rows.len() && (#[trigger] rows[i]).account == account && output_codes(
                pool,
            ).contains(rows[i].pool) && rows[i].mined_height is Some && !rows[i].enhanced implies
            waiting_min(rows, account, pool) is Some && waiting_min(rows, account, pool)->0
                <= rows[i].mined_height->0 by {
            if i < front.len() {
                assert(front[i] == rows[i]);
            }
        }
        if waiting_min(rows, account, pool) is Some {
            let m = waiting_min(rows, account, pool)->0;
            if is_waiting(rows.last(), account, pool) && rows.last().mined_height == Some(m) {
                assert(rows[rows.len() - 1].account == account);
            } else {
                let i = choose|i: int|
                    0 <= i < front.len() && (#[trigger] front[i]).account == account
                        && output_codes(pool).contains(front[i].pool) && front[i].mined_height
                        == Some(m) && !front[i].enhanced;
                assert(rows[i] == front[i]);
            }
        }
    }
}

/// A database in Ironwood asks the wallet what one in Orchard asks.
pub proof fn ironwood_asks_what_orchard_asks()
    ensures
        received_outputs(ShieldedPool::Ironwood) == received_outputs(ShieldedPool::Orchard),
        spent_outputs(ShieldedPool::Ironwood) == spent_outputs(ShieldedPool::Orchard),
{
}

} // verus!
