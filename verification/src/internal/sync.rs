//! When a read needs a scan, and when the chain's tip can be relied on.

use crate::fleet::WALLET;
use crate::internal::history::list_contains;
use crate::internal::pending::clock_unix;
use crate::internal::pool::ShieldedPool;
use crate::internal::scan::{
    is_ours, is_scanned, scanned, text_of, ScannedModel, StoredModel, StoredOutput,
};
use crate::internal::snapshot::{genesis_pos, Pos};
use crate::internal::state::{confirmations, minus};
use crate::internal::txid::{txid_display, txid_text};
use crate::network::Network;
use crate::sort::views;
use crate::text::{decimal, push_decimal, push_text, texts};
use vstd::prelude::*;
use vstd::string::*;

verus! {

/// How far a wallet may lie behind the tip and still count as caught up.
pub const NEAR_TIP_TOLERANCE: u32 = 1;

/// How old a tip may be (seconds) and still be relied on.
pub const TIP_MAX_AGE_SECS: u64 = 300;

/// How far below the tip the birthday of a new wallet is put.
pub const BIRTHDAY_SAFETY_BUFFER: u32 = 10;

/// How far behind the tip a wallet may lie so that a read at a confirmation depth
/// is not changed by a scan.
pub open spec fn near_enough(min_confs: u32) -> int {
    minus(min_confs as int, 1)
}

/// How far behind the tip a wallet may lie so that a read at a confirmation depth
/// is not changed by a scan.
pub fn read_tip_tolerance(min_confs: u32) -> (r: u32)
    ensures
        r == near_enough(min_confs),
{
    min_confs.saturating_sub(1)
}

/// The tolerance of a read at a confirmation depth. Without confirmations the
/// read wants what is not mined yet, and a scan is never skipped.
pub fn read_sync_tolerance(min_confs: u32) -> (r: Option<u32>)
    ensures
        r is None <==> min_confs == 0,
        r matches Some(t) ==> t == near_enough(min_confs),
{
    if min_confs == 0 {
        None
    } else {
        Some(read_tip_tolerance(min_confs))
    }
}

/// A skipped scan cannot hide anything: a write in the blocks that were not
/// scanned lies too shallow to be shown at that depth.
pub proof fn skipped_scan_hides_nothing(
    min_confs: u32,
    wallet_tip: u32,
    rpc_tip: u32,
    height: u32,
)
    requires
        min_confs > 0,
        minus(rpc_tip as int, wallet_tip as int) <= min_confs - 1,
        wallet_tip < height <= rpc_tip,
    ensures
        confirmations(Some(height), rpc_tip) < min_confs,
{
}

/// Whether a block time is recent enough at a reading of the clock. A clock
/// before the epoch cannot tell, so the tip is not relied on; a block from the
/// future is recent.
pub open spec fn is_recent(reading: Option<u64>, block_time: u32) -> bool {
    reading matches Some(now) && block_time + TIP_MAX_AGE_SECS >= now
}

/// Whether a block time is recent enough at a reading of the clock.
pub fn fresh_at(reading: Option<u64>, block_time: u32) -> (r: bool)
    ensures
        r == is_recent(reading, block_time),
{
    match reading {
        Some(now) => (block_time as u64).saturating_add(TIP_MAX_AGE_SECS) >= now,
        None => false,
    }
}

/// Whether a block time is recent enough, by the clock as it stands. Which reading
/// decides is not known before.
pub fn tip_time_is_fresh(block_time: u32) -> (r: bool)
    ensures
        exists|reading: Option<u64>| r == #[trigger] is_recent(reading, block_time),
{
    let reading: Option<u64> = clock_unix();
    let r: bool = fresh_at(reading, block_time);
    assert(r == is_recent(reading, block_time));
    r
}

/// Why a birthday cannot be pinned.
#[derive(Clone, Debug, PartialEq, Eq)]
pub enum TipError {
    /// The tip is too old.
    StaleTip,
    Other(String),
}

/// What is said of a birthday that cannot be pinned.
pub open spec fn tip_error_text(e: TipError) -> Seq<char> {
    match e {
        TipError::StaleTip => "can't confirm a current chain tip (latest block is over "@ + decimal(
            TIP_MAX_AGE_SECS as nat,
        ) + "s old), lightwalletd is stale or unreachable; check your connection and retry"@,
        TipError::Other(t) => t@,
    }
}

impl TipError {
    /// What is said of it.
    pub fn message(&self) -> (r: String)
        ensures
            r@ == tip_error_text(*self),
    {
        let mut r = String::new();
        match self {
            TipError::StaleTip => {
                r.append("can't confirm a current chain tip (latest block is over ");
                push_decimal(&mut r, TIP_MAX_AGE_SECS);
                r.append(
                    "s old), lightwalletd is stale or unreachable; check your connection and retry",
                );
            },
            TipError::Other(t) => {
                r.append(t.as_str());
            },
        }
        assert(r@ =~= tip_error_text(*self));
        r
    }
}

/// The tip of the chain as a server reports it.
#[derive(Clone, Copy, Debug, PartialEq, Eq, Structural)]
pub struct TipStatus {
    pub height: u32,
    /// The time of its block.
    pub time: u32,
}

/// Whether a tip can be relied on, by a reading of the clock. On a local chain the
/// times of the blocks mean nothing, and the tip is always current.
pub open spec fn is_current(network: Network, tip: TipStatus, reading: Option<u64>) -> bool {
    network is Regtest || is_recent(reading, tip.time)
}

/// The height of a tip that can be relied on. `tip` is what the server reports, or
/// why it could not be asked.
pub fn fresh_chain_tip(network: Network, tip: Result<TipStatus, String>, reading: Option<u64>) -> (r:
    Result<u32, TipError>)
    ensures
        match tip {
            Err(why) => r matches Err(TipError::Other(t)) && t@ == why@,
            Ok(t) => if is_current(network, t, reading) {
                r == Ok::<u32, TipError>(t.height)
            } else {
                r == Err::<u32, TipError>(TipError::StaleTip)
            },
        },
{
    match tip {
        Err(why) => Err(TipError::Other(why)),
        Ok(t) => {
            if matches!(network, Network::Regtest) || fresh_at(reading, t.time) {
                Ok(t.height)
            } else {
                Err(TipError::StaleTip)
            }
        },
    }
}

/// Where a wallet begins: at its birthday, with everything up to the anchor to be
/// recovered.
#[derive(Clone, Copy, Debug, PartialEq, Eq, Structural)]
pub struct BirthdayPlan {
    pub height: u32,
    pub anchor: u32,
}

/// The birthday of a new wallet under a tip.
pub open spec fn birthday_below(tip: u32) -> int {
    minus(tip as int, BIRTHDAY_SAFETY_BUFFER as int)
}

/// Where a new wallet begins: a little below the tip.
pub fn near_tip_birthday(network: Network, tip: Result<TipStatus, String>, reading: Option<u64>) -> (r:
    Result<BirthdayPlan, TipError>)
    ensures
        match tip {
            Err(why) => r matches Err(TipError::Other(t)) && t@ == why@,
            Ok(t) => if is_current(network, t, reading) {
                r matches Ok(p) && p.anchor == t.height && p.height == birthday_below(t.height)
            } else {
                r == Err::<BirthdayPlan, TipError>(TipError::StaleTip)
            },
        },
{
    match fresh_chain_tip(network, tip, reading) {
        Ok(anchor) => Ok(
            BirthdayPlan { height: anchor.saturating_sub(BIRTHDAY_SAFETY_BUFFER), anchor },
        ),
        Err(e) => Err(e),
    }
}

/// Where a wallet with a known birthday begins: at that height and no other.
pub fn pinned_birthday(
    network: Network,
    birthday_height: u32,
    tip: Result<TipStatus, String>,
    reading: Option<u64>,
) -> (r: Result<BirthdayPlan, TipError>)
    ensures
        match tip {
            Err(why) => r matches Err(TipError::Other(t)) && t@ == why@,
            Ok(t) => if is_current(network, t, reading) {
                r == Ok::<BirthdayPlan, TipError>(
                    (BirthdayPlan { height: birthday_height, anchor: t.height }),
                )
            } else {
                r == Err::<BirthdayPlan, TipError>(TipError::StaleTip)
            },
        },
{
    match fresh_chain_tip(network, tip, reading) {
        Ok(anchor) => Ok(BirthdayPlan { height: birthday_height, anchor }),
        Err(e) => Err(e),
    }
}

/// Where a wallet begins that is rebuilt on request: at its known birthday, even
/// if the tip looks old.
pub fn pinned_birthday_unchecked(birthday_height: u32, tip: Result<TipStatus, String>) -> (r: Result<
    BirthdayPlan,
    TipError,
>)
    ensures
        match tip {
            Err(why) => r matches Err(TipError::Other(t)) && t@ == why@,
            Ok(t) => r == Ok::<BirthdayPlan, TipError>(
                (BirthdayPlan { height: birthday_height, anchor: t.height }),
            ),
        },
{
    match tip {
        Ok(t) => Ok(BirthdayPlan { height: birthday_height, anchor: t.height }),
        Err(why) => Err(TipError::Other(why)),
    }
}

/// The height that a server reports, which must be a block height.
pub fn reported_height(height: u64) -> (r: Result<u32, String>)
    ensures
        r is Ok <==> height <= u32::MAX,
        r matches Ok(h) ==> h == height,
        r matches Err(e) ==> e@ == "chain tip height out of range"@,
{
    if height <= u32::MAX as u64 {
        Ok(height as u32)
    } else {
        Err("chain tip height out of range".to_owned())
    }
}

/// Whether a wallet has scanned up to the tip, without gaps; the newest block may
/// still be missing.
pub open spec fn is_caught_up(wallet_tip: Option<u32>, gaps: bool, rpc_tip: u32) -> bool {
    !gaps && (wallet_tip matches Some(w) && minus(rpc_tip as int, w as int) <= NEAR_TIP_TOLERANCE)
}

/// Whether a wallet has scanned up to the tip, without gaps.
pub fn wallet_synced_to_tip(wallet_tip: Option<u32>, gaps: bool, rpc_tip: u32) -> (r: bool)
    ensures
        r == is_caught_up(wallet_tip, gaps, rpc_tip),
{
    match wallet_tip {
        Some(w) => !gaps && rpc_tip.saturating_sub(w) <= NEAR_TIP_TOLERANCE,
        None => false,
    }
}

/// What is known of a wallet before a read.
#[derive(Clone, Debug, PartialEq, Eq)]
pub struct WalletReach {
    /// Whether the shared scan has still to take the wallet in.
    pub importing: bool,
    /// How far it has scanned, if at all.
    pub tip: Option<u32>,
    /// Whether it has left gaps.
    pub gaps: bool,
}

/// Whether a wallet must be asked for no tip: there is nothing to compare it
/// with.
pub open spec fn must_scan(w: WalletReach) -> bool {
    w.importing || w.tip is None || w.gaps
}

/// Whether a scan is needed before the tip of the chain is even asked for.
pub fn needs_scan(w: &WalletReach) -> (r: bool)
    ensures
        r == must_scan(*w),
{
    w.importing || w.tip.is_none() || w.gaps
}

/// The height as of which a read holds that may skip the scan; none where it may not.
pub open spec fn skipped_to(w: WalletReach, rpc_tip: u32, tolerance: u32) -> Option<u32> {
    if !must_scan(w) && minus(rpc_tip as int, w.tip->0 as int) <= tolerance {
        w.tip
    } else {
        None
    }
}

/// Whether a read may skip the scan, and then as of which height it holds. A gap
/// can hide a write at any depth, so only a wallet without one may skip.
pub fn read_sync_skippable(w: &WalletReach, rpc_tip: u32, tolerance: u32) -> (r: Option<u32>)
    ensures
        r == skipped_to(*w, rpc_tip, tolerance),
{
    if needs_scan(w) {
        return None;
    }
    match w.tip {
        Some(t) => if rpc_tip.saturating_sub(t) <= tolerance {
            Some(t)
        } else {
            None
        },
        None => None,
    }
}

/// How far a read has come.
#[derive(Clone, Debug, PartialEq, Eq)]
pub enum ReadState {
    /// It begins, with a tolerance unless it must scan.
    Begin(Option<u32>),
    /// The wallet is being measured.
    Measuring(u32),
    /// The tip is being asked for.
    Asking(u32, WalletReach),
    /// The wallet is scanning.
    Scanning,
    /// It is done, as of a height.
    Done(u32),
}

/// What a read learns.
#[derive(Clone, Debug, PartialEq, Eq)]
pub enum ReadEvent {
    Started,
    /// How far the wallet reaches.
    Measured(WalletReach),
    /// The height of the chain's tip.
    TipIs(u32),
    /// The height up to which the wallet has scanned.
    Scanned(u32),
}

/// What a read asks for next.
#[derive(Clone, Copy, Debug, PartialEq, Eq, Structural)]
pub enum ReadAction {
    Measure,
    AskTip,
    Scan,
    /// Forget the broadcast writes that the wallet has seen; the read holds as of
    /// this height.
    PruneAndFinish(u32),
}

/// The next step of a read: a scan is skipped where the wallet is near enough to
/// the tip. Whatever comes out of turn leads to a scan, which is always right.
pub open spec fn read_step(state: ReadState, event: ReadEvent) -> (ReadState, ReadAction) {
    match (state, event) {
        (ReadState::Begin(Some(tolerance)), ReadEvent::Started) => (
            ReadState::Measuring(tolerance),
            ReadAction::Measure,
        ),
        (ReadState::Measuring(tolerance), ReadEvent::Measured(w)) => if must_scan(w) {
            (ReadState::Scanning, ReadAction::Scan)
        } else {
            (ReadState::Asking(tolerance, w), ReadAction::AskTip)
        },
        (ReadState::Asking(tolerance, w), ReadEvent::TipIs(tip)) => if !must_scan(w) && minus(
            tip as int,
            w.tip->0 as int,
        ) <= tolerance {
            (ReadState::Done(w.tip->0), ReadAction::PruneAndFinish(w.tip->0))
        } else {
            (ReadState::Scanning, ReadAction::Scan)
        },
        (ReadState::Scanning, ReadEvent::Scanned(height)) => (
            ReadState::Done(height),
            ReadAction::PruneAndFinish(height),
        ),
        (ReadState::Done(height), _) => (
            ReadState::Done(height),
            ReadAction::PruneAndFinish(height),
        ),
        _ => (ReadState::Scanning, ReadAction::Scan),
    }
}

/// The next step of a read.
pub fn read_sync(state: ReadState, event: ReadEvent) -> (r: (ReadState, ReadAction))
    ensures
        r == read_step(state, event),
{
    match (state, event) {
        (ReadState::Begin(Some(tolerance)), ReadEvent::Started) => (
            ReadState::Measuring(tolerance),
            ReadAction::Measure,
        ),
        (ReadState::Measuring(tolerance), ReadEvent::Measured(w)) => {
            if needs_scan(&w) {
                (ReadState::Scanning, ReadAction::Scan)
            } else {
                (ReadState::Asking(tolerance, w), ReadAction::AskTip)
            }
        },
        (ReadState::Asking(tolerance, w), ReadEvent::TipIs(tip)) => {
            match read_sync_skippable(&w, tip, tolerance) {
                Some(height) => (ReadState::Done(height), ReadAction::PruneAndFinish(height)),
                None => (ReadState::Scanning, ReadAction::Scan),
            }
        },
        (ReadState::Scanning, ReadEvent::Scanned(height)) => (
            ReadState::Done(height),
            ReadAction::PruneAndFinish(height),
        ),
        (ReadState::Done(height), _) => (
            ReadState::Done(height),
            ReadAction::PruneAndFinish(height),
        ),
        _ => (ReadState::Scanning, ReadAction::Scan),
    }
}

/// How many answers a read can still wait for.
pub open spec fn answers_left(state: ReadState) -> nat {
    match state {
        ReadState::Begin(_) => 4,
        ReadState::Measuring(_) => 3,
        ReadState::Asking(_, _) => 2,
        ReadState::Scanning => 1,
        ReadState::Done(_) => 0,
    }
}

/// Whether an event is the answer that a read waits for.
pub open spec fn is_answer(state: ReadState, event: ReadEvent) -> bool {
    match state {
        ReadState::Begin(_) => event is Started,
        ReadState::Measuring(_) => event is Measured,
        ReadState::Asking(_, _) => event is TipIs,
        ReadState::Scanning => event is Scanned,
        ReadState::Done(_) => true,
    }
}

/// Every read ends: each answer brings it nearer to its end. One that ends without
/// a scan began with a tolerance, and its wallet has no gap and lies within that
/// tolerance of the tip.
pub proof fn every_read_ends(state: ReadState, event: ReadEvent)
    requires
        is_answer(state, event),
    ensures
        state is Done || answers_left(read_step(state, event).0) < answers_left(state),
        read_step(state, event).1 is PruneAndFinish <==> read_step(state, event).0 is Done,
        read_step(state, event).0 is Done && !(state is Done) ==> state is Scanning || (match (
            state,
            event,
        ) {
            (ReadState::Asking(tolerance, w), ReadEvent::TipIs(tip)) => !w.gaps && !w.importing
                && w.tip is Some && minus(tip as int, w.tip->0 as int) <= tolerance,
            _ => false,
        }),
{
}

/// Which wallet engine serves a database.
#[derive(Clone, Copy, Debug, PartialEq, Eq, Structural)]
pub enum EngineKind {
    Own,
    Fleet,
}

/// The name that a database's wallet has on its engine.
pub fn engine_wallet_name<'a>(kind: EngineKind, db_name: &'a str) -> (r: &'a str)
    ensures
        r@ == (match kind {
            EngineKind::Own => WALLET@,
            EngineKind::Fleet => db_name@,
        }),
{
    match kind {
        EngineKind::Own => WALLET,
        EngineKind::Fleet => db_name,
    }
}

/// What is shown while a scan runs: how far it is, once that is known.
pub fn sync_label(scanned: u32, tip: Option<u32>) -> (r: String)
    ensures
        r@ == (if tip matches Some(t) && scanned > 0 && t > 0 {
            "Syncing... (block "@ + decimal(scanned as nat) + " of "@ + decimal(tip->0 as nat)
                + ")"@
        } else {
            "Syncing..."@
        }),
{
    match tip {
        Some(t) => {
            if scanned > 0 && t > 0 {
                let mut r = String::new();
                r.append("Syncing... (block ");
                push_decimal(&mut r, scanned as u64);
                r.append(" of ");
                push_decimal(&mut r, t as u64);
                r.append(")");
                assert(r@ =~= "Syncing... (block "@ + decimal(scanned as nat) + " of "@ + decimal(
                    t as nat,
                ) + ")"@);
                return r;
            }
        },
        None => {},
    }
    "Syncing...".to_owned()
}

/// Whether a reader can see an output: it is mined, and its memo is known, from the
/// output or from the record of its sending.
pub open spec fn is_readable(o: StoredModel) -> bool {
    o.mined_height is Some && (o.memo is Some || o.sent_memo is Some) && o.txid.len() == 32
}

/// Whether an output of this transaction is readable.
pub open spec fn is_seen(s: Seq<StoredModel>, txid: Seq<char>) -> bool {
    exists|i: int|
        0 <= i < s.len() && is_readable(#[trigger] s[i]) && txid_text(s[i].txid) == txid
}

/// The transactions that a reader can see, each once. What is mined but has no
/// memo yet is not among them.
pub fn mined_with_memo_txids(rows: &Vec<StoredOutput>) -> (r: Vec<String>)
    ensures
        texts(r@).no_duplicates(),
        forall|t: Seq<char>| #[trigger] texts(r@).contains(t) <==> is_seen(views(rows@), t),
{
    let ghost all = views(rows@);
    let mut r: Vec<String> = Vec::new();
    let mut i: usize = 0;
    assert(texts(r@) =~= Seq::<Seq<char>>::empty());
    while i < rows.len()
        invariant
            i <= rows.len(),
            all == views(rows@),
            texts(r@).no_duplicates(),
            forall|t: Seq<char>|
                #[trigger] texts(r@).contains(t) <==> is_seen(all.take(i as int), t),
        decreases rows.len() - i,
    {
        let ghost before = texts(r@);
        let ghost a = all.take(i as int);
        let ghost b = all.take(i + 1);
        let ghost n = all[i as int];
        assert(n == rows@[i as int]@);
        proof {
            assert forall|t: Seq<char>| #[trigger]
                is_seen(b, t) <==> is_seen(a, t) || (is_readable(n) && txid_text(n.txid) == t) by {
                if is_seen(a, t) {
                    let k = choose|k: int|
                        0 <= k < a.len() && is_readable(#[trigger] a[k]) && txid_text(a[k].txid)
                            == t;
                    assert(b[k] == a[k]);
                }
                if is_readable(n) && txid_text(n.txid) == t {
                    assert(b[i as int] == n);
                }
                if is_seen(b, t) {
                    let k = choose|k: int|
                        0 <= k < b.len() && is_readable(#[trigger] b[k]) && txid_text(b[k].txid)
                            == t;
                    if k < i {
                        assert(a[k] == b[k]);
                    }
                }
            }
        }
        if rows[i].mined_height.is_some() && (rows[i].memo.is_some() || rows[i].sent_memo.is_some()) {
            match txid_display(rows[i].txid.as_slice()) {
                None => {},
                Some(s) => {
                    if !list_contains(&r, s.as_str()) {
                        push_text(&mut r, s.as_str());
                        proof {
                            assert forall|t: Seq<char>| #[trigger]
                                before.push(s@).contains(t) <==> before.contains(t) || t == s@ by {
                                if before.contains(t) {
                                    let k = choose|k: int|
                                        0 <= k < before.len() && before[k] == t;
                                    assert(before.push(s@)[k] == t);
                                }
                                if t == s@ {
                                    assert(before.push(s@)[before.len() as int] == t);
                                }
                            }
                        }
                    }
                },
            }
        }
        i += 1;
    }
    assert(all.take(i as int) =~= all);
    r
}

/// Whether a scan finds a mined memo of this transaction.
pub open spec fn is_found(found: Seq<ScannedModel>, txid: Seq<char>) -> bool {
    exists|i: int|
        0 <= i < found.len() && (#[trigger] found[i]).mined_height is Some && found[i].txid.len() == 32
            && txid_text(found[i].txid) == txid
}

/// Nothing that a read finds on the chain is waited for any longer, whatever it
/// starts from.
pub proof fn found_writes_are_seen(
    rows: Seq<StoredModel>,
    account: Seq<u8>,
    tip: u32,
    mark: Pos,
    pool: ShieldedPool,
    txid: Seq<char>,
)
    requires
        is_found(scanned(rows, account, tip, mark, pool), txid),
    ensures
        is_seen(rows, txid),
    decreases rows.len(),
{
    let found = scanned(rows, account, tip, mark, pool);
    let i = choose|i: int|
        0 <= i < found.len() && (#[trigger] found[i]).mined_height is Some && found[i].txid.len() == 32
            && txid_text(found[i].txid) == txid;
    let t = rows.drop_last();
    let before = scanned(t, account, tip, mark, pool);
    if i < before.len() {
        assert(before[i] == found[i]);
        found_writes_are_seen(t, account, tip, mark, pool, txid);
        let k = choose|k: int|
            0 <= k < t.len() && is_readable(#[trigger] t[k]) && txid_text(t[k].txid) == txid;
        assert(rows[k] == t[k]);
    } else {
        assert(is_readable(rows[rows.len() - 1]));
    }
}

/// What is no longer waited for is what a read finds: in a wallet that has taken in
/// the text memos of one database and nothing else, the two are the same.
pub proof fn seen_writes_are_what_a_read_finds(
    rows: Seq<StoredModel>,
    account: Seq<u8>,
    tip: u32,
    pool: ShieldedPool,
    txid: Seq<char>,
)
    requires
        forall|i: int|
            0 <= i < rows.len() && is_readable(#[trigger] rows[i]) ==> is_ours(
                rows[i],
                account,
                pool,
            ) && text_of(rows[i]) is Some && rows[i].mined_height->0 > 0,
    ensures
        is_seen(rows, txid) <==> is_found(
            scanned(rows, account, tip, genesis_pos(), pool),
            txid,
        ),
    decreases rows.len(),
{
    let found = scanned(rows, account, tip, genesis_pos(), pool);
    if is_found(found, txid) {
        found_writes_are_seen(rows, account, tip, genesis_pos(), pool, txid);
    }
    if is_seen(rows, txid) {
        let k = choose|k: int|
            0 <= k < rows.len() && is_readable(#[trigger] rows[k]) && txid_text(rows[k].txid) == txid;
        let t = rows.drop_last();
        let before = scanned(t, account, tip, genesis_pos(), pool);
        if k < t.len() {
            assert forall|i: int| 0 <= i < t.len() && is_readable(#[trigger] t[i]) implies is_ours(
                t[i],
                account,
                pool,
            ) && text_of(t[i]) is Some && t[i].mined_height->0 > 0 by {
                assert(t[i] == rows[i]);
            }
            assert(is_readable(t[k]));
            seen_writes_are_what_a_read_finds(t, account, tip, pool, txid);
            let i = choose|i: int|
                0 <= i < before.len() && (#[trigger] before[i]).mined_height is Some
                    && before[i].txid.len() == 32 && txid_text(before[i].txid) == txid;
            assert(found[i] == before[i]);
        } else {
            assert(is_scanned(rows[k], account, tip, genesis_pos(), pool));
            assert(found[found.len() - 1] == text_of(rows[k])->0);
        }
    }
}

/// A tip is relied on for five minutes, by a clock that can be read; on a local
/// chain always.
pub proof fn a_tip_is_relied_on_for_five_minutes(network: Network, tip: TipStatus, now: u64)
    ensures
        is_recent(Some(now), tip.time) <==> now - tip.time <= 300,
        !is_recent(None, tip.time),
        is_current(Network::Regtest, tip, Some(now)),
        is_current(Network::Regtest, tip, None),
        !(network is Regtest) ==> (is_current(network, tip, Some(now)) <==> now - tip.time <= 300),
        !(network is Regtest) ==> !is_current(network, tip, None),
{
}

/// A new wallet begins ten blocks below the tip, or at the start of a chain that is
/// not as long.
pub proof fn a_new_wallet_begins_below_the_tip(tip: u32)
    ensures
        tip >= 10 ==> birthday_below(tip) + 10 == tip,
        tip < 10 ==> birthday_below(tip) == 0,
{
}

/// A read at a confirmation depth goes without a scan exactly where the wallet is
/// taken in, has scanned without a gap, and lies so near to the tip that no block
/// that it lacks can hold a write of that depth. It then holds as of what the wallet
/// has scanned, and after a scan as of that.
pub proof fn how_a_read_goes(
    min_confs: u32,
    w: WalletReach,
    tip: u32,
    scanned_to: u32,
)
    requires
        min_confs > 0,
    ensures
        ({
            let begin = read_step(ReadState::Begin(Some((min_confs - 1) as u32)), ReadEvent::Started);
            let measured = read_step(begin.0, ReadEvent::Measured(w));
            let asked = read_step(measured.0, ReadEvent::TipIs(tip));
            &&& begin.1 is Measure
            &&& w.importing || w.gaps || w.tip is None ==> measured.1 is Scan
            &&& !w.importing && !w.gaps && w.tip is Some ==> {
                &&& measured.1 is AskTip
                &&& tip - w.tip->0 < min_confs ==> asked.1 == ReadAction::PruneAndFinish(w.tip->0)
                    && asked.0 == ReadState::Done(w.tip->0)
                &&& tip - w.tip->0 >= min_confs ==> asked.1 is Scan
            }
        }),
        read_step(ReadState::Begin(None), ReadEvent::Started).1 is Scan,
        read_step(ReadState::Begin(None), ReadEvent::Started).0 is Scanning,
        read_step(ReadState::Scanning, ReadEvent::Scanned(scanned_to)).1
            == ReadAction::PruneAndFinish(scanned_to),
        read_step(ReadState::Scanning, ReadEvent::Scanned(scanned_to)).0 == ReadState::Done(
            scanned_to,
        ),
{
}

/// A broadcast write counts as seen once one of its outputs is mined and the memo of
/// that is there, received or as it was sent.
pub proof fn what_counts_as_seen(rows: Seq<StoredModel>, k: int, txid: Seq<char>)
    ensures
        0 <= k < rows.len() && rows[k].txid.len() == 32 && rows[k].mined_height is Some && (
        rows[k].memo is Some || rows[k].sent_memo is Some) ==> is_seen(
            rows,
            txid_text(rows[k].txid),
        ),
        is_seen(rows, txid) ==> exists|i: int|
            0 <= i < rows.len() && (#[trigger] rows[i]).mined_height is Some && (rows[i].memo
                is Some || rows[i].sent_memo is Some) && txid_text(rows[i].txid) == txid,
{
    if 0 <= k < rows.len() && rows[k].txid.len() == 32 && rows[k].mined_height is Some && (
    rows[k].memo is Some || rows[k].sent_memo is Some) {
        assert(is_readable(rows[k]));
    }
    if is_seen(rows, txid) {
        let i = choose|i: int|
            0 <= i < rows.len() && is_readable(#[trigger] rows[i]) && txid_text(rows[i].txid) == txid;
        assert(rows[i].mined_height is Some);
    }
}

/// A wallet has caught up where it has no gap and lacks at most the newest block.
pub proof fn a_wallet_catches_up_to_the_newest_block(tip: u32, w: u32, gaps: bool)
    ensures
        is_caught_up(Some(w), gaps, tip) <==> !gaps && tip - w <= 1,
        !is_caught_up(None, gaps, tip),
{
}

/// Where a read at a confirmation depth skips the scan, every block that the wallet
/// lacks lies too shallow to count at that depth; and it does skip where that is so
/// and the wallet has no gap.
pub proof fn a_skipped_scan_is_one_that_shows_nothing_new(
    w: WalletReach,
    min_confs: u32,
    tip: u32,
    height: u32,
)
    requires
        min_confs > 0,
    ensures
        ({
            let r = skipped_to(w, tip, near_enough(min_confs) as u32);
            &&& w.gaps || w.importing || w.tip is None ==> r is None
            &&& r matches Some(t) ==> w.tip == Some(t) && (t < height <= tip ==> confirmations(
                Some(height),
                tip,
            ) < min_confs)
            &&& !w.gaps && !w.importing && w.tip is Some && tip - w.tip->0 < min_confs ==> r
                is Some
        }),
{
}

} // verus!
