//! The writes that this client broadcast and has not seen on the chain yet.

use crate::internal::history::list_contains;
use crate::text::{copy_opt, opt_text, texts};
use crate::sort::views;
use vstd::prelude::*;
use vstd::string::*;

verus! {

/// An entry older than this many seconds is lost: the network evicts an unmined
/// transaction long before.
pub const STALE_AFTER_SECS: u64 = 3600;

/// A write that was broadcast.
#[derive(Clone, Debug, PartialEq, Eq)]
pub struct PendingEntry {
    /// The shown transaction id.
    pub txid: String,
    /// The operation on the wire.
    pub op: String,
    /// The key; for `INIT` the address of the database, for a management
    /// operation its target.
    pub key: String,
    pub value: Option<String>,
    /// The signed memo as it was broadcast.
    pub memo: Option<String>,
    pub broadcast_at_unix: u64,
}

/// [`PendingEntry`] as mathematics.
pub struct LocalModel {
    pub txid: Seq<char>,
    pub op: Seq<char>,
    pub key: Seq<char>,
    pub value: Option<Seq<char>>,
    pub memo: Option<Seq<char>>,
    pub broadcast_at_unix: u64,
}

impl View for PendingEntry {
    type V = LocalModel;

    open spec fn view(&self) -> LocalModel {
        LocalModel {
            txid: self.txid@,
            op: self.op@,
            key: self.key@,
            value: opt_text(self.value),
            memo: opt_text(self.memo),
            broadcast_at_unix: self.broadcast_at_unix,
        }
    }
}

impl PendingEntry {
    /// A copy.
    pub fn copy(&self) -> (r: PendingEntry)
        ensures
            r@ == self@,
    {
        PendingEntry {
            txid: self.txid.clone(),
            op: self.op.clone(),
            key: self.key.clone(),
            value: copy_opt(&self.value),
            memo: copy_opt(&self.memo),
            broadcast_at_unix: self.broadcast_at_unix,
        }
    }
}

/// The seconds since the unix epoch, unless the clock stands before it.
///
/// `SystemTime::now` and `duration_since`: the value is whatever the clock says.
#[verifier::external_body]
pub(crate) fn clock_unix() -> (r: Option<u64>) {
    std::time::SystemTime::now().duration_since(std::time::UNIX_EPOCH).ok().map(|d| d.as_secs())
}

/// A reading of the clock as a time: zero where it stands before the epoch.
pub open spec fn time_of(reading: Option<u64>) -> u64 {
    match reading {
        Some(t) => t,
        None => 0,
    }
}

/// A reading of the clock as a time.
pub fn unix_or_zero(reading: Option<u64>) -> (r: u64)
    ensures
        r == time_of(reading),
{
    match reading {
        Some(t) => t,
        None => 0,
    }
}

/// The time now, as the clock says it.
pub fn now_unix() -> (r: u64)
    ensures
        exists|reading: Option<u64>| r == #[trigger] time_of(reading),
{
    let reading: Option<u64> = clock_unix();
    assert(time_of(reading) == time_of(reading));
    unix_or_zero(reading)
}

/// Whether an entry is still waited for at the time `now`.
pub open spec fn is_fresh(e: LocalModel, now: u64) -> bool {
    e.broadcast_at_unix + STALE_AFTER_SECS >= now
}

/// The entries that are still waited for.
pub open spec fn fresh(s: Seq<LocalModel>, now: u64) -> Seq<LocalModel> {
    s.filter(|e: LocalModel| is_fresh(e, now))
}

/// The stored entries without those that are lost.
pub fn load(stored: &Vec<PendingEntry>, now: u64) -> (r: Vec<PendingEntry>)
    ensures
        views(r@) == fresh(views(stored@), now),
{
    let ghost all = views(stored@);
    let ghost p = |e: LocalModel| is_fresh(e, now);
    let cutoff: u64 = now.saturating_sub(STALE_AFTER_SECS);
    let mut r: Vec<PendingEntry> = Vec::new();
    let mut i: usize = 0;
    proof {
        reveal(Seq::filter);
        assert(views(r@) =~= all.take(0).filter(p));
    }
    while i < stored.len()
        invariant
            i <= stored.len(),
            all == views(stored@),
            p == (|e: LocalModel| is_fresh(e, now)),
            cutoff == (if now >= STALE_AFTER_SECS {
                (now - STALE_AFTER_SECS) as u64
            } else {
                0
            }),
            views(r@) == all.take(i as int).filter(p),
        decreases stored.len() - i,
    {
        let ghost before = r@;
        proof {
            assert(all.take(i + 1).drop_last() =~= all.take(i as int));
            assert(all.take(i + 1).last() == stored@[i as int]@);
            reveal(Seq::filter);
        }
        if stored[i].broadcast_at_unix >= cutoff {
            r.push(stored[i].copy());
            assert(views(r@) =~= views(before).push(all[i as int]));
        }
        i += 1;
    }
    assert(all.take(i as int) =~= all);
    r
}

/// The entries to store after one more broadcast.
pub fn append(stored: &Vec<PendingEntry>, entry: PendingEntry, now: u64) -> (r: Vec<PendingEntry>)
    ensures
        views(r@) == fresh(views(stored@), now).push(entry@),
{
    let mut r = load(stored, now);
    let ghost before = views(r@);
    r.push(entry);
    assert(views(r@) =~= before.push(entry@));
    r
}

/// The entries that are neither lost nor seen.
pub open spec fn unseen(s: Seq<LocalModel>, seen: Seq<Seq<char>>, now: u64) -> Seq<LocalModel> {
    fresh(s, now).filter(|e: LocalModel| !seen.contains(e.txid))
}

/// The entries to store once the wallet has seen some transactions: those that it
/// has not seen. None, if there was nothing to look at: the store stays as it is.
pub fn prune(stored: &Vec<PendingEntry>, seen: &Vec<String>, now: u64) -> (r: Option<
    Vec<PendingEntry>,
>)
    ensures
        r is None <==> fresh(views(stored@), now).len() == 0,
        r matches Some(v) ==> views(v@) == unseen(views(stored@), texts(seen@), now),
{
    let entries = load(stored, now);
    if entries.len() == 0 {
        return None;
    }
    let ghost all = views(entries@);
    let ghost p = |e: LocalModel| !texts(seen@).contains(e.txid);
    let mut r: Vec<PendingEntry> = Vec::new();
    let mut i: usize = 0;
    proof {
        reveal(Seq::filter);
        assert(views(r@) =~= all.take(0).filter(p));
    }
    while i < entries.len()
        invariant
            i <= entries.len(),
            all == views(entries@),
            p == (|e: LocalModel| !texts(seen@).contains(e.txid)),
            views(r@) == all.take(i as int).filter(p),
        decreases entries.len() - i,
    {
        let ghost before = r@;
        proof {
            assert(all.take(i + 1).drop_last() =~= all.take(i as int));
            assert(all.take(i + 1).last() == entries@[i as int]@);
            reveal(Seq::filter);
        }
        if !list_contains(seen, entries[i].txid.as_str()) {
            r.push(entries[i].copy());
            assert(views(r@) =~= views(before).push(all[i as int]));
        }
        i += 1;
    }
    assert(all.take(i as int) =~= all);
    Some(r)
}

/// A write that was just recorded is waited for, and stays so until it is seen.
pub proof fn recorded_write_is_waited_for(
    stored: Seq<LocalModel>,
    e: LocalModel,
    now: u64,
    later: u64,
    seen: Seq<Seq<char>>,
)
    requires
        is_fresh(e, later),
        !seen.contains(e.txid),
    ensures
        unseen(fresh(stored, now).push(e), seen, later).contains(e),
{
    let s = fresh(stored, now).push(e);
    let p = |x: LocalModel| is_fresh(x, later);
    let q = |x: LocalModel| !seen.contains(x.txid);
    let n = s.len() - 1;
    assert(s[n] == e);
    s.lemma_filter_contains(p, n);
    let t = fresh(s, later);
    assert(t.contains(e));
    let i = choose|i: int| 0 <= i < t.len() && t[i] == e;
    t.lemma_filter_contains(q, i);
}

/// A seen transaction is no longer waited for, and nothing is waited for that was
/// never recorded.
pub proof fn seen_write_is_not_waited_for(
    stored: Seq<LocalModel>,
    seen: Seq<Seq<char>>,
    now: u64,
    e: LocalModel,
)
    requires
        unseen(stored, seen, now).contains(e),
    ensures
        !seen.contains(e.txid),
        is_fresh(e, now),
        stored.contains(e),
{
    let p = |x: LocalModel| is_fresh(x, now);
    let q = |x: LocalModel| !seen.contains(x.txid);
    let t = fresh(stored, now);
    let u = unseen(stored, seen, now);
    let i = choose|i: int| 0 <= i < u.len() && u[i] == e;
    t.lemma_filter_pred(q, i);
    t.lemma_filter_contains_rev(q, e);
    let j = choose|j: int| 0 <= j < t.len() && t[j] == e;
    stored.lemma_filter_pred(p, j);
    stored.lemma_filter_contains_rev(p, e);
}

/// A recorded write is waited for through the hour after its broadcast and not
/// longer, and nothing else is.
pub proof fn a_write_is_waited_for_an_hour(stored: Seq<LocalModel>, now: u64, e: LocalModel)
    ensures
        fresh(stored, now).contains(e) <==> stored.contains(e) && now - e.broadcast_at_unix <= 3600,
        fresh(stored, now).len() <= stored.len(),
{
    let p = |x: LocalModel| is_fresh(x, now);
    let t = fresh(stored, now);
    stored.lemma_filter_len(p);
    if t.contains(e) {
        let i = choose|i: int| 0 <= i < t.len() && t[i] == e;
        stored.lemma_filter_pred(p, i);
        stored.lemma_filter_contains_rev(p, e);
    }
    if stored.contains(e) && now - e.broadcast_at_unix <= 3600 {
        let i = choose|i: int| 0 <= i < stored.len() && stored[i] == e;
        stored.lemma_filter_contains(p, i);
    }
}

/// Once the wallet has seen some transactions, what is still waited for is what was
/// recorded within the hour and is not among them.
pub proof fn what_was_not_seen_is_still_waited_for(
    stored: Seq<LocalModel>,
    seen: Seq<Seq<char>>,
    now: u64,
    e: LocalModel,
)
    ensures
        unseen(stored, seen, now).contains(e) <==> stored.contains(e) && now - e.broadcast_at_unix
            <= 3600 && !seen.contains(e.txid),
{
    a_write_is_waited_for_an_hour(stored, now, e);
    let q = |x: LocalModel| !seen.contains(x.txid);
    let t = fresh(stored, now);
    if unseen(stored, seen, now).contains(e) {
        seen_write_is_not_waited_for(stored, seen, now, e);
    }
    if t.contains(e) && !seen.contains(e.txid) {
        let i = choose|i: int| 0 <= i < t.len() && t[i] == e;
        t.lemma_filter_contains(q, i);
    }
}

} // verus!
