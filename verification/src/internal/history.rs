//! Looking at the history: filters, pages, and the place of a write.

use crate::internal::snapshot::{HistModel, HistRow, KvModel, Snapshot};
use crate::lex::{bytes_equal, str_equal};
use crate::ordmap::OrdMap;
use crate::protocol::{InitState, KeyModel, KeyState, ReplayResult};
use crate::text::{
    ascii_lower, ascii_lowered, chars_of, contains_text, copy_opt, is_substring, occurs_at, opt_str, texts,
    to_ascii_lower,
};
use vstd::prelude::*;
use vstd::string::*;

verus! {

/// Whether a stored key matches a filter: it holds the filter as a substring, in
/// either case of the ASCII letters.
pub open spec fn filter_matches(key: Seq<char>, filter: Option<Seq<char>>) -> bool {
    match filter {
        None => true,
        Some(f) => is_substring(ascii_lowered(key), ascii_lowered(f)),
    }
}

/// Whether an operation is among those asked for; an empty list asks for all.
pub open spec fn op_matches(op: Seq<char>, ops: Option<Seq<Seq<char>>>) -> bool {
    match ops {
        None => true,
        Some(list) => list.len() == 0 || list.contains(op),
    }
}

/// The rows of a history that a filter and a list of operations select.
pub open spec fn selected(
    h: Seq<HistModel>,
    filter: Option<Seq<char>>,
    ops: Option<Seq<Seq<char>>>,
) -> Seq<HistModel> {
    h.filter(|r: HistModel| filter_matches(r.key, filter) && op_matches(r.op, ops))
}

/// A page of a sequence: what is left after `offset` items, at most `limit`.
pub open spec fn page_of<T>(s: Seq<T>, limit: Option<u32>, offset: u32) -> Seq<T> {
    let rest = if offset >= s.len() {
        Seq::empty()
    } else {
        s.skip(offset as int)
    };
    match limit {
        None => rest,
        Some(l) => if l < rest.len() {
            rest.take(l as int)
        } else {
            rest
        },
    }
}

/// The list of operations as mathematics.
pub open spec fn ops_model(ops: Option<&Vec<String>>) -> Option<Seq<Seq<char>>> {
    match ops {
        None => None,
        Some(v) => Some(texts(v@)),
    }
}

/// Rows in the order asked for: oldest first, or newest first.
pub open spec fn ordered<T>(s: Seq<T>, ascending: bool) -> Seq<T> {
    if ascending {
        s
    } else {
        s.reverse()
    }
}

/// Whether a list holds a text.
pub fn list_contains(list: &Vec<String>, s: &str) -> (r: bool)
    ensures
        r == texts(list@).contains(s@),
{
    let mut i: usize = 0;
    while i < list.len()
        invariant
            i <= list.len(),
            forall|k: int| 0 <= k < i ==> (#[trigger] texts(list@)[k]) != s@,
        decreases list.len() - i,
    {
        if str_equal(list[i].as_str(), s) {
            assert(texts(list@)[i as int] == s@);
            return true;
        }
        i += 1;
    }
    false
}

/// Whether a row is selected.
fn row_selected(row: &HistRow, filter: Option<&str>, ops: Option<&Vec<String>>) -> (r: bool)
    ensures
        r == (filter_matches(row@.key, opt_str(filter)) && op_matches(row@.op, ops_model(ops))),
{
    let by_key = match filter {
        None => true,
        Some(f) => {
            let k = to_ascii_lower(row.key.as_str());
            let l = to_ascii_lower(f);
            contains_text(k.as_str(), l.as_str())
        },
    };
    let by_op = match ops {
        None => true,
        Some(list) => list.len() == 0 || list_contains(list, row.op.as_str()),
    };
    by_key && by_op
}

impl Snapshot {
    /// The positions of the selected rows, in chain order.
    fn select(&self, filter: Option<&str>, ops: Option<&Vec<String>>) -> (r: Vec<usize>)
        ensures
            r.len() == selected(self@.history, opt_str(filter), ops_model(ops)).len(),
            forall|k: int|
                0 <= k < r.len() ==> (#[trigger] r@[k]) < self.history.len() && self@.history[r@[k] as int]
                    == selected(self@.history, opt_str(filter), ops_model(ops))[k],
    {
        let ghost h = self@.history;
        let ghost p = |r: HistModel|
            filter_matches(r.key, opt_str(filter)) && op_matches(r.op, ops_model(ops));
        let mut r: Vec<usize> = Vec::new();
        let mut i: usize = 0;
        assert(h.take(0).filter(p) =~= Seq::<HistModel>::empty()) by {
            reveal(Seq::filter);
        }
        while i < self.history.len()
            invariant
                i <= self.history.len(),
                h == self@.history,
                h.len() == self.history.len(),
                p == (|r: HistModel|
                    filter_matches(r.key, opt_str(filter)) && op_matches(r.op, ops_model(ops))),
                r.len() == h.take(i as int).filter(p).len(),
                forall|k: int|
                    0 <= k < r.len() ==> (#[trigger] r@[k]) < self.history.len() && h[r@[k] as int]
                        == h.take(i as int).filter(p)[k],
            decreases self.history.len() - i,
        {
            proof {
                assert(h.take(i + 1).drop_last() =~= h.take(i as int));
                reveal(Seq::filter);
            }
            if row_selected(&self.history[i], filter, ops) {
                r.push(i);
            }
            i += 1;
        }
        assert(h.take(i as int) =~= h);
        r
    }

    /// A page of the history: the selected rows, newest first unless
    /// `ascending`, without the first `offset`, at most `limit`.
    pub fn history_page(
        &self,
        filter: Option<&str>,
        ops: Option<&Vec<String>>,
        ascending: bool,
        limit: Option<u32>,
        offset: u32,
    ) -> (r: Vec<HistRow>)
        ensures
            r@.map_values(|h: HistRow| h@) == page_of(
                ordered(selected(self@.history, opt_str(filter), ops_model(ops)), ascending),
                limit,
                offset,
            ),
    {
        let idx = self.select(filter, ops);
        let ghost sel = selected(self@.history, opt_str(filter), ops_model(ops));
        let ghost all = ordered(sel, ascending);
        let n: usize = idx.len();
        let start: usize = if (offset as u64) < n as u64 {
            offset as usize
        } else {
            n
        };
        let stop: usize = match limit {
            None => n,
            Some(l) => if (l as u64) < (n - start) as u64 {
                start + l as usize
            } else {
                n
            },
        };
        let mut r: Vec<HistRow> = Vec::new();
        let mut i: usize = start;
        while i < stop
            invariant
                start <= i <= stop <= n,
                n == idx.len(),
                n == sel.len(),
                all == ordered(sel, ascending),
                forall|k: int|
                    0 <= k < idx.len() ==> (#[trigger] idx@[k]) < self.history.len()
                        && self@.history[idx@[k] as int] == sel[k],
                r.len() == i - start,
                forall|k: int| 0 <= k < r.len() ==> (#[trigger] r@[k])@ == all[start + k],
            decreases stop - i,
        {
            let at: usize = if ascending {
                i
            } else {
                n - 1 - i
            };
            assert(idx@[at as int] < self.history.len());
            assert(self@.history[idx@[at as int] as int] == all[i as int]);
            r.push(self.history[idx[at]].copy());
            i += 1;
        }
        assert(r@.map_values(|h: HistRow| h@) =~= page_of(all, limit, offset));
        r
    }

    /// How many rows are selected.
    pub fn history_count(&self, filter: Option<&str>, ops: Option<&Vec<String>>) -> (r: u64)
        ensures
            r == selected(self@.history, opt_str(filter), ops_model(ops)).len(),
    {
        self.select(filter, ops).len() as u64
    }

    /// The place of the newest selected row of a transaction among the selected
    /// rows, newest first; none if there is no such row.
    pub fn history_locate(&self, filter: Option<&str>, txid: &[u8]) -> (r: Option<u64>)
        ensures
            r is Some <==> newest_of(selected(self@.history, opt_str(filter), None), txid@) is Some,
            r matches Some(k) ==> newest_of(
                selected(self@.history, opt_str(filter), None),
                txid@,
            ) == Some(k as nat),
    {
        let idx = self.select(filter, None);
        let ghost sel = selected(self@.history, opt_str(filter), None);
        let mut i: usize = idx.len();
        assert(sel.take(i as int) =~= sel);
        while i > 0
            invariant
                i <= idx.len(),
                sel == selected(self@.history, opt_str(filter), None),
                idx.len() == sel.len(),
                forall|k: int|
                    0 <= k < idx.len() ==> (#[trigger] idx@[k]) < self.history.len()
                        && self@.history[idx@[k] as int] == sel[k],
                newest_of(sel, txid@) == (match newest_of(sel.take(i as int), txid@) {
                    Some(k) => Some((k + (sel.len() - i)) as nat),
                    None => None,
                }),
            decreases i,
        {
            assert(idx@[i - 1] < self.history.len());
            assert(self@.history[idx@[i - 1] as int] == sel[i - 1]);
            assert(sel.take(i as int).drop_last() =~= sel.take(i - 1));
            if bytes_equal(self.history[idx[i - 1]].txid.as_slice(), txid) {
                return Some((idx.len() - i) as u64);
            }
            i -= 1;
        }
        None
    }
}

/// The place of the last row of a transaction, counted from the end.
pub open spec fn newest_of(s: Seq<HistModel>, txid: Seq<u8>) -> Option<nat>
    decreases s.len(),
{
    if s.len() == 0 {
        None
    } else if s.last().pos.txid == txid {
        Some(0)
    } else {
        match newest_of(s.drop_last(), txid) {
            Some(k) => Some(k + 1),
            None => None,
        }
    }
}

/// A located write stands on the page that starts at its place, newest first.
pub proof fn located_row_is_on_its_page(s: Seq<HistModel>, txid: Seq<u8>, k: u32)
    requires
        newest_of(s, txid) == Some(k as nat),
    ensures
        k < s.len(),
        page_of(ordered(s, false), Some(1), k).len() == 1,
        page_of(ordered(s, false), Some(1), k)[0].pos.txid == txid,
{
    lemma_newest_of(s, txid);
}

proof fn lemma_newest_of(s: Seq<HistModel>, txid: Seq<u8>)
    ensures
        newest_of(s, txid) matches Some(k) ==> k < s.len() && s[s.len() - 1 - k].pos.txid == txid,
        newest_of(s, txid) is None ==> forall|i: int|
            0 <= i < s.len() ==> (#[trigger] s[i]).pos.txid != txid,
    decreases s.len(),
{
    if s.len() > 0 && s.last().pos.txid != txid {
        let t = s.drop_last();
        lemma_newest_of(t, txid);
        if newest_of(s, txid) is None {
            assert forall|i: int| 0 <= i < s.len() implies (#[trigger] s[i]).pos.txid != txid by {
                if i < t.len() {
                    assert(t[i].pos.txid != txid);
                }
            }
        }
    }
}

/// Two pages that follow each other are one larger page: paging neither drops
/// nor repeats anything.
pub proof fn pages_fit_together<T>(s: Seq<T>, first: u32, second: u32, offset: u32)
    requires
        first + second <= u32::MAX,
        offset + first <= u32::MAX,
    ensures
        page_of(s, Some(first), offset) + page_of(s, Some(second), (offset + first) as u32)
            == page_of(s, Some((first + second) as u32), offset),
{
    assert(page_of(s, Some(first), offset) + page_of(s, Some(second), (offset + first) as u32)
        =~= page_of(s, Some((first + second) as u32), offset));
}

/// The page without a limit, from the start, is everything.
pub proof fn unlimited_page_is_everything<T>(s: Seq<T>)
    ensures
        page_of(s, None, 0) == s,
{
    assert(page_of(s, None, 0) =~= s);
}

/// The escaped form of one character under `ESCAPE '\'`.
pub open spec fn like_char(c: char) -> Seq<char> {
    if c == '\\' || c == '%' || c == '_' {
        seq!['\\', c]
    } else {
        seq![c]
    }
}

/// A text with the characters that mean something in a `LIKE` pattern escaped.
pub open spec fn like_escaped(s: Seq<char>) -> Seq<char>
    decreases s.len(),
{
    if s.len() == 0 {
        Seq::empty()
    } else {
        like_escaped(s.drop_last()) + like_char(s.last())
    }
}

/// Escapes `%`, `_` and `\` so that a filter is matched literally under a
/// `LIKE … ESCAPE '\'` clause.
pub fn like_escape(s: &str) -> (r: String)
    ensures
        r@ == like_escaped(s@),
{
    let cs = chars_of(s);
    let mut r = String::new();
    let mut i: usize = 0;
    while i < cs.len()
        invariant
            cs@ == s@,
            i <= cs.len(),
            r@ == like_escaped(s@.take(i as int)),
        decreases cs.len() - i,
    {
        let c = cs[i];
        let ghost before = r@;
        if c == '\\' || c == '%' || c == '_' {
            r.push('\\');
        }
        r.push(c);
        proof {
            assert(s@.take(i + 1).drop_last() =~= s@.take(i as int));
            assert(r@ =~= before + like_char(c));
        }
        i += 1;
    }
    assert(s@.take(i as int) =~= s@);
    r
}

/// The placeholders of a list of `n` values.
pub open spec fn placeholders(n: nat) -> Seq<char>
    decreases n,
{
    if n == 0 {
        Seq::empty()
    } else if n == 1 {
        "?"@
    } else {
        placeholders((n - 1) as nat) + ", ?"@
    }
}

/// The `WHERE` clause for a filter and a number of operations.
pub open spec fn where_text(filter: bool, ops: nat) -> Seq<char> {
    let by_key = "key LIKE ? ESCAPE '\\'"@;
    let by_op = "op IN ("@ + placeholders(ops) + ")"@;
    if filter && ops > 0 {
        "WHERE "@ + by_key + " AND "@ + by_op
    } else if filter {
        "WHERE "@ + by_key
    } else if ops > 0 {
        "WHERE "@ + by_op
    } else {
        Seq::empty()
    }
}

/// The values to bind, in the order of the placeholders.
pub open spec fn where_binds(filter: Option<Seq<char>>, ops: Option<Seq<Seq<char>>>) -> Seq<
    Seq<char>,
> {
    (match filter {
        Some(f) => seq!["%"@ + like_escaped(f) + "%"@],
        None => Seq::empty(),
    }) + (match ops {
        Some(list) => list,
        None => Seq::empty(),
    })
}

/// The `WHERE` clause of a history query, with the values to bind.
pub fn history_where(filter: Option<&str>, ops: Option<&Vec<String>>) -> (r: (String, Vec<String>))
    ensures
        r.0@ == where_text(
            filter is Some,
            match ops {
                Some(v) => v.len() as nat,
                None => 0,
            },
        ),
        texts(r.1@) == where_binds(opt_str(filter), ops_model(ops)),
{
    let mut sql = String::new();
    let mut binds: Vec<String> = Vec::new();
    match filter {
        None => {},
        Some(f) => {
            sql.append("WHERE ");
            sql.append("key LIKE ? ESCAPE '\\'");
            let mut b = String::new();
            b.append("%");
            b.append(like_escape(f).as_str());
            b.append("%");
            assert(b@ =~= "%"@ + like_escaped(f@) + "%"@);
            binds.push(b);
        },
    }
    let ghost head = texts(binds@);
    let ghost start = sql@;
    match ops {
        None => {
            assert(texts(binds@) =~= where_binds(opt_str(filter), ops_model(ops)));
        },
        Some(list) => {
            if list.len() > 0 {
                if filter.is_some() {
                    sql.append(" AND ");
                } else {
                    sql.append("WHERE ");
                }
                sql.append("op IN (");
                let ghost open = sql@;
                let mut i: usize = 0;
                while i < list.len()
                    invariant
                        i <= list.len(),
                        sql@ == open + placeholders(i as nat),
                        texts(binds@) == head + texts(list@).take(i as int),
                    decreases list.len() - i,
                {
                    if i > 0 {
                        sql.append(", ?");
                    } else {
                        sql.append("?");
                    }
                    let ghost before = binds@;
                    binds.push(list[i].clone());
                    i += 1;
                    assert(texts(binds@) =~= texts(before).push(texts(list@)[i - 1]));
                    assert(sql@ =~= open + placeholders(i as nat));
                    assert(texts(binds@) =~= head + texts(list@).take(i as int));
                }
                sql.append(")");
                assert(texts(list@).take(i as int) =~= texts(list@));
                assert(sql@ =~= where_text(filter is Some, list.len() as nat));
            }
            assert(texts(binds@) =~= where_binds(opt_str(filter), ops_model(ops)));
        },
    }
    assert(sql@ =~= where_text(
        filter is Some,
        match ops {
            Some(v) => v.len() as nat,
            None => 0,
        },
    ));
    (sql, binds)
}

/// Whether a text matches a `LIKE` pattern with `\` as its escape: `%` stands for
/// any run, `_` for any character, an escaped character for itself, any other for
/// itself in either ASCII case.
pub open spec fn like(p: Seq<char>, t: Seq<char>) -> bool
    decreases p.len(), t.len(),
{
    if p.len() == 0 {
        t.len() == 0
    } else if p[0] == '%' {
        like(p.skip(1), t) || (t.len() > 0 && like(p, t.skip(1)))
    } else if p[0] == '\\' {
        p.len() > 1 && t.len() > 0 && ascii_lower(p[1]) == ascii_lower(t[0]) && like(
            p.skip(2),
            t.skip(1),
        )
    } else if p[0] == '_' {
        t.len() > 0 && like(p.skip(1), t.skip(1))
    } else {
        t.len() > 0 && ascii_lower(p[0]) == ascii_lower(t[0]) && like(p.skip(1), t.skip(1))
    }
}

proof fn lemma_like_escaped_front(f: Seq<char>)
    requires
        f.len() > 0,
    ensures
        like_escaped(f) == like_char(f[0]) + like_escaped(f.skip(1)),
    decreases f.len(),
{
    if f.len() == 1 {
        assert(f.drop_last() =~= Seq::<char>::empty());
        assert(f.skip(1) =~= Seq::<char>::empty());
        assert(like_escaped(f.drop_last()) =~= Seq::<char>::empty());
        assert(like_escaped(f) =~= like_char(f[0]) + like_escaped(f.skip(1)));
    } else {
        lemma_like_escaped_front(f.drop_last());
        assert(f.drop_last().skip(1) =~= f.skip(1).drop_last());
        assert(like_escaped(f) =~= like_char(f[0]) + like_escaped(f.skip(1)));
    }
}

proof fn lemma_like_any(t: Seq<char>)
    ensures
        like(seq!['%'], t),
    decreases t.len(),
{
    let p = seq!['%'];
    assert(p.skip(1) =~= Seq::<char>::empty());
    assert(p[0] == '%');
    assert(like(Seq::<char>::empty(), t) == (t.len() == 0));
    if t.len() > 0 {
        lemma_like_any(t.skip(1));
    }
}

/// Whether `t` starts with `f`, in either ASCII case.
spec fn starts_with(t: Seq<char>, f: Seq<char>) -> bool {
    f.len() <= t.len() && ascii_lowered(t).take(f.len() as int) == ascii_lowered(f)
}

proof fn lemma_like_prefix(f: Seq<char>, t: Seq<char>)
    ensures
        like(like_escaped(f) + seq!['%'], t) == starts_with(t, f),
    decreases f.len(),
{
    let p = like_escaped(f) + seq!['%'];
    if f.len() == 0 {
        assert(p =~= seq!['%']);
        lemma_like_any(t);
        assert(ascii_lowered(t).take(0) =~= ascii_lowered(f));
    } else {
        lemma_like_escaped_front(f);
        let rest = like_escaped(f.skip(1)) + seq!['%'];
        assert(p =~= like_char(f[0]) + rest);
        if t.len() == 0 {
            return_false_on_empty(p, f);
        } else {
            lemma_like_prefix(f.skip(1), t.skip(1));
            if f[0] == '\\' || f[0] == '%' || f[0] == '_' {
                assert(p.skip(2) =~= rest);
            } else {
                assert(p.skip(1) =~= rest);
            }
            if starts_with(t, f) {
                let lt = ascii_lowered(t).take(f.len() as int);
                assert(lt[0] == ascii_lower(t[0]) && ascii_lowered(f)[0] == ascii_lower(f[0]));
                assert(ascii_lowered(t.skip(1)).take(f.len() - 1) =~= lt.skip(1));
                assert(ascii_lowered(f.skip(1)) =~= ascii_lowered(f).skip(1));
            }
            if starts_with(t.skip(1), f.skip(1)) && ascii_lower(f[0]) == ascii_lower(t[0]) {
                let a = ascii_lowered(t).take(f.len() as int);
                let b = ascii_lowered(f);
                assert forall|i: int| 0 <= i < f.len() implies a[i] == b[i] by {
                    if i > 0 {
                        assert(ascii_lowered(t.skip(1)).take(f.len() - 1)[i - 1] == ascii_lowered(
                            f.skip(1),
                        )[i - 1]);
                    }
                }
                assert(a =~= b);
            }
        }
    }
}

proof fn return_false_on_empty(p: Seq<char>, f: Seq<char>)
    requires
        f.len() > 0,
        p.len() > 0,
        p[0] == '\\' || p[0] != '%',
    ensures
        !like(p, Seq::<char>::empty()),
        !starts_with(Seq::<char>::empty(), f),
{
}

proof fn lemma_like_run(q: Seq<char>, t: Seq<char>)
    ensures
        like(seq!['%'] + q, t) <==> exists|k: int| 0 <= k <= t.len() && like(q, #[trigger] t.skip(k)),
    decreases t.len(),
{
    let p = seq!['%'] + q;
    assert(p.skip(1) =~= q);
    assert(t.skip(0) =~= t);
    if t.len() > 0 {
        lemma_like_run(q, t.skip(1));
        if like(p, t) && !like(q, t) {
            let k = choose|k: int| 0 <= k <= t.len() - 1 && like(q, #[trigger] t.skip(1).skip(k));
            assert(t.skip(1).skip(k) =~= t.skip(k + 1));
        }
        if exists|k: int| 0 <= k <= t.len() && like(q, #[trigger] t.skip(k)) {
            let k = choose|k: int| 0 <= k <= t.len() && like(q, #[trigger] t.skip(k));
            if k > 0 {
                assert(t.skip(1).skip(k - 1) =~= t.skip(k));
            }
        }
    } else if exists|k: int| 0 <= k <= t.len() && like(q, #[trigger] t.skip(k)) {
        let k = choose|k: int| 0 <= k <= t.len() && like(q, #[trigger] t.skip(k));
        assert(t.skip(k) =~= t);
    }
}

/// A filter is matched literally: the pattern that is bound for it matches
/// exactly the keys that hold it as a substring, in either ASCII case.
pub proof fn filter_pattern_is_literal(filter: Seq<char>, key: Seq<char>)
    ensures
        like("%"@ + like_escaped(filter) + "%"@, key) == filter_matches(key, Some(filter)),
{
    reveal_strlit("%");
    assert("%"@ =~= seq!['%']);
    let q = like_escaped(filter) + seq!['%'];
    assert("%"@ + like_escaped(filter) + "%"@ =~= seq!['%'] + q);
    lemma_like_run(q, key);
    let lk = ascii_lowered(key);
    let lf = ascii_lowered(filter);
    if exists|k: int| 0 <= k <= key.len() && like(q, #[trigger] key.skip(k)) {
        let k = choose|k: int| 0 <= k <= key.len() && like(q, #[trigger] key.skip(k));
        lemma_like_prefix(filter, key.skip(k));
        assert(lk.subrange(k, k + lf.len()) =~= ascii_lowered(key.skip(k)).take(
            filter.len() as int,
        ));
        assert(occurs_at(lk, lf, k));
    }
    if is_substring(lk, lf) {
        let k = choose|k: int| occurs_at(lk, lf, k);
        lemma_like_prefix(filter, key.skip(k));
        assert(lk.subrange(k, k + lf.len()) =~= ascii_lowered(key.skip(k)).take(
            filter.len() as int,
        ));
        assert(like(q, key.skip(k)));
    }
}

/// What a reader knows of a key that only the snapshot has told about.
pub open spec fn seeded_key(c: KvModel) -> KeyModel {
    KeyModel {
        confirmed: Some(c.value),
        pending: Seq::empty(),
        updated_at: c.block_time,
        last_txid: c.txid,
    }
}

impl Snapshot {
    /// The snapshot as the starting state of a replay: confirmed values, no
    /// writes in flight.
    pub fn load_seed(&self) -> (r: ReplayResult)
        requires
            self.wf(),
        ensures
            r.wf(),
            r.init == (if self.initialized {
                InitState::Initialized
            } else {
                InitState::Uninitialized
            }),
            r.state.map() == self@.kv.map_values(|c: KvModel| seeded_key(c)),
            r.auth@ == self@.auth,
            r.finalized == self.finalized,
            r.version == self.version,
            r.kv_versions.map() == self@.kv_versions,
            r.target_versions.map() == self@.target_versions,
    {
        let mut state: OrdMap<KeyState> = OrdMap::new();
        let mut i: usize = 0;
        let n: usize = self.kv.len();
        let ghost e = self.kv.entries();
        while i < n
            invariant
                i <= n,
                n == e.len(),
                e == self.kv.entries(),
                state.wf(),
                state.map() == crate::ordmap::entries_map(e.take(i as int)).map_values(
                    |c: KvModel| seeded_key(c),
                ),
                self.wf(),
            decreases n - i,
        {
            let cell = self.kv.value_at(i);
            let ks = KeyState {
                confirmed: Some(cell.value.clone()),
                pending: Vec::new(),
                updated_at: cell.block_time,
                last_txid: copy_opt(&cell.txid),
            };
            assert(ks@ =~= seeded_key(e[i as int].1));
            state.insert(self.kv.key_at(i).clone(), ks);
            proof {
                crate::ordmap::lemma_entries_take(e, i as int);
                assert(state.map() =~= crate::ordmap::entries_map(e.take(i + 1)).map_values(
                    |c: KvModel| seeded_key(c),
                ));
            }
            i += 1;
        }
        assert(e.take(i as int) =~= e);
        ReplayResult {
            init: if self.initialized {
                InitState::Initialized
            } else {
                InitState::Uninitialized
            },
            state,
            auth: self.auth.copy(),
            finalized: self.finalized,
            version: self.version,
            kv_versions: self.kv_versions.copy(),
            target_versions: self.target_versions.copy(),
        }
    }

    /// How far the database's `INIT` has come, as far as the snapshot knows.
    pub fn read_init_state(&self) -> (r: InitState)
        ensures
            r == (if self.initialized {
                InitState::Initialized
            } else {
                InitState::Uninitialized
            }),
    {
        if self.initialized {
            InitState::Initialized
        } else {
            InitState::Uninitialized
        }
    }
}

/// A key matches a filter that it holds, wherever it holds it and in whatever ASCII
/// case; every key matches an empty filter or none; and no key matches a filter
/// that is longer than it is.
pub proof fn keys_match_what_they_hold(
    before: Seq<char>,
    filter: Seq<char>,
    after: Seq<char>,
    key: Seq<char>,
)
    ensures
        filter_matches(before + filter + after, Some(filter)),
        ascii_lowered(key) == ascii_lowered(before + filter + after) ==> filter_matches(
            key,
            Some(filter),
        ),
        filter_matches(key, None),
        filter_matches(key, Some(Seq::empty())),
        filter.len() > key.len() ==> !filter_matches(key, Some(filter)),
        filter_matches(key, Some(filter)) ==> exists|at: int|
            0 <= at <= key.len() - filter.len() && #[trigger] ascii_lowered(
                key.subrange(at, at + filter.len()),
            ) == ascii_lowered(filter),
{
    let all = before + filter + after;
    assert(ascii_lowered(all).subrange(before.len() as int, (before.len() + filter.len()) as int)
        =~= ascii_lowered(filter));
    assert(occurs_at(ascii_lowered(all), ascii_lowered(filter), before.len() as int));
    assert(ascii_lowered(key).subrange(0, 0) =~= ascii_lowered(Seq::empty()));
    assert(occurs_at(ascii_lowered(key), ascii_lowered(Seq::empty()), 0));
    if filter_matches(key, Some(filter)) {
        let at = choose|at: int| occurs_at(ascii_lowered(key), ascii_lowered(filter), at);
        assert(ascii_lowered(key.subrange(at, at + filter.len())) =~= ascii_lowered(filter)) by {
            assert(ascii_lowered(key).subrange(at, at + filter.len()) =~= ascii_lowered(
                key.subrange(at, at + filter.len()),
            ));
        }
    }
}

/// A page holds what follows its offset, in order, and as much of it as there is up
/// to its limit.
pub proof fn a_page_holds_what_was_asked_for<T>(s: Seq<T>, limit: Option<u32>, offset: u32, i: int)
    ensures
        0 <= i < page_of(s, limit, offset).len() ==> page_of(s, limit, offset)[i] == s[offset + i],
        offset >= s.len() ==> page_of(s, limit, offset).len() == 0,
        offset < s.len() && limit is None ==> page_of(s, limit, offset).len() == s.len() - offset,
        offset < s.len() && limit is Some && limit->0 <= s.len() - offset ==> page_of(
            s,
            limit,
            offset,
        ).len() == limit->0,
        offset < s.len() && limit is Some && limit->0 > s.len() - offset ==> page_of(
            s,
            limit,
            offset,
        ).len() == s.len() - offset,
{
}

/// The newest row of a transaction is found: it is of that transaction, no newer
/// one is, and it is missed only where there is none.
pub proof fn the_newest_row_is_located(s: Seq<HistModel>, txid: Seq<u8>)
    ensures
        newest_of(s, txid) matches Some(k) ==> k < s.len() && ordered(s, false)[k as int].pos.txid
            == txid && forall|i: int|
            0 <= i < k ==> (#[trigger] ordered(s, false)[i]).pos.txid != txid,
        newest_of(s, txid) is None ==> forall|i: int|
            0 <= i < s.len() ==> (#[trigger] s[i]).pos.txid != txid,
        ordered(s, true) == s,
        forall|i: int|
            0 <= i < s.len() ==> #[trigger] ordered(s, false)[i] == s[s.len() - 1 - i],
    decreases s.len(),
{
    lemma_newest_of(s, txid);
    if s.len() > 0 {
        let t = s.drop_last();
        the_newest_row_is_located(t, txid);
        if newest_of(s, txid) is Some {
            let k = newest_of(s, txid)->0;
            assert forall|i: int| 0 <= i < k implies (#[trigger] ordered(s, false)[i]).pos.txid
                != txid by {
                if i > 0 {
                    assert(ordered(s, false)[i] == ordered(t, false)[i - 1]);
                }
            }
        }
    }
}

/// A list of operations picks those that it names; an empty list, or none, picks
/// all.
pub proof fn a_list_of_operations_picks_what_it_names(op: Seq<char>, list: Seq<Seq<char>>)
    ensures
        op_matches(op, None),
        op_matches(op, Some(Seq::empty())),
        list.len() > 0 ==> (op_matches(op, Some(list)) <==> list.contains(op)),
{
}

/// How often a character stands in a text.
pub open spec fn occurrences(s: Seq<char>, c: char) -> nat
    decreases s.len(),
{
    if s.len() == 0 {
        0
    } else {
        occurrences(s.drop_last(), c) + (if s.last() == c {
            1nat
        } else {
            0
        })
    }
}

proof fn lemma_occurrences_add(a: Seq<char>, b: Seq<char>, c: char)
    ensures
        occurrences(a + b, c) == occurrences(a, c) + occurrences(b, c),
    decreases b.len(),
{
    if b.len() == 0 {
        assert(a + b =~= a);
    } else {
        assert((a + b).drop_last() =~= a + b.drop_last());
        lemma_occurrences_add(a, b.drop_last(), c);
    }
}

proof fn lemma_no_occurrence(s: Seq<char>, c: char)
    requires
        forall|i: int| 0 <= i < s.len() ==> #[trigger] s[i] != c,
    ensures
        occurrences(s, c) == 0,
    decreases s.len(),
{
    if s.len() > 0 {
        let t = s.drop_last();
        assert(s[s.len() - 1] != c);
        assert forall|i: int| 0 <= i < t.len() implies #[trigger] t[i] != c by {
            assert(s[i] != c);
        }
        lemma_no_occurrence(t, c);
    }
}

proof fn lemma_one_occurrence(s: Seq<char>, c: char, at: int)
    requires
        0 <= at < s.len(),
        s[at] == c,
        forall|i: int| 0 <= i < s.len() && i != at ==> #[trigger] s[i] != c,
    ensures
        occurrences(s, c) == 1,
{
    let a = s.take(at);
    let b = s.skip(at + 1);
    assert forall|i: int| 0 <= i < a.len() implies #[trigger] a[i] != c by {
        assert(s[i] != c);
    }
    assert forall|i: int| 0 <= i < b.len() implies #[trigger] b[i] != c by {
        assert(s[at + 1 + i] != c);
    }
    lemma_no_occurrence(a, c);
    lemma_no_occurrence(b, c);
    assert(a.push(c).drop_last() =~= a);
    lemma_occurrences_add(a.push(c), b, c);
    assert(a.push(c) + b =~= s);
}

proof fn lemma_placeholders(n: nat)
    ensures
        occurrences(placeholders(n), '?') == n,
    decreases n,
{
    reveal_strlit("?");
    reveal_strlit(", ?");
    if n == 1 {
        lemma_one_occurrence("?"@, '?', 0);
    } else if n > 1 {
        lemma_placeholders((n - 1) as nat);
        lemma_one_occurrence(", ?"@, '?', 2);
        lemma_occurrences_add(placeholders((n - 1) as nat), ", ?"@, '?');
    }
}

/// A history query has as many placeholders as values to bind: one for the filter,
/// which is bound as a pattern, and one for each operation.
pub proof fn every_placeholder_is_bound(filter: Option<Seq<char>>, ops: Option<Seq<Seq<char>>>)
    ensures
        occurrences(
            where_text(
                filter is Some,
                match ops {
                    Some(v) => v.len(),
                    None => 0,
                },
            ),
            '?',
        ) == where_binds(filter, ops).len(),
        filter matches Some(f) ==> forall|key: Seq<char>| #[trigger]
            like(where_binds(filter, ops)[0], key) <==> filter_matches(key, filter),
        ops matches Some(v) ==> where_binds(filter, ops).skip(
            where_binds(filter, ops).len() - v.len(),
        ) == v,
{
    let n: nat = match ops {
        Some(v) => v.len(),
        None => 0,
    };
    reveal_strlit("WHERE ");
    reveal_strlit(" AND ");
    reveal_strlit("op IN (");
    reveal_strlit(")");
    reveal_strlit("key LIKE ? ESCAPE '\\'");
    let by_key = "key LIKE ? ESCAPE '\\'"@;
    let by_op = "op IN ("@ + placeholders(n) + ")"@;
    lemma_one_occurrence(by_key, '?', 9);
    lemma_no_occurrence("WHERE "@, '?');
    lemma_no_occurrence(" AND "@, '?');
    lemma_no_occurrence("op IN ("@, '?');
    lemma_no_occurrence(")"@, '?');
    lemma_placeholders(n);
    lemma_occurrences_add("op IN ("@, placeholders(n), '?');
    lemma_occurrences_add("op IN ("@ + placeholders(n), ")"@, '?');
    lemma_occurrences_add("WHERE "@, by_key, '?');
    lemma_occurrences_add("WHERE "@, by_op, '?');
    lemma_occurrences_add("WHERE "@ + by_key, " AND "@, '?');
    lemma_occurrences_add("WHERE "@ + by_key + " AND "@, by_op, '?');
    if filter is Some {
        assert forall|key: Seq<char>| #[trigger]
            like(where_binds(filter, ops)[0], key) <==> filter_matches(key, filter) by {
            filter_pattern_is_literal(filter->0, key);
        }
    }
    if ops is Some {
        assert(where_binds(filter, ops).skip(where_binds(filter, ops).len() - ops->0.len())
            =~= ops->0);
    }
}

} // verus!
