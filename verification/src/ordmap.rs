//! A map from strings to values, kept in the byte-wise order of its keys.

use crate::lex::{lemma_str_transitive, lemma_str_trichotomy, str_before, str_equal, str_lt};
use vstd::prelude::*;

verus! {

/// A map from strings to values whose entries stand in the order of their keys,
/// each key once.
#[derive(Clone, Debug, PartialEq, Eq)]
pub struct OrdMap<V> {
    entries: Vec<(String, V)>,
}

/// The keys of `s` are strictly ascending.
pub open spec fn keys_ascending<V>(s: Seq<(Seq<char>, V)>) -> bool {
    forall|i: int, j: int| 0 <= i < j < s.len() ==> str_lt(#[trigger] s[i].0, #[trigger] s[j].0)
}

/// The position of the entry of `k`.
pub open spec fn entry_of<V>(s: Seq<(Seq<char>, V)>, k: Seq<char>) -> int {
    choose|i: int| 0 <= i < s.len() && (#[trigger] s[i]).0 == k
}

/// The map that a sequence of entries with different keys stands for.
pub open spec fn entries_map<V>(s: Seq<(Seq<char>, V)>) -> Map<Seq<char>, V> {
    Map::new(
        |k: Seq<char>| exists|i: int| 0 <= i < s.len() && (#[trigger] s[i]).0 == k,
        |k: Seq<char>| s[entry_of(s, k)].1,
    )
}

proof fn lemma_entry_in_map<V>(s: Seq<(Seq<char>, V)>, i: int)
    requires
        keys_ascending(s),
        0 <= i < s.len(),
    ensures
        entries_map(s).dom().contains(s[i].0),
        entries_map(s)[s[i].0] == s[i].1,
{
    let k = s[i].0;
    let j = entry_of(s, k);
    assert(s[i].0 == k);
    if i < j {
        assert(str_lt(s[i].0, s[j].0));
        lemma_str_trichotomy(k, k);
    } else if j < i {
        assert(str_lt(s[j].0, s[i].0));
        lemma_str_trichotomy(k, k);
    }
}

/// A key between two neighbouring entries is not in the map.
proof fn lemma_gap_not_in_map<V>(s: Seq<(Seq<char>, V)>, k: Seq<char>, p: int)
    requires
        keys_ascending(s),
        0 <= p <= s.len(),
        forall|i: int| 0 <= i < p ==> str_lt((#[trigger] s[i]).0, k),
        p < s.len() ==> str_lt(k, s[p].0),
    ensures
        !entries_map(s).dom().contains(k),
{
    if entries_map(s).dom().contains(k) {
        let i = choose|i: int| 0 <= i < s.len() && (#[trigger] s[i]).0 == k;
        lemma_str_trichotomy(k, k);
        if i < p {
            assert(str_lt(s[i].0, k));
        } else if i > p {
            assert(str_lt(s[p].0, s[i].0));
            lemma_str_trichotomy(k, s[p].0);
        }
    }
}

proof fn lemma_insert_entry<V>(s: Seq<(Seq<char>, V)>, k: Seq<char>, v: V, p: int)
    requires
        keys_ascending(s),
        0 <= p <= s.len(),
        forall|i: int| 0 <= i < p ==> str_lt((#[trigger] s[i]).0, k),
        p < s.len() ==> str_lt(k, s[p].0),
    ensures
        keys_ascending(s.insert(p, (k, v))),
        entries_map(s.insert(p, (k, v))) == entries_map(s).insert(k, v),
{
    let t = s.insert(p, (k, v));
    assert forall|i: int, j: int| 0 <= i < j < t.len() implies str_lt(
        #[trigger] t[i].0,
        #[trigger] t[j].0,
    ) by {
        if i < p && j == p {
            assert(str_lt(s[i].0, k));
        } else if i == p && j > p {
            assert(t[j] == s[j - 1]);
            if j - 1 > p {
                assert(str_lt(s[p].0, s[j - 1].0));
                lemma_str_transitive(k, s[p].0, s[j - 1].0);
            }
        } else if j < p {
            assert(str_lt(s[i].0, s[j].0));
        } else if i < p {
            assert(t[j] == s[j - 1]);
            assert(str_lt(s[i].0, s[j - 1].0));
        } else {
            assert(t[i] == s[i - 1]);
            assert(t[j] == s[j - 1]);
            assert(str_lt(s[i - 1].0, s[j - 1].0));
        }
    }
    let m = entries_map(s).insert(k, v);
    let n = entries_map(t);
    assert forall|q: Seq<char>| #[trigger] n.dom().contains(q) <==> m.dom().contains(q) by {
        if n.dom().contains(q) {
            let i = choose|i: int| 0 <= i < t.len() && (#[trigger] t[i]).0 == q;
            if i < p {
                assert(s[i].0 == q);
            } else if i > p {
                assert(t[i] == s[i - 1]);
                assert(s[i - 1].0 == q);
            }
        }
        if m.dom().contains(q) {
            if q == k {
                assert(t[p].0 == q);
            } else {
                let i = choose|i: int| 0 <= i < s.len() && (#[trigger] s[i]).0 == q;
                if i < p {
                    assert(t[i].0 == q);
                } else {
                    assert(t[i + 1].0 == q);
                }
            }
        }
    }
    assert forall|q: Seq<char>| #[trigger] n.dom().contains(q) implies n[q] == m[q] by {
        let i = choose|i: int| 0 <= i < t.len() && (#[trigger] t[i]).0 == q;
        lemma_entry_in_map(t, i);
        lemma_gap_not_in_map(s, k, p);
        if i < p {
            assert(t[i] == s[i]);
            lemma_entry_in_map(s, i);
        } else if i > p {
            assert(t[i] == s[i - 1]);
            lemma_entry_in_map(s, i - 1);
        }
    }
    assert(n =~= m);
}

proof fn lemma_update_entry<V>(s: Seq<(Seq<char>, V)>, v: V, p: int)
    requires
        keys_ascending(s),
        0 <= p < s.len(),
    ensures
        keys_ascending(s.update(p, (s[p].0, v))),
        entries_map(s.update(p, (s[p].0, v))) == entries_map(s).insert(s[p].0, v),
{
    let k = s[p].0;
    let t = s.update(p, (k, v));
    assert forall|i: int, j: int| 0 <= i < j < t.len() implies str_lt(
        #[trigger] t[i].0,
        #[trigger] t[j].0,
    ) by {
        assert(str_lt(s[i].0, s[j].0));
    }
    let m = entries_map(s).insert(k, v);
    let n = entries_map(t);
    assert forall|q: Seq<char>| #[trigger] n.dom().contains(q) <==> m.dom().contains(q) by {
        if n.dom().contains(q) {
            let i = choose|i: int| 0 <= i < t.len() && (#[trigger] t[i]).0 == q;
            assert(s[i].0 == q);
        }
        if m.dom().contains(q) {
            if q == k {
                assert(t[p].0 == q);
            } else {
                let i = choose|i: int| 0 <= i < s.len() && (#[trigger] s[i]).0 == q;
                assert(t[i].0 == q);
            }
        }
    }
    assert forall|q: Seq<char>| #[trigger] n.dom().contains(q) implies n[q] == m[q] by {
        let i = choose|i: int| 0 <= i < t.len() && (#[trigger] t[i]).0 == q;
        lemma_entry_in_map(t, i);
        if i != p {
            assert(t[i] == s[i]);
            lemma_entry_in_map(s, i);
            if q == k {
                lemma_str_trichotomy(k, k);
                if i < p {
                    assert(str_lt(s[i].0, s[p].0));
                } else {
                    assert(str_lt(s[p].0, s[i].0));
                }
            }
        }
    }
    assert(n =~= m);
}

proof fn lemma_remove_entry<V>(s: Seq<(Seq<char>, V)>, p: int)
    requires
        keys_ascending(s),
        0 <= p < s.len(),
    ensures
        keys_ascending(s.remove(p)),
        entries_map(s.remove(p)) == entries_map(s).remove(s[p].0),
{
    let k = s[p].0;
    let t = s.remove(p);
    assert forall|i: int, j: int| 0 <= i < j < t.len() implies str_lt(
        #[trigger] t[i].0,
        #[trigger] t[j].0,
    ) by {
        let i2 = if i < p { i } else { i + 1 };
        let j2 = if j < p { j } else { j + 1 };
        assert(t[i] == s[i2] && t[j] == s[j2]);
        assert(str_lt(s[i2].0, s[j2].0));
    }
    let m = entries_map(s).remove(k);
    let n = entries_map(t);
    assert forall|q: Seq<char>| #[trigger] n.dom().contains(q) implies m.dom().contains(q) && n[q]
        == m[q] by {
        let i = choose|i: int| 0 <= i < t.len() && (#[trigger] t[i]).0 == q;
        let i2 = if i < p { i } else { i + 1 };
        assert(t[i] == s[i2]);
        lemma_entry_in_map(t, i);
        lemma_entry_in_map(s, i2);
        if q == k {
            lemma_str_trichotomy(k, k);
            if i2 < p {
                assert(str_lt(s[i2].0, s[p].0));
            } else {
                assert(str_lt(s[p].0, s[i2].0));
            }
        }
    }
    assert forall|q: Seq<char>| #[trigger] m.dom().contains(q) implies n.dom().contains(q) by {
        let i = choose|i: int| 0 <= i < s.len() && (#[trigger] s[i]).0 == q;
        if i < p {
            assert(t[i].0 == q);
        } else {
            assert(t[i - 1].0 == q);
        }
    }
    assert(n =~= m);
}

/// One more entry of an ordered sequence is one more key.
pub proof fn lemma_entries_take<V>(s: Seq<(Seq<char>, V)>, i: int)
    requires
        keys_ascending(s),
        0 <= i < s.len(),
    ensures
        keys_ascending(s.take(i)),
        entries_map(s.take(i + 1)) == entries_map(s.take(i)).insert(s[i].0, s[i].1),
{
    let t = s.take(i);
    assert(s.take(i + 1) =~= t.insert(i, (s[i].0, s[i].1)));
    assert forall|j: int| 0 <= j < i implies str_lt((#[trigger] t[j]).0, s[i].0) by {
        assert(str_lt(s[j].0, s[i].0));
    }
    assert forall|j: int, k: int| 0 <= j < k < t.len() implies str_lt(
        #[trigger] t[j].0,
        #[trigger] t[k].0,
    ) by {
        assert(str_lt(s[j].0, s[k].0));
    }
    lemma_insert_entry(t, s[i].0, s[i].1, i);
}

proof fn lemma_entries_len<V>(s: Seq<(Seq<char>, V)>)
    requires
        keys_ascending(s),
    ensures
        entries_map(s).dom().finite(),
        entries_map(s).dom().len() == s.len(),
    decreases s.len(),
{
    if s.len() == 0 {
        assert(entries_map(s).dom() =~= Set::<Seq<char>>::empty());
    } else {
        let n = s.len() - 1;
        let t = s.remove(n);
        lemma_remove_entry(s, n);
        lemma_entry_in_map(s, n);
        lemma_entries_len(t);
        assert(entries_map(s).dom() =~= entries_map(t).dom().insert(s[n].0));
    }
}

impl<V: View> OrdMap<V> {
    /// The entries in key order.
    pub closed spec fn entries(self) -> Seq<(Seq<char>, V::V)> {
        self.entries@.map_values(|e: (String, V)| (e.0@, e.1@))
    }

    /// The entries stand in key order, each key once.
    pub open spec fn wf(self) -> bool {
        keys_ascending(self.entries())
    }

    /// What the map holds.
    pub open spec fn map(self) -> Map<Seq<char>, V::V> {
        entries_map(self.entries())
    }

    /// There are as many keys as entries.
    pub proof fn lemma_dom_len(self)
        requires
            self.wf(),
        ensures
            self.map().dom().finite(),
            self.map().dom().len() == self.entries().len(),
    {
        lemma_entries_len(self.entries());
    }

    /// An empty map.
    pub fn new() -> (r: Self)
        ensures
            r.wf(),
            r.entries() == Seq::<(Seq<char>, V::V)>::empty(),
            r.map() == Map::<Seq<char>, V::V>::empty(),
    {
        let r = OrdMap { entries: Vec::new() };
        assert(r.entries() =~= Seq::<(Seq<char>, V::V)>::empty());
        assert(r.map() =~= Map::<Seq<char>, V::V>::empty());
        r
    }

    /// The number of entries.
    pub fn len(&self) -> (r: usize)
        ensures
            r == self.entries().len(),
    {
        self.entries.len()
    }

    /// The key of the entry at position `i`.
    pub fn key_at(&self, i: usize) -> (r: &String)
        requires
            i < self.entries().len(),
        ensures
            r@ == self.entries()[i as int].0,
    {
        &self.entries[i].0
    }

    /// The value of the entry at position `i`.
    pub fn value_at(&self, i: usize) -> (r: &V)
        requires
            i < self.entries().len(),
        ensures
            r@ == self.entries()[i as int].1,
    {
        &self.entries[i].1
    }

    /// The position of the first entry whose key is not before `key`.
    fn lower_bound(&self, key: &str) -> (p: usize)
        requires
            self.wf(),
        ensures
            p <= self.entries().len(),
            forall|i: int| 0 <= i < p ==> str_lt((#[trigger] self.entries()[i]).0, key@),
            p < self.entries().len() ==> !str_lt(self.entries()[p as int].0, key@),
    {
        let mut a: usize = 0;
        let mut b: usize = self.entries.len();
        while a < b
            invariant
                self.wf(),
                a <= b <= self.entries().len(),
                self.entries().len() == self.entries.len(),
                forall|i: int| 0 <= i < a ==> str_lt((#[trigger] self.entries()[i]).0, key@),
                b < self.entries().len() ==> !str_lt(self.entries()[b as int].0, key@),
            decreases b - a,
        {
            let mid: usize = a + (b - a) / 2;
            if str_before(self.entries[mid].0.as_str(), key) {
                proof {
                    let e = self.entries();
                    assert forall|i: int| 0 <= i < mid + 1 implies str_lt(
                        (#[trigger] e[i]).0,
                        key@,
                    ) by {
                        if i < mid {
                            assert(str_lt(e[i].0, e[mid as int].0));
                            lemma_str_transitive(e[i].0, e[mid as int].0, key@);
                        }
                    }
                }
                a = mid + 1;
            } else {
                b = mid;
            }
        }
        a
    }

    /// The value stored under `key`.
    pub fn get(&self, key: &str) -> (r: Option<&V>)
        requires
            self.wf(),
        ensures
            r is Some <==> self.map().dom().contains(key@),
            r matches Some(v) ==> v@ == self.map()[key@],
    {
        let p = self.lower_bound(key);
        if p < self.entries.len() && str_equal(self.entries[p].0.as_str(), key) {
            proof {
                lemma_entry_in_map(self.entries(), p as int);
            }
            Some(&self.entries[p].1)
        } else {
            proof {
                if p < self.entries().len() {
                    lemma_str_trichotomy(self.entries()[p as int].0, key@);
                }
                lemma_gap_not_in_map(self.entries(), key@, p as int);
            }
            None
        }
    }

    /// Whether something is stored under `key`.
    pub fn contains_key(&self, key: &str) -> (r: bool)
        requires
            self.wf(),
        ensures
            r == self.map().dom().contains(key@),
    {
        self.get(key).is_some()
    }

    /// Stores `value` under `key`, in place of what stood there.
    pub fn insert(&mut self, key: String, value: V)
        requires
            old(self).wf(),
        ensures
            final(self).wf(),
            final(self).map() == old(self).map().insert(key@, value@),
    {
        let ghost s = self.entries();
        let ghost v = value@;
        let p = self.lower_bound(key.as_str());
        if p < self.entries.len() && str_equal(self.entries[p].0.as_str(), key.as_str()) {
            self.entries[p] = (key, value);
            proof {
                assert(self.entries() =~= s.update(p as int, (s[p as int].0, v)));
                lemma_update_entry(s, v, p as int);
            }
        } else {
            proof {
                if p < s.len() {
                    lemma_str_trichotomy(s[p as int].0, key@);
                }
                lemma_insert_entry(s, key@, v, p as int);
            }
            self.entries.insert(p, (key, value));
            assert(self.entries() =~= s.insert(p as int, (key@, v)));
        }
    }

    /// Takes the entry of `key` out; does nothing if there is none.
    pub fn remove(&mut self, key: &str)
        requires
            old(self).wf(),
        ensures
            final(self).wf(),
            final(self).map() == old(self).map().remove(key@),
    {
        let ghost s = self.entries();
        let p = self.lower_bound(key);
        if p < self.entries.len() && str_equal(self.entries[p].0.as_str(), key) {
            proof {
                lemma_remove_entry(s, p as int);
            }
            self.entries.remove(p);
            assert(self.entries() =~= s.remove(p as int));
        } else {
            proof {
                if p < s.len() {
                    lemma_str_trichotomy(s[p as int].0, key@);
                }
                lemma_gap_not_in_map(s, key@, p as int);
                assert(self.map() =~= old(self).map().remove(key@));
            }
        }
    }
}

/// A value that can be copied without changing what it stands for.
pub trait Duplicate: View + Sized {
    /// A copy.
    fn duplicate(&self) -> (r: Self)
        ensures
            r@ == self@,
    ;
}

impl Duplicate for () {
    fn duplicate(&self) -> (r: Self) {
    }
}

impl Duplicate for u64 {
    fn duplicate(&self) -> (r: Self) {
        *self
    }
}

impl<V: Duplicate> OrdMap<V> {
    /// A copy of the map.
    pub fn copy(&self) -> (r: Self)
        ensures
            r.entries() == self.entries(),
    {
        let mut entries: Vec<(String, V)> = Vec::new();
        let mut i: usize = 0;
        while i < self.entries.len()
            invariant
                i <= self.entries.len(),
                entries.len() == i,
                forall|k: int|
                    0 <= k < i ==> (#[trigger] entries@[k]).0@ == self.entries@[k].0@
                        && entries@[k].1@ == self.entries@[k].1@,
            decreases self.entries.len() - i,
        {
            entries.push((self.entries[i].0.clone(), self.entries[i].1.duplicate()));
            i += 1;
        }
        let r = OrdMap { entries };
        assert(r.entries() =~= self.entries());
        r
    }
}

/// A key of an ordered sequence has an entry, and that entry is what the map holds.
pub proof fn lemma_entry_place<V>(s: Seq<(Seq<char>, V)>, key: Seq<char>) -> (i: int)
    requires
        keys_ascending(s),
        entries_map(s).dom().contains(key),
    ensures
        0 <= i < s.len(),
        s[i].0 == key,
        entries_map(s)[key] == s[i].1,
{
    let i = choose|i: int| 0 <= i < s.len() && (#[trigger] s[i]).0 == key;
    lemma_entry_in_map(s, i);
    i
}

} // verus!
