//! Stable sorting.

use vstd::prelude::*;

verus! {

/// A value with a place in an order.
pub trait Ranked: View + Sized {
    /// Whether `a` comes before `b`.
    spec fn precedes(a: Self::V, b: Self::V) -> bool;

    /// Whether this value comes before `other`.
    fn before(&self, other: &Self) -> (r: bool)
        ensures
            r == Self::precedes(self@, other@),
    ;

    /// Nothing comes before itself, and not coming before is transitive.
    proof fn lemma_weak_order(a: Self::V, b: Self::V, c: Self::V)
        ensures
            !Self::precedes(a, a),
            !Self::precedes(a, b) && !Self::precedes(b, c) ==> !Self::precedes(a, c),
            Self::precedes(a, b) ==> !Self::precedes(b, a),
    ;
}

/// `s` with `x` put behind everything that it does not come before.
pub open spec fn placed<T: Ranked>(s: Seq<T::V>, x: T::V) -> Seq<T::V>
    decreases s.len(),
{
    if s.len() > 0 && T::precedes(x, s.last()) {
        placed::<T>(s.drop_last(), x).push(s.last())
    } else {
        s.push(x)
    }
}

/// `s` in order; what has no order between it stays as it stood.
pub open spec fn sorted<T: Ranked>(s: Seq<T::V>) -> Seq<T::V>
    decreases s.len(),
{
    if s.len() == 0 {
        s
    } else {
        placed::<T>(sorted::<T>(s.drop_last()), s.last())
    }
}

/// Nothing stands behind what it comes before.
pub open spec fn is_sorted<T: Ranked>(s: Seq<T::V>) -> bool {
    forall|i: int, j: int| 0 <= i < j < s.len() ==> !T::precedes(#[trigger] s[j], #[trigger] s[i])
}

/// The values of a vector.
pub open spec fn views<T: View>(s: Seq<T>) -> Seq<T::V> {
    s.map_values(|x: T| x@)
}

proof fn lemma_placed_at<T: Ranked>(s: Seq<T::V>, x: T::V, p: int)
    requires
        0 <= p <= s.len(),
        forall|i: int| p <= i < s.len() ==> T::precedes(x, #[trigger] s[i]),
        p > 0 ==> !T::precedes(x, s[p - 1]),
    ensures
        placed::<T>(s, x) == s.insert(p, x),
    decreases s.len(),
{
    if p == s.len() {
        assert(s.push(x) =~= s.insert(p, x));
    } else {
        assert(T::precedes(x, s[s.len() - 1]));
        lemma_placed_at::<T>(s.drop_last(), x, p);
        assert(s.drop_last().insert(p, x).push(s.last()) =~= s.insert(p, x));
    }
}

proof fn lemma_placed_sorted<T: Ranked>(s: Seq<T::V>, x: T::V)
    requires
        is_sorted::<T>(s),
    ensures
        is_sorted::<T>(placed::<T>(s, x)),
        placed::<T>(s, x).to_multiset() == s.to_multiset().insert(x),
        placed::<T>(s, x).len() == s.len() + 1,
        forall|i: int|
            0 <= i < placed::<T>(s, x).len() ==> (#[trigger] placed::<T>(s, x)[i] == x) || s.contains(
                placed::<T>(s, x)[i],
            ),
    decreases s.len(),
{
    broadcast use vstd::seq_lib::group_to_multiset_ensures;

    let r = placed::<T>(s, x);
    if s.len() > 0 && T::precedes(x, s.last()) {
        let t = s.drop_last();
        assert(is_sorted::<T>(t)) by {
            assert forall|i: int, j: int| 0 <= i < j < t.len() implies !T::precedes(
                #[trigger] t[j],
                #[trigger] t[i],
            ) by {
                assert(!T::precedes(s[j], s[i]));
            }
        }
        lemma_placed_sorted::<T>(t, x);
        let q = placed::<T>(t, x);
        assert(r == q.push(s.last()));
        assert(s =~= t.push(s.last()));
        assert(r.to_multiset() =~= s.to_multiset().insert(x));
        assert forall|i: int, j: int| 0 <= i < j < r.len() implies !T::precedes(
            #[trigger] r[j],
            #[trigger] r[i],
        ) by {
            if j == q.len() {
                if q[i] == x {
                    T::lemma_weak_order(x, s.last(), x);
                } else {
                    assert(t.contains(q[i]));
                    let k = choose|k: int| 0 <= k < t.len() && t[k] == q[i];
                    assert(!T::precedes(s[s.len() - 1], s[k]));
                }
            } else {
                assert(!T::precedes(q[j], q[i]));
            }
        }
        assert forall|i: int| 0 <= i < r.len() implies (#[trigger] r[i] == x) || s.contains(
            r[i],
        ) by {
            if i < q.len() {
                assert(q[i] == x || t.contains(q[i]));
                if q[i] != x {
                    let k = choose|k: int| 0 <= k < t.len() && t[k] == q[i];
                    assert(s[k] == q[i]);
                }
            } else {
                assert(s[s.len() - 1] == r[i]);
            }
        }
    } else {
        assert forall|i: int, j: int| 0 <= i < j < r.len() implies !T::precedes(
            #[trigger] r[j],
            #[trigger] r[i],
        ) by {
            if j == s.len() {
                if i < s.len() - 1 {
                    assert(!T::precedes(s[s.len() - 1], s[i]));
                    T::lemma_weak_order(x, s[s.len() - 1], s[i]);
                }
            } else {
                assert(!T::precedes(s[j], s[i]));
            }
        }
        assert forall|i: int| 0 <= i < r.len() implies (#[trigger] r[i] == x) || s.contains(
            r[i],
        ) by {
            if i < s.len() {
                assert(s[i] == r[i]);
            }
        }
    }
}

/// Sorting puts everything in order and neither drops nor adds anything.
pub proof fn sorting_orders_everything<T: Ranked>(s: Seq<T::V>)
    ensures
        is_sorted::<T>(sorted::<T>(s)),
        sorted::<T>(s).to_multiset() == s.to_multiset(),
        sorted::<T>(s).len() == s.len(),
    decreases s.len(),
{
    broadcast use vstd::seq_lib::group_to_multiset_ensures;

    if s.len() > 0 {
        sorting_orders_everything::<T>(s.drop_last());
        lemma_placed_sorted::<T>(sorted::<T>(s.drop_last()), s.last());
        assert(s =~= s.drop_last().push(s.last()));
    }
}

/// What is left of something in order is in order.
pub proof fn lemma_filter_sorted<T: Ranked>(s: Seq<T::V>, p: spec_fn(T::V) -> bool)
    requires
        is_sorted::<T>(s),
    ensures
        is_sorted::<T>(s.filter(p)),
    decreases s.len(),
{
    reveal(Seq::filter);
    if s.len() > 0 {
        let t = s.drop_last();
        assert forall|i: int, j: int| 0 <= i < j < t.len() implies !T::precedes(
            #[trigger] t[j],
            #[trigger] t[i],
        ) by {
            assert(!T::precedes(s[j], s[i]));
        }
        lemma_filter_sorted::<T>(t, p);
        let f = t.filter(p);
        let g = s.filter(p);
        assert forall|i: int, j: int| 0 <= i < j < g.len() implies !T::precedes(
            #[trigger] g[j],
            #[trigger] g[i],
        ) by {
            if j < f.len() {
                assert(!T::precedes(f[j], f[i]));
            } else {
                assert(f.contains(f[i]));
                t.lemma_filter_contains_rev(p, f[i]);
                let k = choose|k: int| 0 <= k < t.len() && t[k] == f[i];
                assert(!T::precedes(s[s.len() - 1], s[k]));
            }
        }
    }
}

proof fn lemma_filter_placed<T: Ranked>(s: Seq<T::V>, x: T::V, p: spec_fn(T::V) -> bool)
    requires
        is_sorted::<T>(s),
    ensures
        placed::<T>(s, x).filter(p) == (if p(x) {
            placed::<T>(s.filter(p), x)
        } else {
            s.filter(p)
        }),
    decreases s.len(),
{
    reveal(Seq::filter);
    if s.len() > 0 && T::precedes(x, s.last()) {
        let t = s.drop_last();
        assert forall|i: int, j: int| 0 <= i < j < t.len() implies !T::precedes(
            #[trigger] t[j],
            #[trigger] t[i],
        ) by {
            assert(!T::precedes(s[j], s[i]));
        }
        lemma_filter_placed::<T>(t, x, p);
        let q = placed::<T>(t, x);
        assert(q.push(s.last()).drop_last() =~= q);
        if p(s.last()) {
            let f = s.filter(p);
            assert(f == t.filter(p).push(s.last()));
            assert(f.drop_last() =~= t.filter(p));
        }
    } else {
        assert(s.push(x).drop_last() =~= s);
        let f = s.filter(p);
        if f.len() > 0 {
            assert(f.contains(f.last()));
            s.lemma_filter_contains_rev(p, f.last());
            let k = choose|k: int| 0 <= k < s.len() && s[k] == f.last();
            if k < s.len() - 1 {
                assert(!T::precedes(s[s.len() - 1], s[k]));
                T::lemma_weak_order(x, s.last(), s[k]);
            }
        }
    }
}

/// Sorting what is left is the same as leaving it out of what is sorted.
pub proof fn lemma_sorted_filter<T: Ranked>(s: Seq<T::V>, p: spec_fn(T::V) -> bool)
    ensures
        sorted::<T>(s.filter(p)) == sorted::<T>(s).filter(p),
    decreases s.len(),
{
    reveal(Seq::filter);
    if s.len() > 0 {
        let t = s.drop_last();
        lemma_sorted_filter::<T>(t, p);
        sorting_orders_everything::<T>(t);
        lemma_filter_placed::<T>(sorted::<T>(t), s.last(), p);
        if p(s.last()) {
            assert(t.filter(p).push(s.last()).drop_last() =~= t.filter(p));
        }
    }
}

/// Sorts a vector; what has no order between it stays as it stood.
pub fn stable_sort<T: Ranked>(v: Vec<T>) -> (r: Vec<T>)
    ensures
        views(r@) == sorted::<T>(views(v@)),
{
    let ghost all = views(v@);
    let mut v = v;
    let mut rest: Vec<T> = Vec::new();
    // Taken from the back, the values come out of `rest` in their order.
    while v.len() > 0
        invariant
            v.len() + rest.len() == all.len(),
            views(v@) == all.take(v.len() as int),
            forall|k: int|
                0 <= k < rest.len() ==> (#[trigger] rest@[k])@ == all[all.len() - 1 - k],
        decreases v.len(),
    {
        let n: usize = v.len() - 1;
        assert(views(v@)[n as int] == all[n as int]);
        match v.pop() {
            Some(x) => {
                rest.push(x);
            },
            None => {},
        }
        assert(views(v@) =~= all.take(v.len() as int));
    }
    let mut r: Vec<T> = Vec::new();
    assert(all.take(0) =~= Seq::<T::V>::empty());
    assert(views(r@) =~= Seq::<T::V>::empty());
    while rest.len() > 0
        invariant
            rest.len() <= all.len(),
            views(r@) == sorted::<T>(all.take(all.len() - rest.len())),
            forall|k: int|
                0 <= k < rest.len() ==> (#[trigger] rest@[k])@ == all[all.len() - 1 - k],
        decreases rest.len(),
    {
        let ghost m = all.len() - rest.len();
        assert(rest@[rest.len() - 1]@ == all[m]);
        match rest.pop() {
            Some(x) => {
                assert(x@ == all[m]);
                assert(all.take(m + 1).drop_last() =~= all.take(m));
                place(&mut r, x);
            },
            None => {},
        }
    }
    assert(all.take(all.len() as int) =~= all);
    r
}

/// Puts a value behind everything that it does not come before.
fn place<T: Ranked>(r: &mut Vec<T>, x: T)
    ensures
        views(final(r)@) == placed::<T>(views(old(r)@), x@),
{
    let ghost s = views(r@);
    let mut p: usize = r.len();
    while p > 0 && x.before(&r[p - 1])
        invariant
            p <= r.len(),
            s == views(r@),
            forall|i: int| p <= i < s.len() ==> T::precedes(x@, #[trigger] s[i]),
        decreases p,
    {
        assert(s[p - 1] == r@[p - 1]@);
        p -= 1;
    }
    proof {
        if p > 0 {
            assert(s[p - 1] == r@[p - 1]@);
        }
        lemma_placed_at::<T>(s, x@, p as int);
    }
    r.insert(p, x);
    assert(views(r@) =~= s.insert(p as int, x@));
}

/// What is in order already stays as it stands, so that sorting twice changes nothing
/// and what has no order between it keeps the order that it had.
pub proof fn what_is_in_order_stays<T: Ranked>(s: Seq<T::V>)
    requires
        is_sorted::<T>(s),
    ensures
        sorted::<T>(s) == s,
    decreases s.len(),
{
    if s.len() > 0 {
        let t = s.drop_last();
        assert forall|i: int, j: int| 0 <= i < j < t.len() implies !T::precedes(
            #[trigger] t[j],
            #[trigger] t[i],
        ) by {
            assert(!T::precedes(s[j], s[i]));
        }
        what_is_in_order_stays::<T>(t);
        if t.len() > 0 {
            assert(!T::precedes(s[s.len() - 1], s[s.len() - 2]));
        }
        assert(t.push(s.last()) =~= s);
    }
}

} // verus!
