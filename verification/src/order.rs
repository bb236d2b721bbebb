//! Stable sorting, as the store uses it for `ORDER BY`.
//!
//! Rows are ordered by a key; rows with equal keys keep the order in which
//! they are stored.

use vstd::prelude::*;

verus! {

/// A key by which rows are ordered.
pub trait OrderKey: View {
    /// Whether key `a` comes strictly before key `b`.
    spec fn key_lt(a: Self::V, b: Self::V) -> bool;

    fn lt(&self, other: &Self) -> (r: bool)
        ensures
            r == Self::key_lt(self@, other@),
    ;
}

impl OrderKey for i128 {
    open spec fn key_lt(a: i128, b: i128) -> bool {
        a < b
    }

    fn lt(&self, other: &Self) -> (r: bool) {
        *self < *other
    }
}

/// `s` with `x` inserted after the last element whose key is not greater
/// than the key of `x`, scanning from the back.
pub open spec fn sorted_insert<K: OrderKey>(keys: Seq<K::V>, s: Seq<int>, x: int) -> Seq<int>
    decreases s.len(),
{
    if s.len() == 0 {
        seq![x]
    } else if K::key_lt(keys[x], keys[s.last()]) {
        sorted_insert::<K>(keys, s.drop_last(), x).push(s.last())
    } else {
        s.push(x)
    }
}

/// The positions `0..n` ordered by their keys, equal keys in position order.
pub open spec fn stable_order<K: OrderKey>(keys: Seq<K::V>, n: int) -> Seq<int>
    decreases n,
{
    if n <= 0 {
        seq![]
    } else {
        sorted_insert::<K>(keys, stable_order::<K>(keys, n - 1), n - 1)
    }
}

/// The views of a sequence of keys.
pub open spec fn key_views<K: OrderKey>(v: Seq<K>) -> Seq<K::V> {
    v.map_values(|k: K| k@)
}

proof fn lemma_sorted_insert_split<K: OrderKey>(keys: Seq<K::V>, s: Seq<int>, x: int, j: int)
    requires
        0 < j <= s.len(),
        K::key_lt(keys[x], keys[s[j - 1]]),
    ensures
        sorted_insert::<K>(keys, s.take(j), x) == sorted_insert::<K>(keys, s.take(j - 1), x).push(
            s[j - 1],
        ),
{
    assert(s.take(j).drop_last() == s.take(j - 1));
    assert(s.take(j).last() == s[j - 1]);
}

pub proof fn lemma_stable_order_len<K: OrderKey>(keys: Seq<K::V>, n: int)
    requires
        n >= 0,
    ensures
        stable_order::<K>(keys, n).len() == n,
        forall|i: int|
            0 <= i < n ==> 0 <= #[trigger] stable_order::<K>(keys, n)[i] < n,
    decreases n,
{
    if n > 0 {
        lemma_stable_order_len::<K>(keys, n - 1);
        lemma_sorted_insert_len::<K>(keys, stable_order::<K>(keys, n - 1), n - 1, n);
    }
}

proof fn lemma_sorted_insert_len<K: OrderKey>(keys: Seq<K::V>, s: Seq<int>, x: int, n: int)
    requires
        0 <= x < n,
        forall|i: int| 0 <= i < s.len() ==> 0 <= #[trigger] s[i] < n,
    ensures
        sorted_insert::<K>(keys, s, x).len() == s.len() + 1,
        forall|i: int|
            0 <= i < s.len() + 1 ==> 0 <= #[trigger] sorted_insert::<K>(keys, s, x)[i] < n,
    decreases s.len(),
{
    if s.len() > 0 && K::key_lt(keys[x], keys[s.last()]) {
        lemma_sorted_insert_len::<K>(keys, s.drop_last(), x, n);
        let r = sorted_insert::<K>(keys, s.drop_last(), x);
        assert forall|i: int| 0 <= i < s.len() + 1 implies 0 <= #[trigger] r.push(s.last())[i]
            < n by {
            if i < r.len() {
                assert(r.push(s.last())[i] == r[i]);
            }
        }
    } else if s.len() > 0 {
        assert forall|i: int| 0 <= i < s.len() + 1 implies 0 <= #[trigger] s.push(x)[i] < n by {
            if i < s.len() {
                assert(s.push(x)[i] == s[i]);
            }
        }
    }
}

/// The positions of `keys` in stable ascending order of their keys.
pub fn sort_positions<K: OrderKey>(keys: &Vec<K>) -> (r: Vec<usize>)
    ensures
        r@.len() == keys@.len(),
        forall|i: int|
            0 <= i < r@.len() ==> #[trigger] r@[i] as int == stable_order::<K>(
                key_views(keys@),
                keys@.len() as int,
            )[i],
{
    let ghost kv = key_views(keys@);
    let mut v: Vec<usize> = Vec::new();
    let mut i: usize = 0;
    while i < keys.len()
        invariant
            i <= keys.len(),
            kv == key_views(keys@),
            v@.len() == i,
            forall|t: int| 0 <= t < v@.len() ==> (#[trigger] v@[t] as int) < i,
            forall|t: int|
                0 <= t < v@.len() ==> #[trigger] v@[t] as int == stable_order::<K>(kv, i as int)[t],
        decreases keys.len() - i,
    {
        let ghost s = stable_order::<K>(kv, i as int);
        proof {
            lemma_stable_order_len::<K>(kv, i as int);
        }
        v.push(i);
        let mut j: usize = i;
        assert(s.take(i as int) == s);
        assert(sorted_insert::<K>(kv, s, i as int) + s.skip(i as int) == sorted_insert::<K>(kv, s, i as int));
        while j > 0 && keys[i].lt(&keys[v[j - 1]])
            invariant
                0 <= j <= i < keys.len(),
                kv == key_views(keys@),
                s == stable_order::<K>(kv, i as int),
                s.len() == i,
                forall|t: int| 0 <= t < s.len() ==> 0 <= #[trigger] s[t] < i,
                v@.len() == i + 1,
                v@[j as int] == i,
                forall|t: int| 0 <= t < j ==> #[trigger] v@[t] as int == s[t],
                forall|t: int| j < t <= i ==> #[trigger] v@[t] as int == s[t - 1],
                sorted_insert::<K>(kv, s, i as int) == sorted_insert::<K>(kv, s.take(j as int), i as int)
                    + s.skip(j as int),
            decreases j,
        {
            let prev = v[j - 1];
            proof {
                assert(kv[i as int] == keys@[i as int]@);
                assert(kv[prev as int] == keys@[prev as int]@);
                lemma_sorted_insert_split::<K>(kv, s, i as int, j as int);
                assert(s.skip(j - 1) == seq![s[j - 1]] + s.skip(j as int));
                assert(sorted_insert::<K>(kv, s.take(j - 1), i as int).push(s[j - 1]) + s.skip(j as int)
                    == sorted_insert::<K>(kv, s.take(j - 1), i as int) + s.skip(j - 1));
            }
            v.set(j - 1, i);
            v.set(j, prev);
            j = j - 1;
        }
        proof {
            if j > 0 {
                assert(kv[i as int] == keys@[i as int]@);
                assert(kv[v@[j - 1] as int] == keys@[v@[j - 1] as int]@);
                assert(s.take(j as int).last() == s[j - 1]);
                assert(sorted_insert::<K>(kv, s.take(j as int), i as int) == s.take(j as int).push(i as int));
            } else {
                assert(s.take(0).len() == 0);
            }
            let r = sorted_insert::<K>(kv, s, i as int);
            assert(r == s.take(j as int).push(i as int) + s.skip(j as int));
            assert(stable_order::<K>(kv, i + 1) == r);
            assert forall|t: int| 0 <= t < v@.len() implies #[trigger] v@[t] as int == r[t] by {
                if t < j {
                } else if t == j {
                } else {
                }
            }
            assert forall|t: int| 0 <= t < v@.len() implies (#[trigger] v@[t] as int) < i + 1 by {
                if t == j {
                } else if t < j {
                    assert(s[t] < i);
                } else {
                    assert(s[t - 1] < i);
                }
            }
        }
        i = i + 1;
    }
    v
}

proof fn lemma_sorted_insert_contains<K: OrderKey>(keys: Seq<K::V>, s: Seq<int>, x: int)
    ensures
        sorted_insert::<K>(keys, s, x).contains(x),
        forall|y: int| s.contains(y) ==> sorted_insert::<K>(keys, s, x).contains(y),
    decreases s.len(),
{
    if s.len() == 0 {
        assert(seq![x][0] == x);
    } else if K::key_lt(keys[x], keys[s.last()]) {
        let t = s.drop_last();
        lemma_sorted_insert_contains::<K>(keys, t, x);
        let r = sorted_insert::<K>(keys, t, x);
        let out = r.push(s.last());
        assert(out == sorted_insert::<K>(keys, s, x));
        let jx = choose|j: int| 0 <= j < r.len() && r[j] == x;
        assert(out[jx] == x);
        assert forall|y: int| s.contains(y) implies out.contains(y) by {
            let i = choose|i: int| 0 <= i < s.len() && s[i] == y;
            if i == s.len() - 1 {
                assert(out[r.len() as int] == y);
            } else {
                assert(t[i] == y);
                assert(t.contains(y));
                let j = choose|j: int| 0 <= j < r.len() && r[j] == y;
                assert(out[j] == y);
            }
        }
    } else {
        let out = s.push(x);
        assert(out[s.len() as int] == x);
        assert forall|y: int| s.contains(y) implies out.contains(y) by {
            let i = choose|i: int| 0 <= i < s.len() && s[i] == y;
            assert(out[i] == y);
        }
    }
}

/// Every position `0..n` occurs in the stable order of `n` keys.
pub proof fn lemma_stable_order_covers<K: OrderKey>(keys: Seq<K::V>, n: int)
    requires
        n >= 0,
    ensures
        forall|j: int| 0 <= j < n ==> #[trigger] stable_order::<K>(keys, n).contains(j),
    decreases n,
{
    if n > 0 {
        lemma_stable_order_covers::<K>(keys, n - 1);
        let prev = stable_order::<K>(keys, n - 1);
        lemma_sorted_insert_contains::<K>(keys, prev, n - 1);
        assert(stable_order::<K>(keys, n) == sorted_insert::<K>(keys, prev, n - 1));
        assert forall|j: int| 0 <= j < n implies #[trigger] stable_order::<K>(keys, n).contains(j) by {
            if j < n - 1 {
                assert(prev.contains(j));
            }
        }
    }
}

} // verus!

