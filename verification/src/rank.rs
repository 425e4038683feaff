//! Ranking and choosing: lists put in the order of a key, records of equal keys
//! in the order in which they came, and the records that meet a condition.

use crate::text::views;
use vstd::prelude::*;

verus! {

/// A key: compared by its first part, then by its second.
pub type Key = (int, int);

pub open spec fn key_lt(a: Key, b: Key) -> bool {
    a.0 < b.0 || (a.0 == b.0 && a.1 < b.1)
}

/// Where the `k`th record belongs in an order of earlier ones: before the first
/// with a greater key.
pub open spec fn place(order: Seq<int>, keys: Seq<Key>, k: int, from: int) -> int
    decreases order.len() - from,
{
    if from < 0 || from >= order.len() || key_lt(keys[k], keys[order[from]]) {
        from
    } else {
        place(order, keys, k, from + 1)
    }
}

/// The places of the first `n` records, in the order of their keys.
pub open spec fn order_first(keys: Seq<Key>, n: int) -> Seq<int>
    decreases n,
{
    if n <= 0 {
        Seq::empty()
    } else {
        let o = order_first(keys, n - 1);
        o.insert(place(o, keys, n - 1, 0), n - 1)
    }
}

/// The places of all records, in the order of their keys.
pub open spec fn order_of(keys: Seq<Key>) -> Seq<int> {
    order_first(keys, keys.len() as int)
}

/// The records at these places.
pub open spec fn picked<V>(s: Seq<V>, order: Seq<int>) -> Seq<V> {
    order.map_values(|i: int| s[i])
}

/// The records in the order of a key.
pub open spec fn ranked<V>(s: Seq<V>, key: spec_fn(V) -> Key) -> Seq<V> {
    picked(s, order_of(s.map_values(key)))
}

/// Whether `o` lists the places below `n`, each once, by key, and equal keys
/// by place.
pub open spec fn is_order(keys: Seq<Key>, o: Seq<int>, n: int) -> bool {
    &&& o.len() == n
    &&& forall|a: int| 0 <= a < o.len() ==> 0 <= #[trigger] o[a] < n
    &&& forall|a: int, b: int|
        0 <= a < b < o.len() ==> #[trigger] o[a] != #[trigger] o[b] && (key_lt(
            keys[o[a]],
            keys[o[b]],
        ) || (keys[o[a]] == keys[o[b]] && o[a] < o[b]))
}

pub proof fn lemma_place(order: Seq<int>, keys: Seq<Key>, k: int, from: int)
    requires
        0 <= from <= order.len(),
    ensures
        from <= place(order, keys, k, from) <= order.len(),
        forall|j: int|
            from <= j < place(order, keys, k, from) ==> !key_lt(keys[k], keys[#[trigger] order[j]]),
        place(order, keys, k, from) < order.len() ==> key_lt(
            keys[k],
            keys[order[place(order, keys, k, from)]],
        ),
    decreases order.len() - from,
{
    if from < order.len() && !key_lt(keys[k], keys[order[from]]) {
        lemma_place(order, keys, k, from + 1);
    }
}

pub proof fn lemma_order_first(keys: Seq<Key>, n: int)
    requires
        0 <= n <= keys.len(),
    ensures
        is_order(keys, order_first(keys, n), n),
    decreases n,
{
    if n > 0 {
        lemma_order_first(keys, n - 1);
        let o = order_first(keys, n - 1);
        let p = place(o, keys, n - 1, 0);
        lemma_place(o, keys, n - 1, 0);
        let r = o.insert(p, n - 1);
        assert forall|a: int| 0 <= a < r.len() implies 0 <= #[trigger] r[a] < n by {
            if a < p {
                assert(r[a] == o[a]);
            } else if a > p {
                assert(r[a] == o[a - 1]);
            }
        }
        assert forall|a: int, b: int| 0 <= a < b < r.len() implies #[trigger] r[a] != #[trigger] r[b]
            && (key_lt(keys[r[a]], keys[r[b]]) || (keys[r[a]] == keys[r[b]] && r[a] < r[b])) by {
            if b < p {
                assert(r[a] == o[a] && r[b] == o[b]);
            } else if b == p {
                assert(r[a] == o[a]);
                assert(!key_lt(keys[n - 1], keys[o[a]]));
            } else if a > p {
                assert(r[a] == o[a - 1] && r[b] == o[b - 1]);
            } else if a == p {
                assert(r[b] == o[b - 1]);
                if b - 1 > p {
                    assert(o[p] != o[b - 1]);
                }
            } else {
                assert(r[a] == o[a] && r[b] == o[b - 1]);
                assert(o[a] != o[b - 1]);
            }
        }
    }
}

/// Every place below `n` is among the places of the first `n` records.
pub proof fn lemma_order_holds(keys: Seq<Key>, n: int)
    requires
        0 <= n <= keys.len(),
    ensures
        forall|i: int| 0 <= i < n ==> #[trigger] order_first(keys, n).contains(i),
    decreases n,
{
    if n > 0 {
        lemma_order_holds(keys, n - 1);
        let o = order_first(keys, n - 1);
        let p = place(o, keys, n - 1, 0);
        lemma_place(o, keys, n - 1, 0);
        let r = o.insert(p, n - 1);
        assert forall|i: int| 0 <= i < n implies #[trigger] r.contains(i) by {
            if i == n - 1 {
                assert(r[p] == i);
            } else {
                assert(o.contains(i));
                let k = o.index_of(i);
                assert(r[if k < p { k } else { k + 1 }] == i);
            }
        }
    }
}

/// Whether a list holds two records at places of their own.
pub open spec fn holds_both<V>(s: Seq<V>, x: V, y: V) -> bool {
    exists|i: int, j: int|
        0 <= i < s.len() && 0 <= j < s.len() && i != j && #[trigger] s[i] == x && #[trigger] s[j]
            == y
}

/// A ranking holds the records that it was made of: one record of the ranking
/// for each place, and no two for the same.
pub proof fn lemma_ranked<V>(s: Seq<V>, key: spec_fn(V) -> Key)
    ensures
        ranked(s, key).len() == s.len(),
        forall|x: V| #[trigger] ranked(s, key).contains(x) <==> s.contains(x),
        forall|a: int, b: int|
            0 <= a < b < s.len() ==> holds_both(
                s,
                #[trigger] ranked(s, key)[a],
                #[trigger] ranked(s, key)[b],
            ),
{
    let keys = s.map_values(key);
    let o = order_of(keys);
    let r = ranked(s, key);
    law_ranking_is_stable(keys);
    lemma_order_holds(keys, keys.len() as int);
    assert forall|x: V| #[trigger] r.contains(x) <==> s.contains(x) by {
        if r.contains(x) {
            let a = r.index_of(x);
            assert(r[a] == s[o[a]]);
        }
        if s.contains(x) {
            let i = s.index_of(x);
            assert(o.contains(i));
            assert(r[o.index_of(i)] == x);
        }
    }
    assert forall|a: int, b: int| 0 <= a < b < s.len() implies holds_both(
        s,
        #[trigger] r[a],
        #[trigger] r[b],
    ) by {
        assert(o[a] != o[b]);
        assert(r[a] == s[o[a]] && r[b] == s[o[b]]);
    }
}

/// A ranking holds every record once, none after one with a greater key, and
/// records of equal keys as they came.
pub proof fn law_ranking_is_stable(keys: Seq<Key>)
    ensures
        is_order(keys, order_of(keys), keys.len() as int),
{
    lemma_order_first(keys, keys.len() as int);
}

/// No record of a ranking comes after one with a greater key.
pub proof fn lemma_ranked_order<V>(s: Seq<V>, key: spec_fn(V) -> Key)
    ensures
        forall|a: int, b: int|
            0 <= a < b < s.len() ==> !key_lt(
                key(#[trigger] ranked(s, key)[b]),
                key(#[trigger] ranked(s, key)[a]),
            ),
{
    let keys = s.map_values(key);
    let o = order_of(keys);
    let r = ranked(s, key);
    law_ranking_is_stable(keys);
    assert forall|a: int, b: int| 0 <= a < b < s.len() implies !key_lt(
        key(#[trigger] r[b]),
        key(#[trigger] r[a]),
    ) by {
        assert(o[a] != o[b]);
        assert(r[a] == s[o[a]] && r[b] == s[o[b]]);
        assert(keys[o[a]] == key(s[o[a]]) && keys[o[b]] == key(s[o[b]]));
    }
}

/// A ranking of records that differ holds no record twice.
pub proof fn lemma_ranked_once<V>(s: Seq<V>, key: spec_fn(V) -> Key)
    ensures
        s.no_duplicates() ==> ranked(s, key).no_duplicates(),
{
    if s.no_duplicates() {
        let r = ranked(s, key);
        lemma_ranked(s, key);
        assert forall|a: int, b: int| 0 <= a < r.len() && 0 <= b < r.len() && a != b implies r[a]
            != r[b] by {
            if a < b {
                assert(holds_both(s, r[a], r[b]));
            } else {
                assert(holds_both(s, r[b], r[a]));
            }
        }
    }
}

/// The keys as they are compared.
pub open spec fn key_ints(keys: Seq<(i128, u128)>) -> Seq<Key> {
    keys.map_values(|k: (i128, u128)| (k.0 as int, k.1 as int))
}

/// The order of a list of keys.
pub fn order_by(keys: &Vec<(i128, u128)>) -> (r: Vec<usize>)
    ensures
        r@.map_values(|i: usize| i as int) == order_of(key_ints(keys@)),
        forall|j: int| 0 <= j < r@.len() ==> #[trigger] r@[j] < keys@.len(),
        r@.len() == keys@.len(),
{
    let ghost ks = key_ints(keys@);
    let mut order: Vec<usize> = Vec::new();
    let mut n: usize = 0;
    proof {
        assert(order@.map_values(|i: usize| i as int) =~= Seq::<int>::empty());
    }
    while n < keys.len()
        invariant
            n <= keys@.len(),
            ks == key_ints(keys@),
            order@.map_values(|i: usize| i as int) == order_first(ks, n as int),
        decreases keys@.len() - n,
    {
        let ghost o = order_first(ks, n as int);
        proof {
            lemma_order_first(ks, n as int);
            assert forall|j: int| 0 <= j < order@.len() implies #[trigger] order@[j] < n by {
                assert(o[j] == order@[j]);
            }
        }
        let mut p: usize = 0;
        while p < order.len() && !(keys[n].0 < keys[order[p]].0 || (keys[n].0
            == keys[order[p]].0 && keys[n].1 < keys[order[p]].1))
            invariant
                n < keys@.len(),
                p <= order@.len(),
                ks == key_ints(keys@),
                o == order_first(ks, n as int),
                is_order(ks, o, n as int),
                order@.map_values(|i: usize| i as int) == o,
                forall|j: int| 0 <= j < order@.len() ==> #[trigger] order@[j] < n,
                place(o, ks, n as int, 0) == place(o, ks, n as int, p as int),
            decreases order@.len() - p,
        {
            proof {
                assert(o[p as int] == order@[p as int]);
            }
            p += 1;
        }
        proof {
            if p < order@.len() {
                assert(o[p as int] == order@[p as int]);
            }
            assert(place(o, ks, n as int, 0) == p);
        }
        let ghost before = order@;
        order.insert(p, n);
        proof {
            assert(order@.map_values(|i: usize| i as int) =~= o.insert(p as int, n as int));
        }
        n += 1;
    }
    proof {
        lemma_order_first(ks, keys@.len() as int);
        assert forall|j: int| 0 <= j < order@.len() implies #[trigger] order@[j] < keys@.len() by {
            assert(order_of(ks)[j] == order@[j]);
        }
    }
    order
}

/// Copies of the records at these places.
pub fn pick<T: View + Clone>(v: &Vec<T>, order: &Vec<usize>) -> (r: Vec<T>)
    requires
        forall|a: T, b: T| #[trigger] cloned::<T>(a, b) ==> a@ == b@,
        forall|j: int| 0 <= j < order@.len() ==> #[trigger] order@[j] < v@.len(),
    ensures
        views(r@) == picked(views(v@), order@.map_values(|i: usize| i as int)),
{
    let mut r: Vec<T> = Vec::new();
    let mut j: usize = 0;
    while j < order.len()
        invariant
            j <= order@.len(),
            r@.len() == j,
            forall|a: T, b: T| #[trigger] cloned::<T>(a, b) ==> a@ == b@,
            forall|k: int| 0 <= k < order@.len() ==> #[trigger] order@[k] < v@.len(),
            forall|k: int| 0 <= k < j ==> (#[trigger] r@[k])@ == v@[order@[k] as int]@,
        decreases order@.len() - j,
    {
        let x = v[order[j]].clone();
        proof {
            assert(cloned::<T>(v@[order@[j as int] as int], x));
        }
        r.push(x);
        j += 1;
    }
    proof {
        assert(views(r@) =~= picked(views(v@), order@.map_values(|i: usize| i as int)));
    }
    r
}

/// What a condition keeps of one more record.
pub proof fn lemma_filter_step<V>(s: Seq<V>, i: int, keep: spec_fn(V) -> bool)
    requires
        0 <= i < s.len(),
    ensures
        s.take(i + 1).filter(keep) == if keep(s[i]) {
            s.take(i).filter(keep).push(s[i])
        } else {
            s.take(i).filter(keep)
        },
{
    reveal(Seq::filter);
    let t = s.take(i + 1);
    assert(t.drop_last() =~= s.take(i));
    assert(t.last() == s[i]);
}

/// What a condition keeps of no record, and of all of them.
pub proof fn lemma_filter_ends<V>(s: Seq<V>, keep: spec_fn(V) -> bool)
    ensures
        s.take(0).filter(keep) == Seq::<V>::empty(),
        s.take(s.len() as int).filter(keep) == s.filter(keep),
{
    reveal(Seq::filter);
    assert(s.take(0) =~= Seq::empty());
    assert(s.take(s.len() as int) =~= s);
}

/// One record is kept more or less often than any other: what was kept was
/// there, and was to be kept.
pub proof fn lemma_filter_members<V>(s: Seq<V>, keep: spec_fn(V) -> bool)
    ensures
        s.filter(keep).len() <= s.len(),
        forall|k: int|
            0 <= k < s.filter(keep).len() ==> keep(#[trigger] s.filter(keep)[k]) && s.contains(
                s.filter(keep)[k],
            ),
    decreases s.len(),
{
    reveal(Seq::filter);
    if s.len() > 0 {
        lemma_filter_members(s.drop_last(), keep);
        let f = s.filter(keep);
        let g = s.drop_last().filter(keep);
        assert forall|k: int| 0 <= k < f.len() implies keep(#[trigger] f[k]) && s.contains(
            f[k],
        ) by {
            if k < g.len() {
                assert(f[k] == g[k]);
                assert(s.drop_last().contains(g[k]));
                let j = s.drop_last().index_of(g[k]);
                assert(s[j] == f[k]);
            } else {
                assert(f[k] == s.last());
                assert(s[s.len() - 1] == f[k]);
            }
        }
    }
}

/// A condition keeps what was there and meets it, each record as often as it
/// was there, and in the order in which it came.
pub proof fn lemma_filter_keeps<V>(s: Seq<V>, keep: spec_fn(V) -> bool)
    ensures
        forall|x: V| #[trigger] s.filter(keep).contains(x) <==> s.contains(x) && keep(x),
        s.no_duplicates() ==> s.filter(keep).no_duplicates(),
        (forall|i: int| 0 <= i < s.len() ==> keep(#[trigger] s[i])) ==> s.filter(keep) == s,
    decreases s.len(),
{
    reveal(Seq::filter);
    if s.len() > 0 {
        let d = s.drop_last();
        lemma_filter_keeps(d, keep);
        let f = s.filter(keep);
        let g = d.filter(keep);
        assert forall|x: V| #[trigger] f.contains(x) <==> s.contains(x) && keep(x) by {
            if s.contains(x) && keep(x) {
                let i = s.index_of(x);
                if i < d.len() {
                    assert(d[i] == x);
                    assert(g.contains(x));
                    assert(f[g.index_of(x)] == x);
                } else {
                    assert(f[g.len() as int] == x);
                }
            }
            if f.contains(x) {
                let k = f.index_of(x);
                if k < g.len() {
                    assert(g[k] == x);
                    assert(g.contains(x));
                    assert(s[d.index_of(x)] == x);
                } else {
                    assert(s[s.len() - 1] == x);
                }
            }
        }
        if s.no_duplicates() {
            assert(d.no_duplicates());
            assert(!g.contains(s.last()));
            assert forall|a: int, b: int| 0 <= a < f.len() && 0 <= b < f.len() && a != b implies f[a]
                != f[b] by {
                if a == g.len() {
                    assert(g[b] == f[b]);
                    assert(g.contains(f[b]));
                } else if b == g.len() {
                    assert(g[a] == f[a]);
                    assert(g.contains(f[a]));
                } else {
                    assert(g[a] == f[a] && g[b] == f[b]);
                }
            }
        }
        if forall|i: int| 0 <= i < s.len() ==> keep(#[trigger] s[i]) {
            assert forall|i: int| 0 <= i < d.len() implies keep(#[trigger] d[i]) by {
                assert(s[i] == d[i]);
            }
            assert(keep(s[s.len() - 1]));
            assert(f =~= s);
        }
    } else {
        assert(s.filter(keep) =~= s);
    }
}

} // verus!
