//! Stable sorting.

use vstd::prelude::*;

verus! {

/// A type with a ranking: a total order in which distinct values may tie.
pub trait Ranked: Sized {
    /// Whether this value ranks strictly before the other.
    spec fn lt(&self, other: &Self) -> bool;

    /// No two values rank strictly before each other.
    proof fn lt_asymmetric(a: &Self, b: &Self)
        requires
            a.lt(b),
        ensures
            !b.lt(a),
    ;

    /// Ranking no later is transitive.
    proof fn le_transitive(a: &Self, b: &Self, c: &Self)
        requires
            !b.lt(a),
            !c.lt(b),
        ensures
            !c.lt(a),
    ;

    fn precedes(&self, other: &Self) -> (r: bool)
        ensures
            r == self.lt(other),
    ;
}

/// Whether `b` lists the items of `a` at the positions `p`, each once, by rank
/// and where the rank ties by position.
pub open spec fn ordered_by<T: Ranked>(a: Seq<T>, b: Seq<T>, p: Seq<int>) -> bool {
    &&& p.len() == a.len()
    &&& b.len() == a.len()
    &&& forall|k: int| 0 <= k < p.len() ==> 0 <= #[trigger] p[k] < a.len() && b[k] == a[p[k]]
    &&& forall|i: int, j: int|
        #![trigger b[i], b[j]]
        0 <= i < j < p.len() ==> b[i].lt(&b[j]) || (!b[j].lt(&b[i]) && p[i]
            < p[j])
}

/// Whether `b` is `a` sorted by rank, with items of equal rank left in order.
pub open spec fn sorted_from<T: Ranked>(a: Seq<T>, b: Seq<T>) -> bool {
    exists|p: Seq<int>| #[trigger] ordered_by(a, b, p)
}

/// Sorts by rank and leaves items of equal rank in order.
pub fn sort<T: Ranked>(v: &mut Vec<T>)
    ensures
        sorted_from(old(v)@, final(v)@),
{
    let ghost a = v@;
    let ghost mut p = Seq::new(a.len(), |k: int| k);
    let n: usize = v.len();
    let mut i: usize = 0;
    while i < n
        invariant
            i <= n,
            n == a.len(),
            v@.len() == n,
            p.len() == n,
            forall|k: int| 0 <= k < n ==> 0 <= #[trigger] p[k] < n && v@[k] == a[p[k]],
            forall|k: int| i <= k < n ==> #[trigger] p[k] == k,
            forall|k: int| 0 <= k < i ==> #[trigger] p[k] < i,
            forall|x: int, y: int|
                #![trigger v@[x], v@[y]]
                0 <= x < y < i ==> v@[x].lt(&v@[y]) || (!v@[y].lt(&v@[x])
                    && p[x] < p[y]),
        decreases n - i,
    {
        let mut j: usize = i;
        while j > 0 && v[i].precedes(&v[j - 1])
            invariant
                j <= i < n,
                v@.len() == n,
                forall|k: int| #![trigger v@[k]] j <= k < i ==> v@[i as int].lt(&v@[k]),
            decreases j,
        {
            j -= 1;
        }
        let ghost before = v@;
        let ghost q = p;
        let x = v.remove(i);
        v.insert(j, x);
        proof {
            p = q.remove(i as int).insert(j as int, q[i as int]);
            assert forall|k: int| #![trigger before[k]] 0 <= k < j implies !x.lt(&before[k]) by {
                if k < j - 1 {
                    assert(before[k].lt(&before[j - 1]) || !before[j - 1].lt(&before[k]));
                    if before[k].lt(&before[j - 1]) {
                        T::lt_asymmetric(&before[k], &before[j - 1]);
                    }
                    T::le_transitive(&before[k], &before[j - 1], &x);
                }
            }
            assert forall|k: int| 0 <= k < n implies v@[k] == (if k < j || k > i {
                before[k]
            } else if k == j {
                x
            } else {
                before[k - 1]
            }) by {}
            assert forall|k: int| 0 <= k < n implies #[trigger] p[k] == (if k < j || k > i {
                q[k]
            } else if k == j {
                i as int
            } else {
                q[k - 1]
            }) by {}
            assert forall|y: int, z: int|
                #![trigger v@[y], v@[z]]
                0 <= y < z < i + 1 implies v@[y].lt(&v@[z]) || (!v@[z].lt(&v@[y]) && p[y] < p[z]) by {
                if y < j && z < j {
                    assert(before[y].lt(&before[z]) || (!before[z].lt(&before[y]) && q[y] < q[z]));
                } else if y < j && z == j {
                    assert(!x.lt(&before[y]));
                    assert(q[y] < i);
                } else if y < j {
                    assert(before[y].lt(&before[z - 1]) || (!before[z - 1].lt(&before[y]) && q[y]
                        < q[z - 1]));
                } else if y == j {
                    assert(x.lt(&before[z - 1]));
                } else {
                    assert(before[y - 1].lt(&before[z - 1]) || (!before[z - 1].lt(&before[y - 1])
                        && q[y - 1] < q[z - 1]));
                }
            }
        }
        i += 1;
    }
    proof {
        assert(ordered_by(a, v@, p));
    }
}

/// Whether `b` lists the items of `a` at the positions `p`, in the order that
/// `before` gives and where it ties by position.
pub open spec fn arranged_by<V>(
    a: Seq<V>,
    b: Seq<V>,
    p: Seq<int>,
    before: spec_fn(V, V) -> bool,
) -> bool {
    &&& p.len() == a.len()
    &&& b.len() == a.len()
    &&& forall|k: int| 0 <= k < p.len() ==> 0 <= #[trigger] p[k] < a.len() && b[k] == a[p[k]]
    &&& forall|i: int, j: int|
        #![trigger b[i], b[j]]
        0 <= i < j < p.len() ==> before(b[i], b[j]) || (!before(b[j], b[i]) && p[i] < p[j])
}

/// Whether `b` is `a` sorted by `before`, with items that tie left in order.
pub open spec fn arranged<V>(a: Seq<V>, b: Seq<V>, before: spec_fn(V, V) -> bool) -> bool {
    exists|p: Seq<int>| #[trigger] arranged_by(a, b, p, before)
}

/// Sorting values sorts their views, where the rank is a matter of the view.
pub proof fn lemma_sorted_views<T: Ranked + View>(
    a: Seq<T>,
    b: Seq<T>,
    before: spec_fn(T::V, T::V) -> bool,
)
    requires
        sorted_from(a, b),
        forall|x: T, y: T| #[trigger] x.lt(&y) == before(x@, y@),
    ensures
        arranged(crate::text::views(a), crate::text::views(b), before),
{
    let p = choose|p: Seq<int>| #[trigger] ordered_by(a, b, p);
    let va = crate::text::views(a);
    let vb = crate::text::views(b);
    assert forall|i: int, j: int|
        #![trigger vb[i], vb[j]]
        0 <= i < j < p.len() implies before(vb[i], vb[j]) || (!before(vb[j], vb[i]) && p[i]
        < p[j]) by {
        assert(b[i].lt(&b[j]) || (!b[j].lt(&b[i]) && p[i] < p[j]));
        assert(vb[i] == b[i]@ && vb[j] == b[j]@);
    }
    assert(arranged_by(va, vb, p, before));
}

/// Sorting leaves the number of items and the items themselves.
pub proof fn law_sorted_same_items<T: Ranked>(a: Seq<T>, b: Seq<T>)
    requires
        sorted_from(a, b),
    ensures
        b.len() == a.len(),
        forall|k: int| 0 <= k < b.len() ==> a.contains(#[trigger] b[k]),
{
    let p = choose|p: Seq<int>| #[trigger] ordered_by(a, b, p);
    assert forall|k: int| 0 <= k < b.len() implies a.contains(#[trigger] b[k]) by {
        assert(b[k] == a[p[k]]);
    }
}

/// Lexicographic order of texts, by code point.
pub open spec fn text_lt(a: Seq<char>, b: Seq<char>) -> bool
    decreases a.len(),
{
    if b.len() == 0 {
        false
    } else if a.len() == 0 {
        true
    } else if a[0] != b[0] {
        a[0] < b[0]
    } else {
        text_lt(a.drop_first(), b.drop_first())
    }
}

/// Coming no later is transitive.
pub proof fn lemma_text_le_transitive(a: Seq<char>, b: Seq<char>, c: Seq<char>)
    requires
        !text_lt(b, a),
        !text_lt(c, b),
    ensures
        !text_lt(c, a),
    decreases a.len(),
{
    if a.len() > 0 && b.len() > 0 && c.len() > 0 && a[0] == b[0] && b[0] == c[0] {
        lemma_text_le_transitive(a.drop_first(), b.drop_first(), c.drop_first());
    }
}

fn char_precedes(c: char, d: char) -> (r: bool)
    ensures
        r == (c < d),
{
    (c as u32) < (d as u32)
}

/// Whether one text comes before the other.
pub fn text_precedes(a: &str, b: &str) -> (r: bool)
    ensures
        r == text_lt(a@, b@),
{
    let x = crate::text::chars_of(a);
    let y = crate::text::chars_of(b);
    let mut i: usize = 0;
    proof {
        assert(a@.skip(0) =~= a@);
        assert(b@.skip(0) =~= b@);
    }
    while i < x.len() && i < y.len()
        invariant
            x@ == a@,
            y@ == b@,
            i <= x.len(),
            i <= y.len(),
            text_lt(a@, b@) == text_lt(a@.skip(i as int), b@.skip(i as int)),
        decreases x.len() - i,
    {
        if x[i] != y[i] {
            return char_precedes(x[i], y[i]);
        }
        proof {
            assert(a@.skip(i as int).drop_first() =~= a@.skip(i + 1));
            assert(b@.skip(i as int).drop_first() =~= b@.skip(i + 1));
        }
        i += 1;
    }
    i < y.len()
}

} // verus!
