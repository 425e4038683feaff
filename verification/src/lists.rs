//! Lists of records: choosing, counting, ranking and writing them out.

use crate::rank::{key_ints, lemma_filter_ends, lemma_filter_step, order_by, pick, ranked, Key};
use crate::text::{lemma_part_self, lemma_part_within, part_of, views};
use vstd::prelude::*;

verus! {

/// The first records of a list, `n` at most.
pub open spec fn first<V>(s: Seq<V>, n: int) -> Seq<V> {
    if n < s.len() {
        s.take(n)
    } else {
        s
    }
}

/// A page of a list: at most `limit` records from `offset` on.
pub open spec fn page<V>(s: Seq<V>, offset: int, limit: int) -> Seq<V> {
    if offset >= s.len() {
        Seq::empty()
    } else {
        first(s.skip(offset), limit)
    }
}

/// What is written of each record, one after the other.
pub open spec fn written<V>(s: Seq<V>, line: spec_fn(V) -> Seq<char>) -> Seq<char>
    decreases s.len(),
{
    if s.len() == 0 {
        Seq::empty()
    } else {
        written(s.drop_last(), line) + line(s.last())
    }
}

/// A list that is written out holds what is written of each record.
pub proof fn lemma_written_holds<V>(s: Seq<V>, line: spec_fn(V) -> Seq<char>, i: int)
    requires
        0 <= i < s.len(),
    ensures
        part_of(line(s[i]), written(s, line)),
    decreases s.len(),
{
    let rest = written(s.drop_last(), line);
    let none = Seq::<char>::empty();
    if i == s.len() - 1 {
        lemma_part_self(line(s[i]));
        lemma_part_within(line(s[i]), rest, line(s[i]), none);
        assert(written(s, line) =~= rest + line(s[i]) + none);
    } else {
        lemma_written_holds(s.drop_last(), line, i);
        lemma_part_within(line(s[i]), none, rest, line(s.last()));
        assert(written(s, line) =~= none + rest + line(s.last()));
    }
}

/// Where the first record that meets a condition is, at or after `from`.
pub open spec fn first_place<V>(s: Seq<V>, cond: spec_fn(V) -> bool, from: int) -> int
    decreases s.len() - from,
{
    if from < 0 || from >= s.len() || cond(s[from]) {
        from
    } else {
        first_place(s, cond, from + 1)
    }
}

/// The records that meet a condition.
pub fn select<T: View + Clone, F: Fn(&T) -> bool>(
    v: &Vec<T>,
    f: F,
    Ghost(keep): Ghost<spec_fn(T::V) -> bool>,
) -> (r: Vec<T>)
    requires
        forall|a: T, b: T| #[trigger] cloned::<T>(a, b) ==> a@ == b@,
        forall|x: &T| #[trigger] call_requires(f, (x,)),
        forall|x: &T, b: bool| #[trigger] call_ensures(f, (x,), b) ==> b == keep(x@),
    ensures
        views(r@) == views(v@).filter(keep),
{
    let ghost s = views(v@);
    let mut out: Vec<T> = Vec::new();
    let mut i: usize = 0;
    proof {
        lemma_filter_ends(s, keep);
        assert(views(out@) =~= Seq::empty());
    }
    while i < v.len()
        invariant
            i <= v@.len(),
            s == views(v@),
            views(out@) == s.take(i as int).filter(keep),
            forall|a: T, b: T| #[trigger] cloned::<T>(a, b) ==> a@ == b@,
            forall|x: &T| #[trigger] call_requires(f, (x,)),
            forall|x: &T, b: bool| #[trigger] call_ensures(f, (x,), b) ==> b == keep(x@),
        decreases v@.len() - i,
    {
        broadcast use crate::text::lemma_views_push;

        proof {
            lemma_filter_step(s, i as int, keep);
            assert(s[i as int] == v@[i as int]@);
        }
        if f(&v[i]) {
            let x = v[i].clone();
            proof {
                assert(cloned::<T>(v@[i as int], x));
            }
            out.push(x);
        }
        i += 1;
    }
    proof {
        lemma_filter_ends(s, keep);
    }
    out
}

/// How many records meet a condition.
pub fn count<T: View, F: Fn(&T) -> bool>(
    v: &Vec<T>,
    f: F,
    Ghost(keep): Ghost<spec_fn(T::V) -> bool>,
) -> (r: usize)
    requires
        forall|x: &T| #[trigger] call_requires(f, (x,)),
        forall|x: &T, b: bool| #[trigger] call_ensures(f, (x,), b) ==> b == keep(x@),
    ensures
        r == views(v@).filter(keep).len(),
        r <= v@.len(),
{
    let ghost s = views(v@);
    let mut n: usize = 0;
    let mut i: usize = 0;
    proof {
        lemma_filter_ends(s, keep);
    }
    while i < v.len()
        invariant
            n <= i <= v@.len(),
            s == views(v@),
            n == s.take(i as int).filter(keep).len(),
            forall|x: &T| #[trigger] call_requires(f, (x,)),
            forall|x: &T, b: bool| #[trigger] call_ensures(f, (x,), b) ==> b == keep(x@),
        decreases v@.len() - i,
    {
        proof {
            lemma_filter_step(s, i as int, keep);
            assert(s[i as int] == v@[i as int]@);
        }
        if f(&v[i]) {
            n += 1;
        }
        i += 1;
    }
    proof {
        lemma_filter_ends(s, keep);
    }
    n
}

/// Where the first record that meets a condition is.
pub fn find<T: View, F: Fn(&T) -> bool>(
    v: &Vec<T>,
    f: F,
    Ghost(cond): Ghost<spec_fn(T::V) -> bool>,
) -> (r: Option<usize>)
    requires
        forall|x: &T| #[trigger] call_requires(f, (x,)),
        forall|x: &T, b: bool| #[trigger] call_ensures(f, (x,), b) ==> b == cond(x@),
    ensures
        match r {
            Some(i) => i < v@.len() && first_place(views(v@), cond, 0) == i && cond(
                v@[i as int]@,
            ) && views(v@)[i as int] == v@[i as int]@,
            None => first_place(views(v@), cond, 0) == v@.len(),
        },
        r is Some == (exists|j: int| 0 <= j < v@.len() && cond((#[trigger] views(v@)[j]))),
{
    let ghost s = views(v@);
    let mut i: usize = 0;
    while i < v.len()
        invariant
            i <= v@.len(),
            s == views(v@),
            first_place(s, cond, 0) == first_place(s, cond, i as int),
            forall|j: int| 0 <= j < i ==> !cond((#[trigger] s[j])),
            forall|x: &T| #[trigger] call_requires(f, (x,)),
            forall|x: &T, b: bool| #[trigger] call_ensures(f, (x,), b) ==> b == cond(x@),
        decreases v@.len() - i,
    {
        proof {
            assert(s[i as int] == v@[i as int]@);
        }
        if f(&v[i]) {
            proof {
                assert(cond(views(v@)[i as int]));
            }
            return Some(i);
        }
        i += 1;
    }
    None
}

/// A text for each record.
pub fn texts<T: View, F: Fn(&T) -> String>(
    v: &Vec<T>,
    f: F,
    Ghost(text): Ghost<spec_fn(T::V) -> Seq<char>>,
) -> (r: Vec<String>)
    requires
        forall|x: &T| #[trigger] call_requires(f, (x,)),
        forall|x: &T, t: String| #[trigger] call_ensures(f, (x,), t) ==> t@ == text(x@),
    ensures
        views(r@) == views(v@).map_values(text),
{
    let mut out: Vec<String> = Vec::new();
    let mut i: usize = 0;
    while i < v.len()
        invariant
            i <= v@.len(),
            out@.len() == i,
            forall|j: int| 0 <= j < i ==> (#[trigger] out@[j])@ == text(v@[j]@),
            forall|x: &T| #[trigger] call_requires(f, (x,)),
            forall|x: &T, t: String| #[trigger] call_ensures(f, (x,), t) ==> t@ == text(x@),
        decreases v@.len() - i,
    {
        out.push(f(&v[i]));
        i += 1;
    }
    proof {
        assert(views(out@) =~= views(v@).map_values(text));
    }
    out
}

/// A record for each record.
pub fn mapped<T: View, U: View, F: Fn(&T) -> U>(
    v: &Vec<T>,
    f: F,
    Ghost(image): Ghost<spec_fn(T::V) -> U::V>,
) -> (r: Vec<U>)
    requires
        forall|x: &T| #[trigger] call_requires(f, (x,)),
        forall|x: &T, u: U| #[trigger] call_ensures(f, (x,), u) ==> u@ == image(x@),
    ensures
        views(r@) == views(v@).map_values(image),
{
    let mut out: Vec<U> = Vec::new();
    let mut i: usize = 0;
    while i < v.len()
        invariant
            i <= v@.len(),
            out@.len() == i,
            forall|j: int| 0 <= j < i ==> (#[trigger] out@[j])@ == image(v@[j]@),
            forall|x: &T| #[trigger] call_requires(f, (x,)),
            forall|x: &T, u: U| #[trigger] call_ensures(f, (x,), u) ==> u@ == image(x@),
        decreases v@.len() - i,
    {
        out.push(f(&v[i]));
        i += 1;
    }
    proof {
        assert(views(out@) =~= views(v@).map_values(image));
    }
    out
}

/// Writes a text for each record behind what is there.
pub fn append_each<T: View, F: Fn(&T) -> String>(
    out: &mut String,
    v: &Vec<T>,
    f: F,
    Ghost(line): Ghost<spec_fn(T::V) -> Seq<char>>,
)
    requires
        forall|x: &T| #[trigger] call_requires(f, (x,)),
        forall|x: &T, t: String| #[trigger] call_ensures(f, (x,), t) ==> t@ == line(x@),
    ensures
        final(out)@ == old(out)@ + written(views(v@), line),
{
    let ghost head = out@;
    let ghost s = views(v@);
    let mut i: usize = 0;
    proof {
        assert(s.take(0) =~= Seq::empty());
        assert(head + written(s.take(0), line) =~= head);
    }
    while i < v.len()
        invariant
            i <= v@.len(),
            s == views(v@),
            out@ == head + written(s.take(i as int), line),
            forall|x: &T| #[trigger] call_requires(f, (x,)),
            forall|x: &T, t: String| #[trigger] call_ensures(f, (x,), t) ==> t@ == line(x@),
        decreases v@.len() - i,
    {
        let t = f(&v[i]);
        out.append(t.as_str());
        proof {
            let w = s.take(i + 1);
            assert(w.drop_last() =~= s.take(i as int));
            assert(w.last() == v@[i as int]@);
            assert(head + written(w, line) =~= head + written(s.take(i as int), line) + t@);
        }
        i += 1;
    }
    proof {
        assert(s.take(s.len() as int) =~= s);
    }
}

/// The records in the order of a key.
pub fn rank<T: View + Clone, F: Fn(&T) -> (i128, u128)>(
    v: &Vec<T>,
    f: F,
    Ghost(key): Ghost<spec_fn(T::V) -> Key>,
) -> (r: Vec<T>)
    requires
        forall|a: T, b: T| #[trigger] cloned::<T>(a, b) ==> a@ == b@,
        forall|x: &T| #[trigger] call_requires(f, (x,)),
        forall|x: &T, k: (i128, u128)| #[trigger]
            call_ensures(f, (x,), k) ==> k.0 == key(x@).0 && k.1 == key(x@).1,
    ensures
        views(r@) == ranked(views(v@), key),
        r@.len() == v@.len(),
{
    let mut keys: Vec<(i128, u128)> = Vec::new();
    let mut i: usize = 0;
    while i < v.len()
        invariant
            i <= v@.len(),
            keys@.len() == i,
            forall|j: int|
                0 <= j < i ==> (#[trigger] keys@[j]).0 == key(v@[j]@).0 && keys@[j].1 == key(
                    v@[j]@,
                ).1,
            forall|x: &T| #[trigger] call_requires(f, (x,)),
            forall|x: &T, k: (i128, u128)| #[trigger]
                call_ensures(f, (x,), k) ==> k.0 == key(x@).0 && k.1 == key(x@).1,
        decreases v@.len() - i,
    {
        keys.push(f(&v[i]));
        i += 1;
    }
    let order = order_by(&keys);
    proof {
        assert(key_ints(keys@) =~= views(v@).map_values(key));
    }
    let r = pick(v, &order);
    proof {
        assert(views(r@).len() == r@.len());
        crate::rank::law_ranking_is_stable(views(v@).map_values(key));
    }
    r
}

/// Copies of the first records of a list, `n` at most.
pub fn take_first<T: View + Clone>(v: &Vec<T>, n: usize) -> (r: Vec<T>)
    requires
        forall|a: T, b: T| #[trigger] cloned::<T>(a, b) ==> a@ == b@,
    ensures
        views(r@) == first(views(v@), n as int),
        r@.len() <= n,
        r@.len() <= v@.len(),
{
    take_page(v, 0, n)
}

/// Where the page after the one at `offset` starts. Beyond what the machine can
/// count there is no record, and no page.
pub fn next_page(offset: usize, limit: usize) -> (r: usize)
    ensures
        r == (if offset + limit > usize::MAX {
            usize::MAX as int
        } else {
            offset + limit
        }),
{
    if offset > usize::MAX - limit {
        usize::MAX
    } else {
        offset + limit
    }
}

/// Copies of a page of a list.
pub fn take_page<T: View + Clone>(v: &Vec<T>, offset: usize, limit: usize) -> (r: Vec<T>)
    requires
        forall|a: T, b: T| #[trigger] cloned::<T>(a, b) ==> a@ == b@,
    ensures
        views(r@) == page(views(v@), offset as int, limit as int),
        offset == 0 ==> views(r@) == first(views(v@), limit as int),
        r@.len() <= limit,
        r@.len() <= v@.len(),
{
    let ghost s = views(v@);
    let mut out: Vec<T> = Vec::new();
    let mut i: usize = offset;
    while i < v.len() && out.len() < limit
        invariant
            offset <= i,
            i <= v@.len() || i == offset,
            s == views(v@),
            out@.len() == i - offset,
            out@.len() <= limit,
            forall|j: int| 0 <= j < out@.len() ==> (#[trigger] out@[j])@ == v@[offset + j]@,
            forall|a: T, b: T| #[trigger] cloned::<T>(a, b) ==> a@ == b@,
        decreases v@.len() - i,
    {
        let x = v[i].clone();
        proof {
            assert(cloned::<T>(v@[i as int], x));
        }
        out.push(x);
        i += 1;
    }
    proof {
        if offset < s.len() {
            assert(views(out@) =~= first(s.skip(offset as int), limit as int));
        } else {
            assert(views(out@) =~= Seq::empty());
        }
        if offset == 0 {
            assert(s.skip(0) =~= s);
            assert(views(out@) =~= first(s, limit as int));
        }
    }
    out
}

} // verus!
