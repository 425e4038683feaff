//! Counts by name, in the order of the names.

use crate::daemon::tools::data::{Tally, TallyView};
use crate::order::{lemma_text_le_transitive, text_lt, text_precedes};
use crate::text::{same, views};
use vstd::prelude::*;

verus! {

/// Where a name belongs among counts, at or after `from`.
pub open spec fn tally_slot(ts: Seq<TallyView>, name: Seq<char>, from: int) -> int
    decreases ts.len() - from,
{
    if from < 0 || from >= ts.len() || !text_lt(ts[from].name, name) {
        from
    } else {
        tally_slot(ts, name, from + 1)
    }
}

/// The counts with one more of a name.
pub open spec fn counted(ts: Seq<TallyView>, name: Seq<char>) -> Seq<TallyView> {
    let i = tally_slot(ts, name, 0);
    if i < ts.len() && ts[i].name == name {
        ts.update(i, TallyView { count: (ts[i].count + 1) as u64, ..ts[i] })
    } else {
        ts.insert(i, TallyView { name, count: 1 })
    }
}

/// How often each name occurs.
pub open spec fn tally(names: Seq<Seq<char>>) -> Seq<TallyView>
    decreases names.len(),
{
    if names.len() == 0 {
        Seq::empty()
    } else {
        counted(tally(names.drop_last()), names.last())
    }
}

/// How often a name occurs.
pub open spec fn times(names: Seq<Seq<char>>, name: Seq<char>) -> nat
    decreases names.len(),
{
    if names.len() == 0 {
        0
    } else {
        times(names.drop_last(), name) + if names.last() == name {
            1nat
        } else {
            0nat
        }
    }
}

proof fn lemma_slot(ts: Seq<TallyView>, name: Seq<char>, from: int)
    requires
        0 <= from <= ts.len(),
    ensures
        from <= tally_slot(ts, name, from) <= ts.len(),
        forall|k: int|
            from <= k < tally_slot(ts, name, from) ==> text_lt(
                (#[trigger] ts[k]).name,
                name,
            ),
        tally_slot(ts, name, from) < ts.len() ==> !text_lt(
            ts[tally_slot(ts, name, from)].name,
            name,
        ),
    decreases ts.len() - from,
{
    if from < ts.len() && text_lt(ts[from].name, name) {
        lemma_slot(ts, name, from + 1);
    }
}

proof fn lemma_text_total(a: Seq<char>, b: Seq<char>)
    ensures
        a == b || text_lt(a, b) || text_lt(b, a),
        !(text_lt(a, b) && text_lt(b, a)),
        !text_lt(a, a),
    decreases a.len(),
{
    if a.len() > 0 {
        lemma_text_total(a.drop_first(), a.drop_first());
    }
    if a.len() > 0 && b.len() > 0 && a[0] == b[0] {
        lemma_text_total(a.drop_first(), b.drop_first());
        if a.drop_first() == b.drop_first() {
            assert(a =~= seq![a[0]] + a.drop_first());
            assert(b =~= seq![b[0]] + b.drop_first());
        }
    } else if a.len() == 0 && b.len() == 0 {
        assert(a =~= b);
    }
}

proof fn lemma_text_lt_transitive(a: Seq<char>, b: Seq<char>, c: Seq<char>)
    requires
        text_lt(a, b),
        text_lt(b, c),
    ensures
        text_lt(a, c),
{
    lemma_text_total(a, b);
    lemma_text_total(b, c);
    lemma_text_total(a, c);
    lemma_text_le_transitive(a, b, c);
    if a == c {
        assert(text_lt(b, a));
    }
}

pub open spec fn names_rise(ts: Seq<TallyView>) -> bool {
    forall|i: int, j: int|
        0 <= i < j < ts.len() ==> text_lt((#[trigger] ts[i]).name, (#[trigger] ts[j]).name)
}

/// Every name occurs once among the counts, in the order of the names, with
/// the number of times that it occurs.
pub proof fn law_tally_counts(names: Seq<Seq<char>>)
    requires
        names.len() <= u64::MAX,
    ensures
        names_rise(tally(names)),
        forall|i: int|
            0 <= i < tally(names).len() ==> (#[trigger] tally(names)[i]).count == times(
                names,
                tally(names)[i].name,
            ) && 0 < tally(names)[i].count <= names.len(),
        forall|k: int|
            0 <= k < names.len() ==> exists|i: int|
                0 <= i < tally(names).len() && (#[trigger] tally(names)[i]).name
                    == #[trigger] names[k],
    decreases names.len(),
{
    if names.len() > 0 {
        let front = names.drop_last();
        let name = names.last();
        let ts = tally(front);
        let us = tally(names);
        law_tally_counts(front);
        lemma_slot(ts, name, 0);
        let i = tally_slot(ts, name, 0);
        let old_name = i < ts.len() && ts[i].name == name;
        lemma_none(front, name);
        if old_name {
            assert forall|j: int| 0 <= j < us.len() implies (#[trigger] us[j]).count == times(
                names,
                us[j].name,
            ) && 0 < us[j].count <= names.len() by {
                assert(us[j].name == ts[j].name);
                lemma_text_total(us[j].name, name);
                if j < i {
                    assert(text_lt(ts[j].name, ts[i].name));
                } else if j > i {
                    assert(text_lt(ts[i].name, ts[j].name));
                    lemma_text_total(name, ts[j].name);
                }
            }
            assert(names_rise(us)) by {
                assert forall|a: int, b: int| 0 <= a < b < us.len() implies text_lt(
                    (#[trigger] us[a]).name,
                    (#[trigger] us[b]).name,
                ) by {
                    assert(us[a].name == ts[a].name && us[b].name == ts[b].name);
                }
            }
            assert forall|k: int| 0 <= k < names.len() implies exists|x: int|
                0 <= x < us.len() && (#[trigger] us[x]).name == #[trigger] names[k] by {
                if k < front.len() {
                    assert(front[k] == names[k]);
                    let x = choose|x: int|
                        0 <= x < ts.len() && (#[trigger] ts[x]).name == front[k];
                    assert(us[x].name == names[k]);
                } else {
                    assert(us[i].name == names[k]);
                }
            }
        } else {
            assert forall|j: int| 0 <= j < ts.len() implies (#[trigger] ts[j]).name != name && (j
                < i ==> text_lt(ts[j].name, name)) && (j >= i ==> text_lt(name, ts[j].name)) by {
                lemma_text_total(ts[j].name, name);
                if j >= i {
                    lemma_text_total(ts[i].name, name);
                    if j > i {
                        lemma_text_lt_transitive(name, ts[i].name, ts[j].name);
                    }
                }
            }
            assert(times(front, name) == 0) by {
                assert forall|k: int| 0 <= k < front.len() implies #[trigger] front[k] != name by {
                    let x = choose|x: int|
                        0 <= x < ts.len() && (#[trigger] ts[x]).name == front[k];
                    assert(ts[x].name != name);
                }
            }
            assert(us[i] == TallyView { name, count: 1 });
            assert forall|j: int| 0 <= j < us.len() implies (#[trigger] us[j]).count == times(
                names,
                us[j].name,
            ) && 0 < us[j].count <= names.len() by {
                if j < i {
                    assert(us[j] == ts[j]);
                } else if j > i {
                    assert(us[j] == ts[j - 1]);
                }
            }
            assert(names_rise(us)) by {
                assert forall|a: int, b: int| 0 <= a < b < us.len() implies text_lt(
                    (#[trigger] us[a]).name,
                    (#[trigger] us[b]).name,
                ) by {
                    let x = if a < i {
                        a
                    } else {
                        a - 1
                    };
                    let y = if b < i {
                        b
                    } else {
                        b - 1
                    };
                    if a != i && b != i {
                        assert(us[a] == ts[x] && us[b] == ts[y]);
                    } else if a == i {
                        assert(us[b] == ts[b - 1]);
                    } else {
                        assert(us[a] == ts[a]);
                    }
                }
            }
            assert forall|k: int| 0 <= k < names.len() implies exists|x: int|
                0 <= x < us.len() && (#[trigger] us[x]).name == #[trigger] names[k] by {
                if k < front.len() {
                    assert(front[k] == names[k]);
                    let x = choose|x: int|
                        0 <= x < ts.len() && (#[trigger] ts[x]).name == front[k];
                    if x < i {
                        assert(us[x].name == names[k]);
                    } else {
                        assert(us[x + 1].name == names[k]);
                    }
                } else {
                    assert(us[i].name == names[k]);
                }
            }
        }
    }
}

/// What does not occur occurs no times.
proof fn lemma_none(names: Seq<Seq<char>>, name: Seq<char>)
    ensures
        (forall|k: int| 0 <= k < names.len() ==> #[trigger] names[k] != name) ==> times(names, name)
            == 0,
    decreases names.len(),
{
    if names.len() > 0 {
        lemma_none(names.drop_last(), name);
        if forall|k: int| 0 <= k < names.len() ==> #[trigger] names[k] != name {
            assert forall|k: int| 0 <= k < names.drop_last().len() implies #[trigger] names.drop_last()[k]
                != name by {
                assert(names[k] != name);
            }
            assert(names[names.len() - 1] != name);
        }
    }
}

/// Counts names.
pub fn tally_of(names: &Vec<String>) -> (r: Vec<Tally>)
    ensures
        views(r@) == tally(views(names@)),
{
    let ghost ns = views(names@);
    let mut out: Vec<Tally> = Vec::new();
    let mut i: usize = 0;
    proof {
        assert(ns.take(0) =~= Seq::empty());
        assert(views(out@) =~= Seq::empty());
    }
    while i < names.len()
        invariant
            i <= names@.len(),
            ns == views(names@),
            views(out@) == tally(ns.take(i as int)),
        decreases names@.len() - i,
    {
        let name = names[i].as_str();
        proof {
            let t = ns.take(i + 1);
            assert(t.drop_last() =~= ns.take(i as int));
            assert(t.last() == names@[i as int]@);
            law_tally_counts(ns.take(i as int));
            lemma_slot(views(out@), name@, 0);
        }
        let ghost ts = views(out@);
        let mut k: usize = 0;
        while k < out.len() && text_precedes(out[k].name.as_str(), name)
            invariant
                k <= out@.len(),
                ts == views(out@),
                tally_slot(ts, name@, 0) == tally_slot(ts, name@, k as int),
            decreases out@.len() - k,
        {
            k += 1;
        }
        if k < out.len() && same(out[k].name.as_str(), name) {
            proof {
                assert(ts[k as int] == out@[k as int]@);
                assert(ts[k as int].count <= i);
            }
            let n: u64 = out[k].count + 1;
            let t = Tally { name: out[k].name.clone(), count: n };
            out.set(k, t);
            proof {
                assert(views(out@) =~= ts.update(k as int, t@));
            }
        } else {
            let t = Tally { name: name.to_owned(), count: 1 };
            out.insert(k, t);
            proof {
                assert(views(out@) =~= ts.insert(k as int, t@));
            }
        }
        i += 1;
    }
    proof {
        assert(ns.take(ns.len() as int) =~= ns);
    }
    out
}

} // verus!
