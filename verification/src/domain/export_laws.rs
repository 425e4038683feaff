//! What holds of every export that was put in order.

use crate::domain::guide::Guide;
use crate::domain::memory::{ArchivedFragment, FragmentHistory, Memory};
use crate::domain::relation::Relation;
use crate::domain::session::{FeedbackEvent, Suggestion};
use crate::order::{ordered_by, sorted_from, text_lt, Ranked};
use vstd::prelude::*;

verus! {

proof fn lemma_never_before<T: Ranked>(a: Seq<T>, b: Seq<T>, i: int, j: int)
    requires
        sorted_from(a, b),
        0 <= i < j < b.len(),
    ensures
        b.len() == a.len(),
        !b[j].lt(&b[i]),
{
    let p = choose|p: Seq<int>| #[trigger] ordered_by(a, b, p);
    if b[i].lt(&b[j]) {
        T::lt_asymmetric(&b[i], &b[j]);
    }
}

/// Memories that were put in order are by identifier.
pub proof fn law_memories_are_by_id(before: Seq<Memory>, after: Seq<Memory>, i: int, j: int)
    requires
        sorted_from(before, after),
        0 <= i < j < after.len(),
    ensures
        after.len() == before.len(),
        after[i].id.0 <= after[j].id.0,
{
    lemma_never_before(before, after, i, j);
}

/// Edges that were put in order are by identifier.
pub proof fn law_relations_are_by_id(before: Seq<Relation>, after: Seq<Relation>, i: int, j: int)
    requires
        sorted_from(before, after),
        0 <= i < j < after.len(),
    ensures
        after.len() == before.len(),
        after[i].id.0 <= after[j].id.0,
{
    lemma_never_before(before, after, i, j);
}

/// Events that were put in order are by identifier.
pub proof fn law_feedback_is_by_id(
    before: Seq<FeedbackEvent>,
    after: Seq<FeedbackEvent>,
    i: int,
    j: int,
)
    requires
        sorted_from(before, after),
        0 <= i < j < after.len(),
    ensures
        after.len() == before.len(),
        after[i].id.0 <= after[j].id.0,
{
    lemma_never_before(before, after, i, j);
}

/// Suggestions that were put in order are by number.
pub proof fn law_suggestions_are_by_id(
    before: Seq<Suggestion>,
    after: Seq<Suggestion>,
    i: int,
    j: int,
)
    requires
        sorted_from(before, after),
        0 <= i < j < after.len(),
    ensures
        after.len() == before.len(),
        after[i].id <= after[j].id,
{
    lemma_never_before(before, after, i, j);
}

/// Archived texts that were put in order are by identifier.
pub proof fn law_archives_are_by_id(
    before: Seq<ArchivedFragment>,
    after: Seq<ArchivedFragment>,
    i: int,
    j: int,
)
    requires
        sorted_from(before, after),
        0 <= i < j < after.len(),
    ensures
        after.len() == before.len(),
        after[i].id.0 <= after[j].id.0,
{
    lemma_never_before(before, after, i, j);
}

/// Earlier texts that were put in order are by identifier.
pub proof fn law_history_is_by_id(
    before: Seq<FragmentHistory>,
    after: Seq<FragmentHistory>,
    i: int,
    j: int,
)
    requires
        sorted_from(before, after),
        0 <= i < j < after.len(),
    ensures
        after.len() == before.len(),
        after[i].id.0 <= after[j].id.0,
{
    lemma_never_before(before, after, i, j);
}

/// A text comes before another if and only if it is a proper beginning of it, or
/// has the lower character where they first differ.
pub proof fn law_texts_are_by_their_characters(a: Seq<char>, b: Seq<char>)
    ensures
        text_lt(a, b) <==> exists|n: int|
            {
                &&& 0 <= n <= a.len() && n < b.len()
                &&& #[trigger] a.take(n) == b.take(n)
                &&& n == a.len() || a[n] < b[n]
            },
    decreases a.len(),
{
    if a.len() > 0 && b.len() > 0 && a[0] == b[0] {
        let x = a.drop_first();
        let y = b.drop_first();
        law_texts_are_by_their_characters(x, y);
        if text_lt(a, b) {
            let n = choose|n: int|
                {
                    &&& 0 <= n <= x.len() && n < y.len()
                    &&& #[trigger] x.take(n) == y.take(n)
                    &&& n == x.len() || x[n] < y[n]
                };
            assert(a.take(n + 1) =~= seq![a[0]] + x.take(n));
            assert(b.take(n + 1) =~= seq![b[0]] + y.take(n));
        }
        if exists|n: int|
            {
                &&& 0 <= n <= a.len() && n < b.len()
                &&& #[trigger] a.take(n) == b.take(n)
                &&& n == a.len() || a[n] < b[n]
            } {
            let n = choose|n: int|
                {
                    &&& 0 <= n <= a.len() && n < b.len()
                    &&& #[trigger] a.take(n) == b.take(n)
                    &&& n == a.len() || a[n] < b[n]
                };
            assert(n > 0);
            assert(x.take(n - 1) =~= a.take(n).drop_first());
            assert(y.take(n - 1) =~= b.take(n).drop_first());
        }
    } else {
        assert(a.take(0) =~= b.take(0));
        if exists|n: int|
            {
                &&& 0 <= n <= a.len() && n < b.len()
                &&& #[trigger] a.take(n) == b.take(n)
                &&& n == a.len() || a[n] < b[n]
            } {
            let n = choose|n: int|
                {
                    &&& 0 <= n <= a.len() && n < b.len()
                    &&& #[trigger] a.take(n) == b.take(n)
                    &&& n == a.len() || a[n] < b[n]
                };
            if n > 0 {
                assert(a.take(n)[0] == a[0] && b.take(n)[0] == b[0]);
            }
        }
    }
}

/// Guides that were put in order are by name.
pub proof fn law_guides_are_by_name(before: Seq<Guide>, after: Seq<Guide>, i: int, j: int)
    requires
        sorted_from(before, after),
        0 <= i < j < after.len(),
    ensures
        after.len() == before.len(),
        !text_lt(after[j].name@, after[i].name@),
{
    lemma_never_before(before, after, i, j);
}

} // verus!
