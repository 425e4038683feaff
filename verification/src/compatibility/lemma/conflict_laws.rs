//! What holds of every scan for contradictions.

use crate::canonical::repository::by_id;
use crate::compatibility::lemma::conflicts::{
    conflict, conflicts_among, is_topic, negates, plain_char, row, rows, shared, signal, topic,
};
use crate::compatibility::lemma::intelligence::ConflictPairView;
use crate::compatibility::lemma::patterns::matched;
use crate::compatibility::lemma::tool_args::ConflictScanArgs;
use crate::daemon::tools::analysis::{conflict_scan, live_in};
use crate::daemon::tools::data::ToolDataView;
use crate::daemon::tools::recall_laws::lemma_by_id;
use crate::domain::memory::MemoryView;
use crate::domain::state::StateView;
use crate::double::{law_fractions_keep_their_order, lemma_ratio_positive, norm, ratio};
use crate::overlap::{common, distinct};
use crate::rank::{
    lemma_filter_keeps, lemma_filter_members, lemma_ranked, lemma_ranked_order, ranked,
};
use crate::text::{law_with_texts, lowercase, opt_view, words};
use vstd::prelude::*;

verus! {

/// Two texts signal a contradiction if and only if one of them matches a word
/// and the other the opposite of that word, and by the weight of the strongest
/// such pair of words, whichever of the texts comes first. Two texts that match
/// only the same words do not contradict each other.
pub proof fn law_opposites_are_signalled(a: Seq<char>, b: Seq<char>)
    ensures
        ({
            let pairs: Seq<(Seq<char>, Seq<char>, nat)> = seq![
                ("\\balways\\b"@, "\\bnever\\b"@, 9nat),
                ("\\buse\\b"@, "\\bdon'?t use\\b"@, 9nat),
                ("\\bbest\\b"@, "\\bworst\\b"@, 8nat),
                ("\\brecommended\\b"@, "\\bavoid\\b"@, 8nat),
                ("\\bprefer\\b"@, "\\bavoid\\b"@, 8nat),
                ("\\bgood\\b"@, "\\bbad\\b"@, 7nat),
                ("\\bfast\\b"@, "\\bslow\\b"@, 6nat),
                ("\\bsimple\\b"@, "\\bcomplex\\b"@, 6nat),
            ];
            &&& forall|k: int|
                0 <= k < pairs.len() && matched((#[trigger] pairs[k]).0, a) && matched(
                    pairs[k].1,
                    b,
                ) ==> signal(a, b) >= pairs[k].2 && signal(b, a) >= pairs[k].2
            &&& signal(a, b) > 0 ==> exists|k: int|
                0 <= k < pairs.len() && (#[trigger] pairs[k]).2 == signal(a, b) && ((matched(
                    pairs[k].0,
                    a,
                ) && matched(pairs[k].1, b)) || (matched(pairs[k].1, a) && matched(
                    pairs[k].0,
                    b,
                )))
        }),
        signal(a, b) == signal(b, a),
{
    let pairs: Seq<(Seq<char>, Seq<char>, nat)> = seq![
        ("\\balways\\b"@, "\\bnever\\b"@, 9nat),
        ("\\buse\\b"@, "\\bdon'?t use\\b"@, 9nat),
        ("\\bbest\\b"@, "\\bworst\\b"@, 8nat),
        ("\\brecommended\\b"@, "\\bavoid\\b"@, 8nat),
        ("\\bprefer\\b"@, "\\bavoid\\b"@, 8nat),
        ("\\bgood\\b"@, "\\bbad\\b"@, 7nat),
        ("\\bfast\\b"@, "\\bslow\\b"@, 6nat),
        ("\\bsimple\\b"@, "\\bcomplex\\b"@, 6nat),
    ];
    assert(pairs[0].2 == 9 && pairs[1].2 == 9 && pairs[2].2 == 8 && pairs[3].2 == 8 && pairs[4].2
        == 8 && pairs[5].2 == 7 && pairs[6].2 == 6 && pairs[7].2 == 6);
    assert forall|k: int|
        0 <= k < pairs.len() && matched((#[trigger] pairs[k]).0, a) && matched(
            pairs[k].1,
            b,
        ) implies signal(a, b) >= pairs[k].2 && signal(b, a) >= pairs[k].2 by {
        assert(k == 0 || k == 1 || k == 2 || k == 3 || k == 4 || k == 5 || k == 6 || k == 7);
    }
}

/// What two lists without repetitions have in common does not depend on which
/// comes first.
proof fn lemma_common_both_ways(a: Seq<Seq<char>>, b: Seq<Seq<char>>)
    requires
        a.no_duplicates(),
        b.no_duplicates(),
    ensures
        common(a, b) == common(b, a),
{
    let in_b = |w: Seq<char>| b.contains(w);
    let in_a = |w: Seq<char>| a.contains(w);
    lemma_filter_keeps(a, in_b);
    lemma_filter_keeps(b, in_a);
    let x = a.filter(in_b);
    let y = b.filter(in_a);
    x.unique_seq_to_set();
    y.unique_seq_to_set();
    assert(x.to_set() =~= y.to_set()) by {
        assert forall|w: Seq<char>| x.to_set().contains(w) == y.to_set().contains(w) by {
            assert(x.contains(w) == y.contains(w));
        }
    }
}

/// Whether two memories contradict each other, how strongly and why, does not
/// depend on which comes first.
pub proof fn law_contradiction_is_mutual(a: MemoryView, b: MemoryView)
    ensures
        conflict(a, b) is Some <==> conflict(b, a) is Some,
        conflict(a, b) is Some ==> conflict(a, b)->0.overlap_score == conflict(b, a)->0.overlap_score
            && conflict(a, b)->0.reason == conflict(b, a)->0.reason,
{
    let ta = topic(a.fragment);
    let tb = topic(b.fragment);
    lemma_topic_distinct(a.fragment);
    lemma_topic_distinct(b.fragment);
    lemma_common_both_ways(ta, tb);
    law_opposites_are_signalled(a.fragment, b.fragment);
    assert(shared(ta, tb) == shared(tb, ta));
}

proof fn lemma_topic_distinct(t: Seq<char>)
    ensures
        topic(t).no_duplicates(),
{
    let ws = words(
        lowercase(t).map_values(
            |c: char| plain_char(c),
        ),
    ).filter(|w: Seq<char>| is_topic(w));
    law_with_texts(Seq::empty(), ws);
    assert(topic(t) == distinct(ws));
}

/// Two memories contradict each other only where their texts have a word of
/// their topics in common, and either one of them negates and the other does
/// not, or they hold opposites. The report names both memories, and says which
/// of the two was seen.
pub proof fn law_contradiction_has_a_ground(a: MemoryView, b: MemoryView)
    ensures
        conflict(a, b) matches Some(c) ==> {
            &&& exists|w: Seq<char>| #[trigger]
                topic(a.fragment).contains(w) && topic(b.fragment).contains(w)
            &&& negates(a.fragment) != negates(b.fragment) || signal(a.fragment, b.fragment) > 0
            &&& c.reason == if negates(a.fragment) != negates(b.fragment) {
                "Opposing sentiment on same topic"@
            } else {
                "Contradiction signals detected"@
            }
            &&& c.memory_a_title == a.title
            &&& c.memory_b_title == b.title
            &&& a.external_alias is Some ==> c.memory_a_id == a.external_alias->0
            &&& b.external_alias is Some ==> c.memory_b_id == b.external_alias->0
        },
{
    let ta = topic(a.fragment);
    let tb = topic(b.fragment);
    lemma_ratio_positive(3, 10);
    lemma_ratio_positive(2, 5);
    lemma_ratio_positive(1, 10);
    if conflict(a, b) is Some {
        let in_b = |w: Seq<char>| tb.contains(w);
        lemma_filter_keeps(ta, in_b);
        let both = ta.filter(in_b);
        let share = shared(ta, tb);
        if common(ta, tb) == 0 {
            assert(share.m == 0);
            assert(share.below(ratio(3, 10)));
        } else {
            assert(both.contains(both[0]));
            assert(ta.contains(both[0]) && tb.contains(both[0]));
        }
        if negates(a.fragment) == negates(b.fragment) && signal(a.fragment, b.fragment) == 0 {
            let none = ratio(0, 10);
            assert(none.m == 0);
            assert(none.m * share.m == 0) by (nonlinear_arith)
                requires
                    none.m == 0,
            ;
            assert(none.times(share) == norm(0, none.e + share.e));
            assert(ratio(0, 1).m == 0);
        }
    }
}

/// Two memories do not contradict each other where fewer than three tenths of
/// the words of the shorter topic are in both.
pub proof fn law_contradiction_is_on_one_topic(
    a: MemoryView,
    b: MemoryView,
    in_b: spec_fn(Seq<char>) -> bool,
)
    requires
        topic(a.fragment).len() < 0x100_0000_0000,
        topic(b.fragment).len() < 0x100_0000_0000,
        forall|w: Seq<char>| #[trigger] in_b(w) <==> topic(b.fragment).contains(w),
    ensures
        ({
            let least = if topic(a.fragment).len() < topic(b.fragment).len() {
                topic(a.fragment).len()
            } else {
                topic(b.fragment).len()
            };
            10 * topic(a.fragment).filter(in_b).len() < 3 * least ==> conflict(a, b) is None
        }),
{
    let ta = topic(a.fragment);
    let tb = topic(b.fragment);
    assert(in_b =~= (|w: Seq<char>| tb.contains(w)));
    lemma_filter_members(ta, in_b);
    if ta.len() > 0 && tb.len() > 0 {
        let least = if ta.len() < tb.len() {
            ta.len()
        } else {
            tb.len()
        };
        law_fractions_keep_their_order(common(ta, tb), least, 3, 10);
    }
}

/// Which pairs stand in a row.
proof fn lemma_row(ms: Seq<MemoryView>, i: int, j: int)
    requires
        0 <= i < j <= ms.len(),
    ensures
        forall|c: ConflictPairView| #[trigger]
            row(ms, i, j).contains(c) <==> exists|k: int|
                i < k < j && conflict(ms[i], #[trigger] ms[k]) == Some(c),
    decreases j - i,
{
    if j > i + 1 {
        lemma_row(ms, i, j - 1);
        let rest = row(ms, i, j - 1);
        let all = row(ms, i, j);
        assert forall|c: ConflictPairView| #[trigger] all.contains(c) <==> exists|k: int|
            i < k < j && conflict(ms[i], #[trigger] ms[k]) == Some(c) by {
            if all.contains(c) {
                let p = all.index_of(c);
                if p < rest.len() {
                    assert(rest[p] == c);
                    assert(rest.contains(c));
                    let k = choose|k: int|
                        i < k < j - 1 && conflict(ms[i], #[trigger] ms[k]) == Some(c);
                    assert(conflict(ms[i], ms[k]) == Some(c));
                } else {
                    assert(conflict(ms[i], ms[j - 1]) == Some(c));
                }
            }
            if exists|k: int| i < k < j && conflict(ms[i], #[trigger] ms[k]) == Some(c) {
                let k = choose|k: int| i < k < j && conflict(ms[i], #[trigger] ms[k]) == Some(c);
                if k == j - 1 {
                    assert(all[rest.len() as int] == c);
                } else {
                    assert(rest.contains(c));
                    assert(all[rest.index_of(c)] == c);
                }
            }
        }
    }
}

/// Which pairs stand in the first rows.
proof fn lemma_rows(ms: Seq<MemoryView>, n: int)
    requires
        0 <= n <= ms.len(),
    ensures
        forall|c: ConflictPairView| #[trigger]
            rows(ms, n).contains(c) <==> exists|i: int, k: int|
                0 <= i < n && i < k < ms.len() && conflict(#[trigger] ms[i], #[trigger] ms[k])
                    == Some(c),
    decreases n,
{
    if n > 0 {
        lemma_rows(ms, n - 1);
        lemma_row(ms, n - 1, ms.len() as int);
        let rest = rows(ms, n - 1);
        let more = row(ms, n - 1, ms.len() as int);
        let all = rows(ms, n);
        assert forall|c: ConflictPairView| #[trigger] all.contains(c) <==> exists|i: int, k: int|
            0 <= i < n && i < k < ms.len() && conflict(#[trigger] ms[i], #[trigger] ms[k]) == Some(
                c,
            ) by {
            if all.contains(c) {
                let p = all.index_of(c);
                if p < rest.len() {
                    assert(rest[p] == c);
                    assert(rest.contains(c));
                    let (i, k) = choose|i: int, k: int|
                        0 <= i < n - 1 && i < k < ms.len() && conflict(
                            #[trigger] ms[i],
                            #[trigger] ms[k],
                        ) == Some(c);
                    assert(conflict(ms[i], ms[k]) == Some(c));
                } else {
                    assert(more[p - rest.len()] == c);
                    assert(more.contains(c));
                    let k = choose|k: int|
                        n - 1 < k < ms.len() && conflict(ms[n - 1], #[trigger] ms[k]) == Some(c);
                    assert(conflict(ms[n - 1], ms[k]) == Some(c));
                }
            }
            if exists|i: int, k: int|
                0 <= i < n && i < k < ms.len() && conflict(#[trigger] ms[i], #[trigger] ms[k])
                    == Some(c) {
                let (i, k) = choose|i: int, k: int|
                    0 <= i < n && i < k < ms.len() && conflict(#[trigger] ms[i], #[trigger] ms[k])
                        == Some(c);
                if i == n - 1 {
                    assert(more.contains(c));
                    assert(all[rest.len() + more.index_of(c)] == c);
                } else {
                    assert(rest.contains(c));
                    assert(all[rest.index_of(c)] == c);
                }
            }
        }
    }
}

/// A scan reports the contradictions between any two of the memories, and
/// nothing else; none is followed by a stronger one.
pub proof fn law_scan_reports_every_contradiction(ms: Seq<MemoryView>)
    ensures
        forall|c: ConflictPairView| #[trigger]
            conflicts_among(ms).contains(c) <==> exists|i: int, k: int|
                0 <= i < k < ms.len() && conflict(#[trigger] ms[i], #[trigger] ms[k]) == Some(c),
        forall|p: int, q: int|
            0 <= p < q < conflicts_among(ms).len() ==> (#[trigger] conflicts_among(
                ms,
            )[p]).overlap_score >= (#[trigger] conflicts_among(ms)[q]).overlap_score,
{
    let key = |c: ConflictPairView| (-(c.overlap_score as int), 0int);
    let all = rows(ms, ms.len() as int);
    lemma_rows(ms, ms.len() as int);
    lemma_ranked(all, key);
    lemma_ranked_order(all, key);
    let r = ranked(all, key);
    assert(r == conflicts_among(ms));
    assert forall|c: ConflictPairView| #[trigger] r.contains(c) <==> exists|i: int, k: int|
        0 <= i < k < ms.len() && conflict(#[trigger] ms[i], #[trigger] ms[k]) == Some(c) by {
        assert(r.contains(c) <==> all.contains(c));
    }
}

/// A scan is of the live memories of the project that is named and of none, or
/// of all live memories.
pub proof fn law_scan_is_of_live_memories(s: StateView, args: ConflictScanArgs)
    ensures
        exists|ms: Seq<MemoryView>|
            {
                &&& forall|m: MemoryView| #[trigger]
                    ms.contains(m) <==> s.memories.contains(m) && m.lifecycle is Live && (
                    args.project is None || m.project is None || m.project == Some(
                        args.project->0@,
                    ))
                &&& s.memories.no_duplicates() ==> ms.no_duplicates()
                &&& conflict_scan(s, args).structured == Some(
                    ToolDataView::Conflicts { conflicts: #[trigger] conflicts_among(ms) },
                )
            },
{
    reveal(conflict_scan);
    let project = opt_view(args.project);
    let keep = |m: MemoryView|
        m.lifecycle is Live && (project is None || m.project is None || m.project == project);
    lemma_by_id(s.memories);
    lemma_filter_keeps(by_id(s.memories), keep);
    let ms = live_in(s, project);
    assert(ms == by_id(s.memories).filter(keep));
    assert(conflict_scan(s, args).structured == Some(
        ToolDataView::Conflicts { conflicts: conflicts_among(ms) },
    ));
}

} // verus!
