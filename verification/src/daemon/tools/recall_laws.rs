//! What holds of everything that is recalled and found.

use crate::canonical::repository::by_id;
use crate::compatibility::lemma::tool_args::{MemoryReadArgs, SemanticSearchArgs};
use crate::daemon::dispatcher::DispatcherView;
use crate::daemon::envelope::IpcEnvelope;
use crate::daemon::tools::common::{relevance, HitView};
use crate::daemon::tools::data::ToolDataView;
use crate::daemon::tools::detail::summary_entry;
use crate::daemon::tools::read::{
    in_scope, memory_read, page_limit, page_offset, read_page, recall, recalled, shown_page,
    within_bounds,
};
use crate::daemon::tools::search::{
    found_for, may_be_found, result_entry, search_limit, search_offset, semantic_search,
};
use crate::dates::date_start;
use crate::domain::memory::MemoryView;
use crate::domain::state::StateView;
use crate::lists::page;
use crate::rank::{lemma_filter_keeps, lemma_ranked, lemma_ranked_once, lemma_ranked_order, ranked};
use crate::text::{at, first_chars, lowercase, part_of, words};
use vstd::prelude::*;

verus! {

/// How many words of a query a memory holds, counted in its title and text.
pub proof fn lemma_relevance_counts(m: MemoryView, query: Seq<char>)
    ensures
        relevance(m, query) == ({
            let text = lowercase(m.title + " "@ + m.fragment);
            words(query).filter(
                |w: Seq<char>|
                    exists|k: int|
                        0 <= k && k + w.len() <= text.len() && #[trigger] text.subrange(
                            k,
                            k + w.len(),
                        ) == w,
            ).len()
        }),
{
    let text = lowercase(m.title + " "@ + m.fragment);
    let p = |w: Seq<char>| part_of(w, lowercase(m.title + " "@ + m.fragment));
    let q = |w: Seq<char>|
        exists|k: int|
            0 <= k && k + w.len() <= text.len() && #[trigger] text.subrange(k, k + w.len()) == w;
    assert forall|w: Seq<char>| #[trigger] p(w) == q(w) by {
        if p(w) {
            let k = choose|k: int| at(text, w, k);
            assert(text.subrange(k, k + w.len()) == w);
        }
        if q(w) {
            let k = choose|k: int|
                0 <= k && k + w.len() <= text.len() && #[trigger] text.subrange(k, k + w.len())
                    == w;
            assert(at(text, w, k));
        }
    }
    assert(p =~= q);
}

/// Ranking by identifier changes neither which records there are nor how often.
pub proof fn lemma_by_id(ms: Seq<MemoryView>)
    ensures
        by_id(ms).len() == ms.len(),
        forall|m: MemoryView| #[trigger] by_id(ms).contains(m) <==> ms.contains(m),
        ms.no_duplicates() ==> by_id(ms).no_duplicates(),
{
    lemma_ranked(ms, |m: MemoryView| (0int, m.id.0 as int));
    lemma_ranked_once(ms, |m: MemoryView| (0int, m.id.0 as int));
}

/// A read without a name, of which the search backend knows nothing, is about
/// the live memories of its scope and no others: every memory where all
/// projects are asked for, else those of the project that is named and those of
/// none.
pub proof fn law_recall_is_the_scope(s: StateView, args: MemoryReadArgs)
    ensures
        forall|m: MemoryView| #[trigger]
            recalled(s, args, Seq::empty()).contains(m) <==> s.memories.contains(m)
                && m.lifecycle is Live && (args.all || m.project is None || (args.project is Some
                && m.project == Some(args.project->0@))),
        s.memories.no_duplicates() ==> recalled(s, args, Seq::empty()).no_duplicates(),
{
    let keep = |m: MemoryView| m.lifecycle is Live && in_scope(args, m.project);
    lemma_by_id(s.memories);
    lemma_filter_keeps(by_id(s.memories), keep);
    let ms = by_id(s.memories).filter(keep);
    let q = lowercase(args.query->0@);
    let by_words = |m: MemoryView| (-(relevance(m, q) as int), m.id.0 as int);
    let by_trust = |m: MemoryView| (-(m.confidence.0 as int), m.id.0 as int);
    lemma_ranked(ms, by_words);
    lemma_ranked(ms, by_trust);
    lemma_ranked_once(ms, by_words);
    lemma_ranked_once(ms, by_trust);
    assert(recalled(s, args, Seq::empty()) == recall(s, args));
    assert forall|m: MemoryView| #[trigger]
        recalled(s, args, Seq::empty()).contains(m) <==> s.memories.contains(m)
            && m.lifecycle is Live && (args.all || m.project is None || (args.project is Some
            && m.project == Some(args.project->0@))) by {
        assert(recall(s, args).contains(m) <==> ms.contains(m));
    }
}

/// No memory of a read with a query is followed by one that holds more words of
/// the query, wherever in its title or text they stand; those that hold as many
/// come by identifier.
pub proof fn law_recall_puts_the_most_words_first(s: StateView, args: MemoryReadArgs)
    requires
        args.query is Some,
        args.query->0@.len() > 0,
    ensures
        ({
            let list = recalled(s, args, Seq::empty());
            let held = |m: MemoryView| {
                let text = lowercase(m.title + " "@ + m.fragment);
                words(lowercase(args.query->0@)).filter(
                    |w: Seq<char>|
                        exists|k: int|
                            0 <= k && k + w.len() <= text.len() && #[trigger] text.subrange(
                                k,
                                k + w.len(),
                            ) == w,
                ).len()
            };
            forall|i: int, j: int|
                0 <= i < j < list.len() ==> {
                    ||| held(#[trigger] list[i]) > held(#[trigger] list[j])
                    ||| held(list[i]) == held(list[j]) && list[i].id.0 <= list[j].id.0
                }
        }),
{
    let q = lowercase(args.query->0@);
    let list = recalled(s, args, Seq::empty());
    let ms = by_id(s.memories).filter(
        |m: MemoryView| m.lifecycle is Live && in_scope(args, m.project),
    );
    let key = |m: MemoryView| (-(relevance(m, q) as int), m.id.0 as int);
    lemma_ranked(ms, key);
    lemma_ranked_order(ms, key);
    assert(list == ranked(ms, key));
    assert forall|m: MemoryView| relevance(m, q) == ({
        let text = lowercase(m.title + " "@ + m.fragment);
        words(q).filter(
            |w: Seq<char>|
                exists|k: int|
                    0 <= k && k + w.len() <= text.len() && #[trigger] text.subrange(
                        k,
                        k + w.len(),
                    ) == w,
        ).len()
    }) by {
        lemma_relevance_counts(m, q);
    }
}

/// Without a query, no memory of a read is followed by one of higher
/// confidence.
pub proof fn law_browse_puts_the_most_trusted_first(s: StateView, args: MemoryReadArgs)
    requires
        args.query is None || args.query->0@.len() == 0,
    ensures
        ({
            let list = recalled(s, args, Seq::empty());
            forall|i: int, j: int|
                0 <= i < j < list.len() ==> {
                    ||| (#[trigger] list[i]).confidence.0 > (#[trigger] list[j]).confidence.0
                    ||| list[i].confidence == list[j].confidence && list[i].id.0 <= list[j].id.0
                }
        }),
{
    let ms = by_id(s.memories).filter(
        |m: MemoryView| m.lifecycle is Live && in_scope(args, m.project),
    );
    let key = |m: MemoryView| (-(m.confidence.0 as int), m.id.0 as int);
    lemma_ranked(ms, key);
    lemma_ranked_order(ms, key);
    assert(recalled(s, args, Seq::empty()) == ranked(ms, key));
}

/// What the search backend found is recalled as it was found, in its order.
pub proof fn law_recall_keeps_the_order_of_the_backend(
    s: StateView,
    args: MemoryReadArgs,
    hits: Seq<HitView>,
)
    requires
        hits.len() > 0,
    ensures
        recalled(s, args, hits).len() == hits.len(),
        forall|i: int|
            0 <= i < hits.len() ==> #[trigger] recalled(s, args, hits)[i] == hits[i].memory,
{
}

/// A page holds the records from its offset on, as many as there are and it
/// may hold.
pub proof fn lemma_page<V>(s: Seq<V>, from: int, limit: int)
    requires
        from >= 0,
        limit >= 0,
    ensures
        page(s, from, limit).len() == if from >= s.len() {
            0
        } else if from + limit < s.len() {
            limit
        } else {
            s.len() - from
        },
        forall|i: int|
            0 <= i < page(s, from, limit).len() ==> #[trigger] page(s, from, limit)[i] == s[from
                + i],
{
}

/// What stands on a page of a list.
proof fn lemma_shown_page(args: MemoryReadArgs, all: Seq<MemoryView>)
    ensures
        !shown_page(args, all).is_error,
        shown_page(args, all).structured is Some,
        shown_page(args, all).structured->0 is Read,
        ({
            let x = shown_page(args, all).structured->0->Read_0;
            let next = page_offset(args) + page_limit(args);
            &&& x.total == Some(all.len() as usize)
            &&& x.count == page(all, page_offset(args), page_limit(args)).len() as usize
            &&& x.fragments == page(all, page_offset(args), page_limit(args)).map_values(
                |m: MemoryView| summary_entry(m),
            )
            &&& x.has_more == (next < all.len())
            &&& x.next_offset == if next < all.len() {
                Some(next as usize)
            } else {
                None
            }
        }),
{
}

/// A read without a name shows a page of what is recalled, of what meets its
/// bounds: trusted at least as much as it asks for, and made between its dates.
/// A page begins at its offset and has as many memories as were asked for, from
/// one to a hundred, or thirty; it says how many there are in all, and whether
/// there is a next.
pub proof fn law_read_shows_a_page(
    d: DispatcherView,
    env: IpcEnvelope,
    args: MemoryReadArgs,
    hits: Seq<HitView>,
)
    requires
        args.id is None,
        args.ids is None || args.ids->0@.len() == 0,
    ensures
        memory_read(d, env, args, hits).1 matches Ok(r) ==> {
            let all = recalled(d.store, args, hits).filter(
                |m: MemoryView|
                    {
                        &&& args.min_confidence is Some ==> (args.min_confidence->0).0
                            <= m.confidence.0
                        &&& args.after_date is Some ==> (date_start(args.after_date->0@) matches Some(
                            t,
                        ) ==> t <= m.created_at.0)
                        &&& args.before_date is Some ==> (date_start(
                            args.before_date->0@,
                        ) matches Some(t) ==> m.created_at.0 <= t)
                    },
            );
            let from = if args.offset is Some {
                args.offset->0 as int
            } else {
                0
            };
            let limit = if args.limit is None {
                30int
            } else if args.limit->0 < 1 {
                1
            } else if args.limit->0 > 100 {
                100
            } else {
                args.limit->0 as int
            };
            &&& !r.is_error
            &&& r.structured matches Some(ToolDataView::Read(x))
            &&& x.total == Some(all.len() as usize)
            &&& x.count == x.fragments.len()
            &&& x.fragments.len() == if from >= all.len() {
                0
            } else if from + limit < all.len() {
                limit
            } else {
                all.len() - from
            }
            &&& forall|i: int|
                0 <= i < x.fragments.len() ==> {
                    let shown = #[trigger] x.fragments[i];
                    let m = all[from + i];
                    &&& shown.title == m.title
                    &&& shown.confidence == m.confidence
                    &&& shown.project == m.project
                    &&& m.external_alias is Some ==> shown.id == m.external_alias->0
                    &&& m.description.len() > 0 ==> shown.description == Some(m.description)
                }
            &&& x.has_more == (from + limit < all.len())
            &&& x.next_offset == if from + limit < all.len() {
                Some((from + limit) as usize)
            } else {
                None
            }
        },
{
    reveal(memory_read);
    let p = |m: MemoryView| within_bounds(args, m);
    let q = |m: MemoryView|
        {
            &&& args.min_confidence is Some ==> (args.min_confidence->0).0 <= m.confidence.0
            &&& args.after_date is Some ==> (date_start(args.after_date->0@) matches Some(t) ==> t
                <= m.created_at.0)
            &&& args.before_date is Some ==> (date_start(args.before_date->0@) matches Some(t)
                ==> m.created_at.0 <= t)
        };
    assert forall|m: MemoryView| #[trigger] p(m) == q(m) by {}
    assert(p =~= q);
    let all = recalled(d.store, args, hits).filter(p);
    lemma_shown_page(args, all);
    lemma_page(all, page_offset(args), page_limit(args));
    assert(memory_read(d, env, args, hits) == read_page(d, env, args, hits));
    if memory_read(d, env, args, hits).1 is Ok {
        let r = memory_read(d, env, args, hits).1->Ok_0;
        let x = r.structured->0->Read_0;
        let ms = page(all, page_offset(args), page_limit(args));
        assert(r == shown_page(args, all));
        assert(x.fragments.len() == ms.len());
        assert forall|i: int| 0 <= i < ms.len() implies #[trigger] x.fragments[i]
            == summary_entry(all[page_offset(args) + i]) by {
            assert(ms[i] == all[page_offset(args) + i]);
        }
    }
}

/// A search that the backend knows nothing of finds a memory if and only if it
/// is live, belongs to the project that is named or to none, and holds a word of
/// the query. Without a project it looks in all.
pub proof fn law_search_finds_the_words(s: StateView, args: SemanticSearchArgs)
    ensures
        forall|m: MemoryView|
            (exists|i: int|
                0 <= i < found_for(s, args, Seq::empty()).len() && (#[trigger] found_for(
                    s,
                    args,
                    Seq::empty(),
                )[i]).memory == m) <==> {
                &&& #[trigger] s.memories.contains(m)
                &&& m.lifecycle is Live
                &&& args.project is Some && m.project is Some ==> m.project->0 == args.project->0@
                &&& ({
                    let text = lowercase(m.title + " "@ + m.fragment);
                    exists|w: Seq<char>, k: int|
                        {
                            &&& #[trigger] words(lowercase(args.query@)).contains(w)
                            &&& 0 <= k && k + w.len() <= text.len()
                            &&& #[trigger] text.subrange(k, k + w.len()) == w
                        }
                })
            },
{
    let q = lowercase(args.query@);
    let keep = |m: MemoryView| may_be_found(args, m);
    let key = |m: MemoryView| (-(relevance(m, q) as int), m.id.0 as int);
    lemma_by_id(s.memories);
    lemma_filter_keeps(by_id(s.memories), keep);
    let ms = by_id(s.memories).filter(keep);
    lemma_ranked(ms, key);
    let r = ranked(ms, key);
    let list = found_for(s, args, Seq::empty());
    assert(list.len() == r.len());
    assert forall|i: int| 0 <= i < list.len() implies (#[trigger] list[i]).memory == r[i] by {}
    assert forall|m: MemoryView|
        (exists|i: int| 0 <= i < list.len() && (#[trigger] list[i]).memory == m) <==> {
            &&& #[trigger] s.memories.contains(m)
            &&& m.lifecycle is Live
            &&& args.project is Some && m.project is Some ==> m.project->0 == args.project->0@
            &&& ({
                let text = lowercase(m.title + " "@ + m.fragment);
                exists|w: Seq<char>, k: int|
                    {
                        &&& #[trigger] words(lowercase(args.query@)).contains(w)
                        &&& 0 <= k && k + w.len() <= text.len()
                        &&& #[trigger] text.subrange(k, k + w.len()) == w
                    }
            })
        } by {
        let text = lowercase(m.title + " "@ + m.fragment);
        let held = |w: Seq<char>| part_of(w, lowercase(m.title + " "@ + m.fragment));
        lemma_filter_keeps(words(q), held);
        let f = words(q).filter(held);
        if relevance(m, q) > 0 {
            assert(f.contains(f[0]));
            let w = f[0];
            let k = choose|k: int| at(text, w, k);
            assert(words(q).contains(w) && text.subrange(k, k + w.len()) == w);
        }
        if exists|w: Seq<char>, k: int|
            {
                &&& #[trigger] words(q).contains(w)
                &&& 0 <= k && k + w.len() <= text.len()
                &&& #[trigger] text.subrange(k, k + w.len()) == w
            } {
            let (w, k) = choose|w: Seq<char>, k: int|
                {
                    &&& #[trigger] words(q).contains(w)
                    &&& 0 <= k && k + w.len() <= text.len()
                    &&& #[trigger] text.subrange(k, k + w.len()) == w
                };
            assert(at(text, w, k));
            assert(f.contains(w));
        }
        assert(r.contains(m) <==> ms.contains(m));
        if r.contains(m) {
            let i = r.index_of(m);
            assert(list[i].memory == m);
        }
        if exists|i: int| 0 <= i < list.len() && (#[trigger] list[i]).memory == m {
            let i = choose|i: int| 0 <= i < list.len() && (#[trigger] list[i]).memory == m;
            assert(r[i] == m);
            assert(r.contains(m));
        }
    }
}

/// No memory that a search finds by its words is followed by one that holds
/// more of them, and none is found twice.
pub proof fn law_search_puts_the_most_words_first(s: StateView, args: SemanticSearchArgs)
    ensures
        ({
            let list = found_for(s, args, Seq::empty());
            let held = |m: MemoryView| {
                let text = lowercase(m.title + " "@ + m.fragment);
                words(lowercase(args.query@)).filter(
                    |w: Seq<char>|
                        exists|k: int|
                            0 <= k && k + w.len() <= text.len() && #[trigger] text.subrange(
                                k,
                                k + w.len(),
                            ) == w,
                ).len()
            };
            &&& forall|i: int, j: int|
                0 <= i < j < list.len() ==> {
                    ||| held((#[trigger] list[i]).memory) > held((#[trigger] list[j]).memory)
                    ||| held(list[i].memory) == held(list[j].memory) && list[i].memory.id.0
                        <= list[j].memory.id.0
                }
            &&& s.memories.no_duplicates() ==> forall|i: int, j: int|
                0 <= i < j < list.len() ==> (#[trigger] list[i]).memory != (
                #[trigger] list[j]).memory
        }),
{
    let q = lowercase(args.query@);
    let keep = |m: MemoryView| may_be_found(args, m);
    let key = |m: MemoryView| (-(relevance(m, q) as int), m.id.0 as int);
    lemma_by_id(s.memories);
    lemma_filter_keeps(by_id(s.memories), keep);
    let ms = by_id(s.memories).filter(keep);
    lemma_ranked(ms, key);
    lemma_ranked_order(ms, key);
    lemma_ranked_once(ms, key);
    let r = ranked(ms, key);
    let list = found_for(s, args, Seq::empty());
    assert(list.len() == r.len());
    assert forall|i: int| 0 <= i < list.len() implies (#[trigger] list[i]).memory == r[i] by {}
    assert forall|m: MemoryView| relevance(m, q) == ({
        let text = lowercase(m.title + " "@ + m.fragment);
        words(q).filter(
            |w: Seq<char>|
                exists|k: int|
                    0 <= k && k + w.len() <= text.len() && #[trigger] text.subrange(
                        k,
                        k + w.len(),
                    ) == w,
        ).len()
    }) by {
        lemma_relevance_counts(m, q);
    }
}

/// What the search backend found is given as it was found, with its scores.
pub proof fn law_search_keeps_what_the_backend_found(
    s: StateView,
    args: SemanticSearchArgs,
    hits: Seq<HitView>,
)
    requires
        hits.len() > 0,
    ensures
        found_for(s, args, hits) == hits,
{
}

/// A search shows a page of what it finds: as many as were asked for, from one
/// to thirty, or ten. Each stands there with its own title, score and text.
pub proof fn law_search_shows_a_page(s: StateView, args: SemanticSearchArgs, hits: Seq<HitView>)
    ensures
        ({
            let all = found_for(s, args, hits);
            let r = semantic_search(s, args, hits);
            let from = if args.offset is Some {
                args.offset->0 as int
            } else {
                0
            };
            let limit = if args.top_k is None {
                10int
            } else if args.top_k->0 < 1 {
                1
            } else if args.top_k->0 > 30 {
                30
            } else {
                args.top_k->0 as int
            };
            &&& !r.is_error
            &&& r.structured matches Some(ToolDataView::Search(x))
            &&& x.total == all.len() as usize
            &&& x.count == x.results.len()
            &&& x.results.len() == if from >= all.len() {
                0
            } else if from + limit < all.len() {
                limit
            } else {
                all.len() - from
            }
            &&& forall|i: int|
                0 <= i < x.results.len() ==> {
                    let shown = #[trigger] x.results[i];
                    let h = all[from + i];
                    &&& shown.title == h.memory.title
                    &&& shown.score == h.score
                    &&& shown.fragment_preview.is_prefix_of(h.memory.fragment)
                    &&& h.memory.external_alias is Some ==> shown.id == h.memory.external_alias->0
                }
            &&& x.has_more == (from + limit < all.len())
            &&& x.next_offset == if from + limit < all.len() {
                Some((from + limit) as usize)
            } else {
                None
            }
        }),
{
    reveal(semantic_search);
    let all = found_for(s, args, hits);
    let r = semantic_search(s, args, hits);
    let shown = page(all, search_offset(args), search_limit(args));
    lemma_page(all, search_offset(args), search_limit(args));
    let x = r.structured->0->Search_0;
    assert(x.results == shown.map_values(|h: HitView| result_entry(h)));
    assert(x.results.len() == shown.len());
    assert forall|i: int| 0 <= i < shown.len() implies #[trigger] x.results[i] == result_entry(
        all[search_offset(args) + i],
    ) by {
        assert(shown[i] == all[search_offset(args) + i]);
    }
    assert forall|t: Seq<char>| #[trigger] first_chars(t, 200).is_prefix_of(t) by {}
}

} // verus!
