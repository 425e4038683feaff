//! What holds of every guide that is suggested or asked for.

use crate::canonical::repository::guide_of;
use crate::compatibility::lemma::tool_args::GuideGetArgs;
use crate::daemon::tools::data::ToolDataView;
use crate::daemon::tools::guide_laws::lemma_first_place;
use crate::daemon::tools::guide_text::guide_entry;
use crate::daemon::tools::guides::{guide_get, guides_in};
use crate::daemon::tools::suggest::{
    any_match, by_guide, by_task, calls_for, near_one, nested, own_suggestion, spaced, speaks_of,
    suggested, suggests, task_suggestion, token_match, tokens, GuideSuggestionView,
};
use crate::daemon::tools::task_map::task_guides;
use crate::domain::guide::GuideView;
use crate::domain::state::StateView;
use crate::lists::first_place;
use crate::overlap::byte_len;
use crate::rank::lemma_filter_keeps;
use crate::text::{ascii_lower, eq_fold, lowercase, opt_view, part_of, words};
use vstd::prelude::*;

verus! {

/// The words that are compared are those of the text in lower case, with a blank
/// for each hyphen and underscore, that have two bytes or more.
pub proof fn law_tokens_are_words(s: Seq<char>, plain: Seq<char>)
    requires
        plain.len() == lowercase(s).len(),
        forall|i: int|
            0 <= i < plain.len() ==> #[trigger] plain[i] == (if lowercase(s)[i] == '-' || lowercase(
                s,
            )[i] == '_' {
                ' '
            } else {
                lowercase(s)[i]
            }),
    ensures
        forall|w: Seq<char>| #[trigger]
            tokens(s).contains(w) <==> words(plain).contains(w) && byte_len(w) >= 2,
{
    assert(plain =~= lowercase(s).map_values(|c: char| spaced(c)));
    lemma_filter_keeps(words(plain), |w: Seq<char>| byte_len(w) >= 2);
}

/// A text speaks of another if and only if a word of the one stands in a word of
/// the other, whichever way round.
pub proof fn law_matching_shares_a_word(a: Seq<char>, b: Seq<char>)
    ensures
        token_match(a, b) <==> exists|i: int, j: int|
            {
                &&& 0 <= i < tokens(a).len() && 0 <= j < tokens(b).len()
                &&& part_of(#[trigger] tokens(a)[i], #[trigger] tokens(b)[j]) || part_of(
                    tokens(b)[j],
                    tokens(a)[i],
                )
            },
        token_match(a, b) == token_match(b, a),
{
    let ta = tokens(a);
    let tb = tokens(b);
    if token_match(a, b) {
        let i = choose|i: int| 0 <= i < ta.len() && near_one(#[trigger] ta[i], tb);
        let j = choose|j: int| 0 <= j < tb.len() && nested(ta[i], #[trigger] tb[j]);
        assert(part_of(ta[i], tb[j]) || part_of(tb[j], ta[i]));
        assert(nested(tb[j], ta[i]));
        assert(near_one(tb[j], ta));
    }
    if token_match(b, a) {
        let j = choose|j: int| 0 <= j < tb.len() && near_one(#[trigger] tb[j], ta);
        let i = choose|i: int| 0 <= i < ta.len() && nested(tb[j], #[trigger] ta[i]);
        assert(nested(ta[i], tb[j]));
        assert(near_one(ta[i], tb));
    }
    if exists|i: int, j: int|
        {
            &&& 0 <= i < ta.len() && 0 <= j < tb.len()
            &&& part_of(#[trigger] ta[i], #[trigger] tb[j]) || part_of(tb[j], ta[i])
        } {
        let (i, j) = choose|i: int, j: int|
            {
                &&& 0 <= i < ta.len() && 0 <= j < tb.len()
                &&& part_of(#[trigger] ta[i], #[trigger] tb[j]) || part_of(tb[j], ta[i])
            };
        assert(nested(ta[i], tb[j]));
        assert(near_one(ta[i], tb));
    }
}

proof fn lemma_by_task(desc: Seq<char>, guides: Seq<GuideView>, n: int)
    requires
        0 <= n <= task_guides().len(),
    ensures
        ({
            let list = by_task(desc, guides, n);
            &&& forall|i: int, j: int|
                0 <= i < j < list.len() ==> (#[trigger] list[i]).guide != (#[trigger] list[j]).guide
            &&& forall|i: int|
                #![trigger list[i]]
                0 <= i < list.len() ==> exists|t: int|
                    0 <= t < n && calls_for(#[trigger] task_guides()[t], desc) && list[i]
                        == task_suggestion(task_guides()[t], guides)
            &&& forall|t: int|
                0 <= t < n && calls_for(#[trigger] task_guides()[t], desc) ==> suggests(
                    list,
                    task_guides()[t].guide,
                )
        }),
    decreases n,
{
    if n > 0 {
        lemma_by_task(desc, guides, n - 1);
        let rest = by_task(desc, guides, n - 1);
        let list = by_task(desc, guides, n);
        let t = task_guides()[n - 1];
        if !suggests(rest, t.guide) && calls_for(t, desc) {
            let x = task_suggestion(t, guides);
            assert(list == rest.push(x));
            assert(x.guide == t.guide);
            assert forall|i: int|
                #![trigger list[i]]
                0 <= i < list.len() implies exists|t: int|
                0 <= t < n && calls_for(#[trigger] task_guides()[t], desc) && list[i]
                    == task_suggestion(task_guides()[t], guides) by {
                if i < rest.len() {
                    let k = choose|k: int|
                        0 <= k < n - 1 && calls_for(#[trigger] task_guides()[k], desc) && rest[i]
                            == task_suggestion(task_guides()[k], guides);
                    assert(calls_for(task_guides()[k], desc) && list[i] == task_suggestion(
                        task_guides()[k],
                        guides,
                    ));
                } else {
                    assert(calls_for(task_guides()[n - 1], desc));
                }
            }
            lemma_suggests_on(rest, x);
        } else {
            assert(list == rest);
            assert forall|i: int|
                #![trigger list[i]]
                0 <= i < list.len() implies exists|t: int|
                0 <= t < n && calls_for(#[trigger] task_guides()[t], desc) && list[i]
                    == task_suggestion(task_guides()[t], guides) by {
                let k = choose|k: int|
                    0 <= k < n - 1 && calls_for(#[trigger] task_guides()[k], desc) && rest[i]
                        == task_suggestion(task_guides()[k], guides);
                assert(calls_for(task_guides()[k], desc) && list[i] == task_suggestion(
                    task_guides()[k],
                    guides,
                ));
            }
        }
        assert forall|k: int| 0 <= k < n && calls_for(#[trigger] task_guides()[k], desc) implies suggests(
            list,
            task_guides()[k].guide,
        ) by {
            if k < n - 1 {
                assert(suggests(rest, task_guides()[k].guide));
            }
        }
    }
}

proof fn lemma_suggests_on(rest: Seq<GuideSuggestionView>, x: GuideSuggestionView)
    ensures
        forall|name: Seq<char>| #[trigger]
            suggests(rest.push(x), name) <==> suggests(rest, name) || name == x.guide,
{
    let list = rest.push(x);
    assert(list[rest.len() as int] == x);
    assert forall|name: Seq<char>| #[trigger] suggests(list, name) <==> suggests(rest, name) || name
        == x.guide by {
        if suggests(rest, name) {
            let i = choose|i: int| 0 <= i < rest.len() && (#[trigger] rest[i]).guide == name;
            assert(list[i].guide == name);
        }
        if suggests(list, name) {
            let i = choose|i: int| 0 <= i < list.len() && (#[trigger] list[i]).guide == name;
            if i < rest.len() {
                assert(rest[i].guide == name);
            }
        }
    }
}

/// Whether a suggestion is of one of the first guides that the task speaks of.
spec fn is_of_a_guide(
    x: GuideSuggestionView,
    desc: Seq<char>,
    guides: Seq<GuideView>,
    n: int,
) -> bool {
    exists|k: int|
        0 <= k < n && speaks_of(#[trigger] guides[k], desc) && x == own_suggestion(guides[k])
}

proof fn lemma_by_guide(
    from: Seq<GuideSuggestionView>,
    desc: Seq<char>,
    guides: Seq<GuideView>,
    n: int,
)
    requires
        0 <= n <= guides.len(),
        forall|i: int, j: int|
            0 <= i < j < from.len() ==> (#[trigger] from[i]).guide != (#[trigger] from[j]).guide,
    ensures
        ({
            let list = by_guide(from, desc, guides, n);
            &&& from.len() <= list.len()
            &&& forall|i: int| 0 <= i < from.len() ==> #[trigger] list[i] == from[i]
            &&& forall|i: int, j: int|
                0 <= i < j < list.len() ==> (#[trigger] list[i]).guide != (#[trigger] list[j]).guide
            &&& forall|i: int|
                #![trigger list[i]]
                from.len() <= i < list.len() ==> is_of_a_guide(list[i], desc, guides, n)
            &&& forall|k: int|
                0 <= k < n && speaks_of(#[trigger] guides[k], desc) ==> suggests(
                    list,
                    guides[k].name,
                )
        }),
    decreases n,
{
    if n > 0 {
        lemma_by_guide(from, desc, guides, n - 1);
        let rest = by_guide(from, desc, guides, n - 1);
        let list = by_guide(from, desc, guides, n);
        let g = guides[n - 1];
        assert forall|x: GuideSuggestionView|
            is_of_a_guide(x, desc, guides, n - 1) implies #[trigger] is_of_a_guide(
            x,
            desc,
            guides,
            n,
        ) by {
            let k = choose|k: int|
                0 <= k < n - 1 && speaks_of(#[trigger] guides[k], desc) && x == own_suggestion(
                    guides[k],
                );
            assert(speaks_of(guides[k], desc) && x == own_suggestion(guides[k]));
        }
        if !suggests(rest, g.name) && speaks_of(g, desc) {
            let x = own_suggestion(g);
            assert(list == rest.push(x));
            assert(x.guide == g.name);
            assert forall|i: int, j: int| 0 <= i < j < list.len() implies (
            #[trigger] list[i]).guide != (#[trigger] list[j]).guide by {
                assert(list[i] == rest[i]);
                if j < rest.len() {
                    assert(list[j] == rest[j]);
                }
            }
            lemma_suggests_on(rest, x);
            assert(speaks_of(guides[n - 1], desc) && x == own_suggestion(guides[n - 1]));
            assert(is_of_a_guide(x, desc, guides, n));
            assert forall|i: int| from.len() <= i < list.len() implies is_of_a_guide(
                #[trigger] list[i],
                desc,
                guides,
                n,
            ) by {
                if i < rest.len() {
                    assert(list[i] == rest[i]);
                    assert(is_of_a_guide(rest[i], desc, guides, n - 1));
                }
            }
        } else {
            assert(list == rest);
            assert forall|i: int| from.len() <= i < list.len() implies is_of_a_guide(
                #[trigger] list[i],
                desc,
                guides,
                n,
            ) by {
                assert(is_of_a_guide(rest[i], desc, guides, n - 1));
            }
        }
        assert forall|k: int| 0 <= k < n && speaks_of(#[trigger] guides[k], desc) implies suggests(
            list,
            guides[k].name,
        ) by {
            if k < n - 1 {
                assert(suggests(rest, guides[k].name));
            }
        }
    }
}

/// No guide is suggested twice for a task.
pub proof fn law_suggestions_come_once(task: Seq<char>, guides: Seq<GuideView>)
    ensures
        forall|i: int, j: int|
            0 <= i < j < suggested(task, guides).len() ==> (#[trigger] suggested(
                task,
                guides,
            )[i]).guide != (#[trigger] suggested(task, guides)[j]).guide,
{
    let desc = lowercase(task);
    let n = task_guides().len() as int;
    lemma_by_task(desc, guides, n);
    lemma_by_guide(by_task(desc, guides, n), desc, guides, guides.len() as int);
}

/// A guide that is known for a task is suggested if the text of the task holds
/// its name or one of its keywords, and a guide in use is if the task speaks of
/// its name, of a context or of something learnt from it.
pub proof fn law_fitting_guides_are_suggested(
    task: Seq<char>,
    guides: Seq<GuideView>,
    t: int,
    k: int,
    k2: int,
)
    requires
        0 <= t < task_guides().len(),
        0 <= k < guides.len(),
    ensures
        ({
            let list = suggested(task, guides);
            let known = task_guides()[t];
            let g = guides[k];
            &&& part_of(known.guide, lowercase(task)) || (0 <= k2 < known.keywords.len() && part_of(
                lowercase(known.keywords[k2]),
                lowercase(task),
            )) ==> exists|i: int|
                0 <= i < list.len() && (#[trigger] list[i]).guide == known.guide
            &&& {
                ||| token_match(lowercase(task), g.name)
                ||| 0 <= k2 < g.contexts.len() && token_match(lowercase(task), g.contexts[k2])
                ||| 0 <= k2 < g.learnings.len() && token_match(lowercase(task), g.learnings[k2])
            } ==> exists|i: int| 0 <= i < list.len() && (#[trigger] list[i]).guide == g.name
        }),
{
    let desc = lowercase(task);
    let n = task_guides().len() as int;
    let first = by_task(desc, guides, n);
    lemma_by_task(desc, guides, n);
    lemma_by_guide(first, desc, guides, guides.len() as int);
    let list = suggested(task, guides);
    let known = task_guides()[t];
    if calls_for(known, desc) {
        assert(suggests(first, known.guide));
        let i = choose|i: int| 0 <= i < first.len() && (#[trigger] first[i]).guide == known.guide;
        assert(list[i] == first[i]);
    }
    if speaks_of(guides[k], desc) {
        assert(suggests(list, guides[k].name));
    }
    if 0 <= k2 < guides[k].contexts.len() && token_match(desc, guides[k].contexts[k2]) {
        assert(any_match(desc, guides[k].contexts));
    }
    if 0 <= k2 < guides[k].learnings.len() && token_match(desc, guides[k].learnings[k2]) {
        assert(any_match(desc, guides[k].learnings));
    }
}

/// Each guide that is suggested fits the task: it is known for one whose name or
/// keyword stands in the text, or is in use and the task speaks of it. It is
/// told whether the guide is in use, how often it was used and what was learnt
/// from it.
pub proof fn law_suggestions_fit(task: Seq<char>, guides: Seq<GuideView>, i: int)
    requires
        0 <= i < suggested(task, guides).len(),
    ensures
        ({
            let x = suggested(task, guides)[i];
            &&& {
                ||| exists|t: int|
                    {
                        &&& 0 <= t < task_guides().len()
                        &&& (#[trigger] task_guides()[t]).guide == x.guide
                        &&& {
                            ||| part_of(task_guides()[t].guide, lowercase(task))
                            ||| exists|w: Seq<char>| #[trigger]
                                task_guides()[t].keywords.contains(w) && part_of(
                                    lowercase(w),
                                    lowercase(task),
                                )
                        }
                    }
                ||| exists|k: int|
                    {
                        &&& 0 <= k < guides.len()
                        &&& (#[trigger] guides[k]).name == x.guide
                        &&& {
                            ||| token_match(lowercase(task), guides[k].name)
                            ||| exists|w: Seq<char>|
                                (guides[k].contexts.contains(w) || guides[k].learnings.contains(w))
                                    && #[trigger] token_match(lowercase(task), w)
                        }
                    }
            }
            &&& x.is_tracked ==> exists|k: int|
                {
                    &&& 0 <= k < guides.len()
                    &&& (#[trigger] guides[k]).name == x.guide
                    &&& x.usage_count == guides[k].usage_count
                    &&& x.learnings == guides[k].learnings
                    &&& x.contexts == guides[k].contexts
                }
            &&& !x.is_tracked ==> x.usage_count == 0 && x.learnings.len() == 0 && forall|k: int|
                0 <= k < guides.len() ==> (#[trigger] guides[k]).name != x.guide
        }),
{
    let desc = lowercase(task);
    let n = task_guides().len() as int;
    let first = by_task(desc, guides, n);
    lemma_by_task(desc, guides, n);
    lemma_by_guide(first, desc, guides, guides.len() as int);
    let x = suggested(task, guides)[i];
    if i < first.len() {
        assert(first[i] == x);
        let t = choose|t: int|
            0 <= t < n && calls_for(#[trigger] task_guides()[t], desc) && first[i]
                == task_suggestion(task_guides()[t], guides);
        let known = task_guides()[t];
        assert(known.guide == x.guide);
        if !part_of(known.guide, desc) {
            let k = choose|k: int|
                0 <= k < known.keywords.len() && part_of(
                    lowercase(#[trigger] known.keywords[k]),
                    desc,
                );
            assert(known.keywords.contains(known.keywords[k]));
        }
        let same = |g: GuideView| g.name == known.guide;
        lemma_first_place(guides, same, 0);
        let p = first_place(guides, same, 0);
        if p < guides.len() {
            assert(guides[p].name == x.guide);
        } else {
            assert forall|k: int| 0 <= k < guides.len() implies (#[trigger] guides[k]).name
                != x.guide by {
                assert(!same(guides[k]));
            }
        }
    } else {
        assert(is_of_a_guide(x, desc, guides, guides.len() as int));
        let k = choose|k: int|
            0 <= k < guides.len() && speaks_of(#[trigger] guides[k], desc) && x == own_suggestion(
                guides[k],
            );
        let g = guides[k];
        assert(g.name == x.guide);
        if !token_match(desc, g.name) {
            if any_match(desc, g.contexts) {
                let c = choose|c: int|
                    0 <= c < g.contexts.len() && token_match(desc, #[trigger] g.contexts[c]);
                assert(g.contexts.contains(g.contexts[c]));
            } else {
                let c = choose|c: int|
                    0 <= c < g.learnings.len() && token_match(desc, #[trigger] g.learnings[c]);
                assert(g.learnings.contains(g.learnings[c]));
            }
        }
    }
}

/// Asked for a task, the names of the guides that are suggested for it are
/// given.
pub proof fn law_guides_for_a_task_are_given(s: StateView, args: GuideGetArgs)
    requires
        args.task is Some,
    ensures
        ({
            let r = guide_get(s, args);
            let list = suggested(args.task->0@, s.guides);
            &&& !r.is_error
            &&& r.structured matches Some(ToolDataView::GuideNames { names })
            &&& names.len() == list.len()
            &&& forall|i: int| 0 <= i < names.len() ==> #[trigger] names[i] == list[i].guide
        }),
{
    reveal(guide_get);
}

/// Asked for a guide, the one of that name is given as it is kept, and none if
/// there is none.
pub proof fn law_guide_asked_for_is_given(s: StateView, args: GuideGetArgs)
    requires
        args.task is None,
        args.guide is Some,
    ensures
        ({
            let r = guide_get(s, args);
            &&& !r.is_error
            &&& r.structured matches Some(ToolDataView::GuideDetail { guide })
            &&& match (guide, guide_of(s.guides, args.guide->0@)) {
                (Some(e), Some(g)) => {
                    &&& e.guide == g.name && e.category == g.category
                    &&& e.description == g.description && e.usage_count == g.usage_count
                    &&& e.success_count == g.success_count && e.failure_count == g.failure_count
                    &&& e.contexts == g.contexts && e.learnings == g.learnings
                },
                (None, None) => true,
                _ => false,
            }
        }),
{
    reveal(guide_get);
}

/// Asked for no guide, all of them are given, or those of the category, whatever
/// the case of its ASCII letters; each with its figures.
pub proof fn law_guides_of_a_category_are_given(
    s: StateView,
    args: GuideGetArgs,
    of_it: spec_fn(GuideView) -> bool,
)
    requires
        args.task is None,
        args.guide is None,
        forall|g: GuideView| #[trigger]
            of_it(g) <==> (args.category is Some ==> {
                &&& g.category.len() == args.category->0@.len()
                &&& forall|c: int|
                    0 <= c < g.category.len() ==> ascii_lower(#[trigger] g.category[c])
                        == ascii_lower(args.category->0@[c])
            }),
    ensures
        ({
            let r = guide_get(s, args);
            let list = s.guides.filter(of_it);
            &&& !r.is_error
            &&& r.structured matches Some(ToolDataView::Guides { guides })
            &&& guides.len() == list.len()
            &&& forall|i: int|
                0 <= i < guides.len() ==> {
                    &&& (#[trigger] guides[i]).guide == list[i].name
                    &&& guides[i].category == list[i].category
                    &&& guides[i].usage_count == list[i].usage_count
                    &&& guides[i].success_count == list[i].success_count
                    &&& guides[i].failure_count == list[i].failure_count
                    &&& guides[i].learnings == list[i].learnings
                }
        }),
{
    reveal(guide_get);
    let gs = guides_in(s.guides, opt_view(args.category));
    if args.category is Some {
        let c = args.category->0@;
        assert(of_it =~= (|g: GuideView| eq_fold(g.category, c)));
    } else {
        lemma_all_kept(s.guides, of_it);
    }
    assert(gs == s.guides.filter(of_it));
    let entries = gs.map_values(|g: GuideView| guide_entry(g));
    assert(guide_get(s, args).structured == Some(ToolDataView::Guides { guides: entries }));
}

proof fn lemma_all_kept(gs: Seq<GuideView>, p: spec_fn(GuideView) -> bool)
    requires
        forall|g: GuideView| #[trigger] p(g),
    ensures
        gs.filter(p) == gs,
    decreases gs.len(),
{
    reveal(Seq::filter);
    if gs.len() > 0 {
        lemma_all_kept(gs.drop_last(), p);
        assert(gs.drop_last().push(gs.last()) =~= gs);
    }
}

} // verus!
