//! What holds of every memory that is added, changed, judged, forgotten, merged
//! and related by a tool.

use crate::canonical::command_laws::{
    law_feedback_is_counted, law_forgetting_marks_the_memory, law_merging_archives_the_sources,
    law_relating_adds_one_edge, law_update_sets_what_it_names,
};
use crate::canonical::guarantees::takes_effect;
use crate::canonical::repository::{by_id, looked_up, resolved, stored};
use crate::compatibility::lemma::tool_args::{
    MemoryAddArgs, MemoryFeedbackArgs, MemoryForgetArgs, MemoryMergeArgs, MemoryRelateArgs,
    MemoryUpdateArgs,
};
use crate::daemon::dispatcher::DispatcherView;
use crate::daemon::envelope::IpcEnvelope;
use crate::daemon::tools::add::{alike, in_the_way, kept_fragment, memory_add};
use crate::daemon::tools::common::new_edge;
use crate::daemon::tools::data::ToolDataView;
use crate::daemon::tools::edit::{
    forget_command, memory_feedback, memory_forget, memory_merge, memory_relate, memory_update,
    merged_memory, says_the_same, update_patch,
};
use crate::daemon::tools::guide_laws::lemma_first_place;
use crate::daemon::tools::read::{ids_of, named};
use crate::daemon::tools::recall_laws::lemma_by_id;
use crate::domain::command::{DomainCommandView, ForgetMode};
use crate::domain::id::EntityId;
use crate::domain::memory::{Instant, MemoryLifecycle, MemoryView};
use crate::domain::relation::RelationType;
use crate::domain::score::Score;
use crate::domain::state::{has_receipt, memory_of, unique_memories, StateView};
use crate::double::law_fractions_keep_their_order;
use crate::lists::first_place;
use crate::overlap::{common, vocabulary};
use crate::rank::{lemma_filter_keeps, lemma_filter_members};
use crate::text::{opt_view, views};
use vstd::prelude::*;

verus! {

/// Two texts are alike where they have more than four fifths of all their words
/// in common, and not where they have fewer.
pub proof fn law_alike_texts_share_their_words(a: Seq<char>, b: Seq<char>)
    requires
        vocabulary(a).len() > 0,
        vocabulary(b).len() > 0,
        vocabulary(a).len() + vocabulary(b).len() < 0x100_0000_0000,
    ensures
        ({
            let both = common(vocabulary(a), vocabulary(b));
            let all = vocabulary(a).len() + vocabulary(b).len() - both;
            &&& both <= vocabulary(a).len()
            &&& 5 * both > 4 * all ==> alike(a, b)
            &&& 5 * both < 4 * all ==> !alike(a, b)
        }),
{
    let ta = vocabulary(a);
    let tb = vocabulary(b);
    let both = common(ta, tb);
    lemma_filter_members(ta, |w: Seq<char>| tb.contains(w));
    let all = (ta.len() + tb.len() - both) as nat;
    law_fractions_keep_their_order(both, all, 4, 5);
    assert(both * 5 == 5 * both && 4 * all == all * 4);
}

/// A memory is not added where a live one of its project or of none has more
/// than four fifths of all their words in common with it: the answer is an
/// error, and nothing changes. Where every live one has fewer, the answer is no
/// error.
pub proof fn law_duplicates_are_not_added(d: DispatcherView, env: IpcEnvelope, args: MemoryAddArgs)
    ensures
        ({
            let text = kept_fragment(args);
            let r = memory_add(d, env, args);
            &&& forall|i: int|
                {
                    let m = #[trigger] d.store.memories[i];
                    &&& 0 <= i < d.store.memories.len()
                    &&& m.lifecycle is Live
                    &&& args.project is None || m.project is None || m.project == Some(
                        args.project->0@,
                    )
                    &&& alike(text, m.fragment)
                } ==> r.0 == d && r.1 is Ok && r.1->Ok_0.is_error
            &&& (forall|i: int|
                {
                    let m = #[trigger] d.store.memories[i];
                    &&& 0 <= i < d.store.memories.len()
                    &&& m.lifecycle is Live
                    &&& args.project is None || m.project is None || m.project == Some(
                        args.project->0@,
                    )
                } ==> !alike(text, d.store.memories[i].fragment)) ==> (r.1 is Ok
                ==> !r.1->Ok_0.is_error)
        }),
{
    reveal(memory_add);
    let text = kept_fragment(args);
    let all = by_id(d.store.memories);
    let cond = |m: MemoryView| in_the_way(args, text, m);
    lemma_by_id(d.store.memories);
    lemma_first_place(all, cond, 0);
    let p = first_place(all, cond, 0);
    assert forall|i: int|
        {
            let m = #[trigger] d.store.memories[i];
            &&& 0 <= i < d.store.memories.len()
            &&& m.lifecycle is Live
            &&& args.project is None || m.project is None || m.project == Some(args.project->0@)
            &&& alike(text, m.fragment)
        } implies p < all.len() by {
        let m = d.store.memories[i];
        assert(d.store.memories.contains(m));
        assert(all.contains(m));
        let k = all.index_of(m);
        assert(cond(all[k]));
    }
    if p < all.len() {
        let m = all[p];
        assert(all.contains(m));
        assert(d.store.memories.contains(m));
        let i = d.store.memories.index_of(m);
        assert(d.store.memories[i] == m);
        assert(cond(m));
    }
}

/// The position of the memory that a name stands for.
proof fn lemma_looked_up(s: StateView, name: Seq<char>) -> (k: int)
    requires
        looked_up(s, name) is Some,
    ensures
        0 <= k < s.memories.len(),
        s.memories[k] == looked_up(s, name)->0,
        resolved(s, name) == Some(s.memories[k].id),
{
    let id = resolved(s, name)->0;
    choose|i: int| 0 <= i < s.memories.len() && (#[trigger] s.memories[i]).id == id
}

/// Feedback goes to the memory of the name and to no other. Praise counts as
/// praise and does not lower its confidence, blame counts as blame and does not
/// raise it, and the answer gives the confidence that it has now.
pub proof fn law_feedback_reaches_the_memory(
    d: DispatcherView,
    env: IpcEnvelope,
    args: MemoryFeedbackArgs,
    i: int,
)
    requires
        d.wf(),
        !has_receipt(
            d.store.receipts,
            env.store_generation,
            env.sub_context(0).operation_id,
        ),
        looked_up(d.store, args.id@) is Some,
        memory_feedback(d, env, args).1 is Ok,
        0 <= i < d.store.memories.len(),
        d.store.memories[i].room(1),
    ensures
        ({
            let (after, r) = memory_feedback(d, env, args);
            let b = d.store.memories[i];
            let a = after.store.memories[i];
            let named = b.id == looked_up(d.store, args.id@)->0.id;
            &&& !r->Ok_0.is_error
            &&& after.store.memories.len() == d.store.memories.len()
            &&& !named ==> a == b
            &&& named && args.useful ==> a.positive_feedback == b.positive_feedback + 1
                && a.negative_feedback == b.negative_feedback && (b.confidence.valid()
                ==> a.confidence.0 >= b.confidence.0)
            &&& named && !args.useful ==> a.negative_feedback == b.negative_feedback + 1
                && a.positive_feedback == b.positive_feedback && (b.confidence.valid()
                ==> a.confidence.0 <= b.confidence.0)
            &&& named ==> r->Ok_0.structured == Some(
                ToolDataView::Judged { id: args.id@, confidence: a.confidence },
            )
        }),
{
    reveal(memory_feedback);
    let k = lemma_looked_up(d.store, args.id@);
    let m = d.store.memories[k];
    let cmd = DomainCommandView::Feedback { memory_id: m.id, useful: args.useful };
    let ctx = env.sub_context(0);
    assert(takes_effect(d.store, ctx, cmd));
    law_feedback_is_counted(d.store, ctx, m.id, args.useful, i);
    let after = memory_feedback(d, env, args).0.store.memories;
    assert(after == stored(d.store, ctx, cmd).0.memories);
    if d.store.memories[i].id == m.id {
        lemma_one_of_an_id(d.store.memories, after, m.id, i);
    }
}

/// Where identifiers differ, the memory of one is where it stands.
proof fn lemma_one_of_an_id(
    before: Seq<MemoryView>,
    after: Seq<MemoryView>,
    id: EntityId,
    i: int,
)
    requires
        unique_memories(before),
        after.len() == before.len(),
        forall|k: int| 0 <= k < before.len() ==> (#[trigger] after[k]).id == before[k].id,
        0 <= i < before.len(),
        before[i].id == id,
    ensures
        memory_of(after, id) == after[i],
{
    let k = choose|k: int| 0 <= k < after.len() && (#[trigger] after[k]).id == id;
    assert(after[i].id == before[i].id);
    assert(after[k].id == before[k].id);
    if i < k {
        assert(before[i].id != before[k].id);
    } else if k < i {
        assert(before[k].id != before[i].id);
    }
}

/// A memory is changed by its name: the title, text and confidence that were
/// given are its own now, what was not given stays, and so does every other
/// memory. A confidence that is not between zero and one is refused.
pub proof fn law_update_reaches_the_memory(
    d: DispatcherView,
    env: IpcEnvelope,
    args: MemoryUpdateArgs,
    i: int,
)
    requires
        d.wf(),
        !has_receipt(
            d.store.receipts,
            env.store_generation,
            env.sub_context(0).operation_id,
        ),
        looked_up(d.store, args.id@) is Some,
        0 <= i < d.store.memories.len(),
        d.store.memories[i].room(1),
    ensures
        ({
            let (after, r) = memory_update(d, env, args);
            let b = d.store.memories[i];
            let a = after.store.memories[i];
            let named = b.id == looked_up(d.store, args.id@)->0.id;
            &&& args.confidence is Some && !args.confidence->0.valid() ==> after == d && r is Ok
                && r->Ok_0.is_error
            &&& r is Ok && r->Ok_0.is_error ==> after == d
            &&& r is Ok && !r->Ok_0.is_error ==> {
                &&& after.store.memories.len() == d.store.memories.len()
                &&& !named ==> a == b
                &&& named ==> {
                    &&& a.title == match args.title {
                        Some(t) => t@,
                        None => b.title,
                    }
                    &&& a.fragment == match args.fragment {
                        Some(t) => t@,
                        None => b.fragment,
                    }
                    &&& a.confidence == match args.confidence {
                        Some(c) => c,
                        None => b.confidence,
                    }
                    &&& a.id == b.id && a.lifecycle == b.lifecycle && a.project == b.project
                        && a.tags == b.tags && a.description == b.description
                }
            }
        }),
{
    reveal(memory_update);
    let k = lemma_looked_up(d.store, args.id@);
    let m = d.store.memories[k];
    let cmd = DomainCommandView::UpdateMemory {
        id: m.id,
        expected_revision: None,
        patch: update_patch(args),
    };
    let ctx = env.sub_context(0);
    let (after, r) = memory_update(d, env, args);
    if r is Ok && !r->Ok_0.is_error {
        assert(takes_effect(d.store, ctx, cmd));
        law_update_sets_what_it_names(d.store, ctx, m.id, None, update_patch(args), i);
        assert(after.store.memories == stored(d.store, ctx, cmd).0.memories);
    }
}

/// A memory is not given a text that another live memory has, but for a fifth
/// of the words or less: the answer is an error, and nothing changes.
pub proof fn law_update_makes_no_duplicate(
    d: DispatcherView,
    env: IpcEnvelope,
    args: MemoryUpdateArgs,
    i: int,
)
    requires
        looked_up(d.store, args.id@) is Some,
        args.fragment is Some,
        0 <= i < d.store.memories.len(),
        d.store.memories[i].lifecycle is Live,
        d.store.memories[i].id != looked_up(d.store, args.id@)->0.id,
        alike(args.fragment->0@, d.store.memories[i].fragment),
    ensures
        memory_update(d, env, args).0 == d,
        memory_update(d, env, args).1 is Ok,
        memory_update(d, env, args).1->Ok_0.is_error,
{
    reveal(memory_update);
    let id = looked_up(d.store, args.id@)->0.id;
    let f = args.fragment->0@;
    let all = by_id(d.store.memories);
    let cond = |m: MemoryView| says_the_same(m, id, f);
    lemma_by_id(d.store.memories);
    lemma_first_place(all, cond, 0);
    let m = d.store.memories[i];
    assert(d.store.memories.contains(m));
    assert(all.contains(m));
    assert(cond(all[all.index_of(m)]));
}

/// A memory that is forgotten by its name is deleted; where it was to be
/// invalidated, it is that; where it was to be put aside, it stays and is
/// trusted by a twentieth. No other memory changes.
pub proof fn law_forget_reaches_the_memory(
    d: DispatcherView,
    env: IpcEnvelope,
    args: MemoryForgetArgs,
    i: int,
)
    requires
        d.wf(),
        !has_receipt(
            d.store.receipts,
            env.store_generation,
            env.sub_context(0).operation_id,
        ),
        looked_up(d.store, args.id@) is Some,
        memory_forget(d, env, args).1 is Ok,
        0 <= i < d.store.memories.len(),
        d.store.memories[i].room(1),
    ensures
        ({
            let (after, r) = memory_forget(d, env, args);
            let b = d.store.memories[i];
            let a = after.store.memories[i];
            let named = b.id == looked_up(d.store, args.id@)->0.id;
            &&& !r->Ok_0.is_error
            &&& after.store.memories.len() == d.store.memories.len()
            &&& !named ==> a == b
            &&& named && args.invalidate ==> a.lifecycle == (MemoryLifecycle::Invalidated {
                at: Instant(d.store.now),
            })
            &&& named && !args.invalidate && args.consolidate ==> a.lifecycle == b.lifecycle
                && a.confidence == Score(4_587_366_580_439_587_226)
            &&& named && !args.invalidate && !args.consolidate ==> a.lifecycle == (
            MemoryLifecycle::Deleted { at: Instant(d.store.now) })
            &&& named ==> a.title == b.title && a.fragment == b.fragment
        }),
{
    reveal(memory_forget);
    let k = lemma_looked_up(d.store, args.id@);
    let id = d.store.memories[k].id;
    let cmd = forget_command(args, id);
    let ctx = env.sub_context(0);
    assert(takes_effect(d.store, ctx, cmd));
    if args.invalidate {
        law_forgetting_marks_the_memory(d.store, ctx, id, ForgetMode::Invalidate, i);
    } else if args.consolidate {
        law_update_sets_what_it_names(
            d.store,
            ctx,
            id,
            None,
            cmd->UpdateMemory_patch,
            i,
        );
    } else {
        law_forgetting_marks_the_memory(d.store, ctx, id, ForgetMode::Delete, i);
    }
}

proof fn lemma_named(s: StateView, names: Seq<Seq<char>>)
    requires
        forall|i: int| 0 <= i < names.len() ==> looked_up(s, #[trigger] names[i]) is Some,
    ensures
        named(s, names).len() == names.len(),
        forall|i: int|
            0 <= i < names.len() ==> Some(named(s, names)[i]) == looked_up(s, #[trigger] names[i]),
    decreases names.len(),
{
    if names.len() > 0 {
        let rest = names.drop_last();
        assert forall|i: int| 0 <= i < rest.len() implies looked_up(s, #[trigger] rest[i]) is Some by {
            assert(rest[i] == names[i]);
        }
        lemma_named(s, rest);
        assert(looked_up(s, names[names.len() - 1]) is Some);
        assert forall|i: int| 0 <= i < names.len() implies Some(named(s, names)[i]) == looked_up(
            s,
            #[trigger] names[i],
        ) by {
            if i < rest.len() {
                assert(rest[i] == names[i]);
            }
        }
    }
}

/// Memories that are merged by their names are archived, each of them and no
/// others; what they were merged into is a live memory with the title and the
/// text that were given. A name that stands for nothing is an error, and nothing
/// changes.
pub proof fn law_merge_replaces_the_memories(
    d: DispatcherView,
    env: IpcEnvelope,
    args: MemoryMergeArgs,
)
    requires
        d.wf(),
        !has_receipt(
            d.store.receipts,
            env.store_generation,
            env.sub_context(0).operation_id,
        ),
        !args.consolidate,
    ensures
        ({
            let (after, r) = memory_merge(d, env, args);
            let is_named = |m: MemoryView|
                exists|k: int|
                    0 <= k < args.ids@.len() && looked_up(
                        d.store,
                        (#[trigger] args.ids@[k])@,
                    ) == Some(m);
            &&& args.ids@.len() < 2 || (exists|k: int|
                0 <= k < args.ids@.len() && looked_up(
                    d.store,
                    (#[trigger] args.ids@[k])@,
                ) is None) ==> after == d && r is Ok && r->Ok_0.is_error
            &&& r is Ok && !r->Ok_0.is_error ==> {
                &&& after.store.memories.len() == d.store.memories.len() + 1
                &&& forall|i: int|
                    0 <= i < d.store.memories.len() ==> {
                        let b = d.store.memories[i];
                        let a = #[trigger] after.store.memories[i];
                        &&& a.id == b.id && a.fragment == b.fragment
                        &&& is_named(b) ==> a.lifecycle == (MemoryLifecycle::Archived {
                            at: Instant(d.store.now),
                        })
                        &&& !is_named(b) ==> a == b
                    }
                &&& after.store.memories.last().title == args.title@
                &&& after.store.memories.last().fragment == args.fragment@
                &&& after.store.memories.last().lifecycle is Live
                &&& args.project is None ==> after.store.memories.last().project is None
            }
        }),
{
    reveal(memory_merge);
    let names = views(args.ids@);
    let lost = |n: Seq<char>| looked_up(d.store, n) is None;
    lemma_filter_keeps(names, lost);
    let gone = names.filter(lost);
    let (after, r) = memory_merge(d, env, args);
    assert forall|k: int|
        0 <= k < args.ids@.len() && looked_up(
            d.store,
            (#[trigger] args.ids@[k])@,
        ) is None implies gone.len() > 0 by {
        assert(names[k] == args.ids@[k]@);
        assert(names.contains(names[k]));
        assert(gone.contains(names[k]));
    }
    if r is Ok && !r->Ok_0.is_error {
        assert forall|k: int| 0 <= k < names.len() implies looked_up(
            d.store,
            #[trigger] names[k],
        ) is Some by {
            if looked_up(d.store, names[k]) is None {
                assert(names.contains(names[k]));
                assert(gone.contains(names[k]));
            }
        }
        lemma_named(d.store, names);
        let ms = named(d.store, names);
        let ids = ids_of(ms);
        let result = merged_memory(env, args, d.store.now);
        let ctx = env.sub_context(0);
        let cmd = DomainCommandView::Merge { source_ids: ids, result };
        assert(takes_effect(d.store, ctx, cmd));
        law_merging_archives_the_sources(d.store, ctx, ids, result);
        assert(after.store == stored(d.store, ctx, cmd).0);
        assert forall|i: int| 0 <= i < d.store.memories.len() implies (ids.contains(
            (#[trigger] d.store.memories[i]).id,
        ) <==> exists|k: int|
            0 <= k < args.ids@.len() && looked_up(d.store, (#[trigger] args.ids@[k])@) == Some(
                d.store.memories[i],
            )) by {
            let b = d.store.memories[i];
            if ids.contains(b.id) {
                let k = ids.index_of(b.id);
                assert(ms[k].id == b.id);
                assert(Some(ms[k]) == looked_up(d.store, names[k]));
                let p = lemma_looked_up(d.store, names[k]);
                assert(d.store.memories[p] == ms[k]);
                if p < i {
                    assert(d.store.memories[p].id != d.store.memories[i].id);
                } else if i < p {
                    assert(d.store.memories[i].id != d.store.memories[p].id);
                }
                assert(names[k] == args.ids@[k]@);
            }
            if exists|k: int|
                0 <= k < args.ids@.len() && looked_up(d.store, (#[trigger] args.ids@[k])@) == Some(
                    b,
                ) {
                let k = choose|k: int|
                    0 <= k < args.ids@.len() && looked_up(
                        d.store,
                        (#[trigger] args.ids@[k])@,
                    ) == Some(b);
                assert(names[k] == args.ids@[k]@);
                assert(Some(ms[k]) == looked_up(d.store, names[k]));
                assert(ids[k] == b.id);
            }
        }
        assert forall|i: int| 0 <= i < d.store.memories.len() implies ({
            let b = d.store.memories[i];
            let a = #[trigger] after.store.memories[i];
            &&& a.id == b.id && a.fragment == b.fragment
            &&& (exists|k: int|
                0 <= k < args.ids@.len() && looked_up(d.store, (#[trigger] args.ids@[k])@) == Some(
                    b,
                )) ==> a.lifecycle == (MemoryLifecycle::Archived { at: Instant(d.store.now) })
            &&& !(exists|k: int|
                0 <= k < args.ids@.len() && looked_up(d.store, (#[trigger] args.ids@[k])@) == Some(
                    b,
                )) ==> a == b
        }) by {
            let b = d.store.memories[i];
            assert(ids.contains(b.id) <==> exists|k: int|
                0 <= k < args.ids@.len() && looked_up(d.store, (#[trigger] args.ids@[k])@) == Some(
                    b,
                ));
        }
    }
}

/// An edge that is asked for runs from the memory of the one name to that of the
/// other, has the type and the note that were given, and comes behind the edges
/// that were there. No memory changes.
pub proof fn law_relate_joins_the_memories(
    d: DispatcherView,
    env: IpcEnvelope,
    args: MemoryRelateArgs,
)
    requires
        d.wf(),
        !has_receipt(
            d.store.receipts,
            env.store_generation,
            env.sub_context(0).operation_id,
        ),
    ensures
        ({
            let (after, r) = memory_relate(d, env, args);
            let kind = RelationType::named(args.relation_type@);
            let source = looked_up(d.store, args.source_id@);
            let target = looked_up(d.store, args.target_id@);
            &&& kind is None ==> r is Err && after == d
            &&& kind is Some && (source is None || target is None) ==> after == d && r is Ok
                && r->Ok_0.is_error
            &&& kind is Some && source is Some && target is Some && source->0.id == target->0.id
                ==> after == d && r is Ok && r->Ok_0.is_error
            &&& r is Ok && !r->Ok_0.is_error ==> {
                let e = after.store.relations.last();
                &&& kind is Some && source is Some && target is Some
                &&& after.store.relations == d.store.relations.push(e)
                &&& e.source == source->0.id
                &&& e.target == target->0.id
                &&& e.relation_type == kind->0
                &&& e.note == opt_view(args.note)
                &&& source->0.lifecycle is Live && target->0.lifecycle is Live
                &&& after.store.memories == d.store.memories
                &&& forall|i: int|
                    0 <= i < d.store.relations.len() ==> !((#[trigger] d.store.relations[i]).source
                        == e.source && d.store.relations[i].target == e.target
                        && d.store.relations[i].relation_type == e.relation_type)
            }
        }),
{
    reveal(memory_relate);
    let (after, r) = memory_relate(d, env, args);
    let s = d.store;
    if looked_up(s, args.source_id@) is Some {
        let k = lemma_looked_up(s, args.source_id@);
    }
    if looked_up(s, args.target_id@) is Some {
        let k = lemma_looked_up(s, args.target_id@);
    }
    if r is Ok && !r->Ok_0.is_error {
        let kind = RelationType::named(args.relation_type@)->0;
        let relation = new_edge(
            env.operation_id,
            resolved(s, args.source_id@)->0,
            resolved(s, args.target_id@)->0,
            kind,
            opt_view(args.note),
        );
        let ctx = env.sub_context(0);
        law_relating_adds_one_edge(s, ctx, relation);
        assert(after.store == stored(s, ctx, DomainCommandView::Relate { relation }).0);
        let a = lemma_looked_up(s, args.source_id@);
        let b = lemma_looked_up(s, args.target_id@);
        assert(after.store.relations.last() == relation);
        lemma_live_where_it_stands(s, a);
        lemma_live_where_it_stands(s, b);
    }
}

proof fn lemma_live_where_it_stands(s: StateView, k: int)
    requires
        s.wf(),
        0 <= k < s.memories.len(),
        exists|i: int|
            0 <= i < s.memories.len() && (#[trigger] s.memories[i]).id == s.memories[k].id
                && s.memories[i].lifecycle is Live,
    ensures
        s.memories[k].lifecycle is Live,
{
    let i = choose|i: int|
        0 <= i < s.memories.len() && (#[trigger] s.memories[i]).id == s.memories[k].id
            && s.memories[i].lifecycle is Live;
    if i < k {
        assert(s.memories[i].id != s.memories[k].id);
    } else if k < i {
        assert(s.memories[k].id != s.memories[i].id);
    }
}

} // verus!
