//! What holds of every guide that is kept, practised, changed and put together.

use crate::canonical::repository::{
    guide_key, guide_of, guide_place, guide_slot, looked_up, with_guide, with_memory, without_key,
};
use crate::compatibility::lemma::analytics::total_usage;
use crate::compatibility::lemma::tool_args::{
    GuideCreateArgs, GuideDistillArgs, GuideMergeArgs, GuidePracticeArgs, GuideUpdateArgs,
};
use crate::daemon::dispatcher::DispatcherView;
use crate::daemon::envelope::IpcEnvelope;
use crate::daemon::request_laws::law_kept_guide_reads_back;
use crate::daemon::tools::detail::part_if;
use crate::daemon::tools::guide_text::{holds_folded, made_guide, trimmed_all, with_keys};
use crate::daemon::tools::guides::{
    again, blank, distilled_guide, gathered, guide_create, guide_distill, guide_merge, guide_noted,
    guide_practice, guide_update, guides_named, is_weak, manual_of, merged_guide, outcome_of,
    practice_head_text, practice_text, practised_guide, read_in_session, scored, updated_guide,
    weak_guide_text, without_first,
};
use crate::domain::guide::GuideView;
use crate::domain::id::EntityId;
use crate::domain::memory::{Instant, MemoryView};
use crate::double::law_fractions_keep_their_order;
use crate::figures::ratio_text;
use crate::lists::first_place;
use crate::order::text_lt;
use crate::rank::lemma_filter_keeps;
use crate::text::{
    dec, eq_fold, law_with_texts, lemma_part_self, lemma_part_within, lowercase, part_of, trimmed,
    views, with_text, with_texts,
};
use vstd::prelude::*;

verus! {

proof fn lemma_slot(gs: Seq<GuideView>, key: Seq<char>, from: int)
    requires
        0 <= from <= gs.len(),
    ensures
        from <= guide_slot(gs, key, from) <= gs.len(),
    decreases gs.len() - from,
{
    if from < gs.len() && !text_lt(key, guide_key(gs[from].name)) {
        lemma_slot(gs, key, from + 1);
    }
}

/// The guide of a name has that name, but for its case and the space around
/// it; there is none only where no guide has it.
pub proof fn law_guide_of_a_name(gs: Seq<GuideView>, name: Seq<char>)
    ensures
        guide_of(gs, name) matches Some(g) ==> gs.contains(g) && trimmed(lowercase(g.name))
            == trimmed(lowercase(name)),
        guide_of(gs, name) is None ==> forall|i: int|
            0 <= i < gs.len() ==> trimmed(lowercase((#[trigger] gs[i]).name)) != trimmed(
                lowercase(name),
            ),
{
    lemma_guide_place(gs, guide_key(name), 0);
}

proof fn lemma_guide_place(gs: Seq<GuideView>, key: Seq<char>, from: int)
    requires
        0 <= from <= gs.len(),
    ensures
        from <= guide_place(gs, key, from) <= gs.len(),
        guide_place(gs, key, from) < gs.len() ==> guide_key(
            gs[guide_place(gs, key, from)].name,
        ) == key,
        forall|i: int|
            from <= i < guide_place(gs, key, from) ==> guide_key((#[trigger] gs[i]).name) != key,
    decreases gs.len() - from,
{
    if from < gs.len() && guide_key(gs[from].name) != key {
        lemma_guide_place(gs, key, from + 1);
    }
}

/// A guide that is put in takes the place of those of its name, and of no
/// others.
pub proof fn law_putting_a_guide_in(gs: Seq<GuideView>, g: GuideView)
    ensures
        forall|x: GuideView| #[trigger]
            with_guide(gs, g).contains(x) <==> x == g || (gs.contains(x) && trimmed(
                lowercase(x.name),
            ) != trimmed(lowercase(g.name))),
{
    let key = guide_key(g.name);
    let keep = |x: GuideView| guide_key(x.name) != key;
    lemma_filter_keeps(gs, keep);
    let rest = without_key(gs, key);
    lemma_slot(rest, key, 0);
    let p = guide_slot(rest, key, 0);
    let all = with_guide(gs, g);
    assert forall|x: GuideView| #[trigger] all.contains(x) <==> x == g || (gs.contains(x)
        && guide_key(x.name) != key) by {
        assert(rest.contains(x) <==> gs.contains(x) && keep(x));
        if all.contains(x) {
            let i = all.index_of(x);
            if i < p {
                assert(rest[i] == x);
            } else if i > p {
                assert(rest[i - 1] == x);
            }
        }
        if x == g {
            assert(all[p] == g);
        }
        if rest.contains(x) {
            let i = rest.index_of(x);
            assert(all[if i < p { i } else { i + 1 }] == x);
        }
    }
}

/// Practising a guide that is there uses it once more. The outcome "success"
/// leaves it with one success more and as many failures, "failure" with one
/// failure more and as many successes, and any other with both as they were. It
/// learns what it is told and forgets nothing; its name and category stay.
pub proof fn law_practice_is_counted(d: DispatcherView, env: IpcEnvelope, args: GuidePracticeArgs)
    requires
        !blank(args.guide@),
        !blank(args.category@),
        guide_of(d.store.guides, args.guide@) is Some,
        guide_of(d.store.guides, args.guide@)->0.usage_count < u32::MAX,
        guide_of(d.store.guides, args.guide@)->0.success_count < u32::MAX,
        guide_of(d.store.guides, args.guide@)->0.failure_count < u32::MAX,
    ensures
        ({
            let before = guide_of(d.store.guides, args.guide@)->0;
            let after = guide_practice(d, env, args).0.store;
            let said = |t: Seq<char>| args.outcome is Some && args.outcome->0@ == t;
            &&& !guide_practice(d, env, args).1.is_error
            &&& guide_of(after.guides, args.guide@) matches Some(g)
            &&& g.name == before.name
            &&& g.category == before.category
            &&& g.usage_count == before.usage_count + 1
            &&& said("success"@) ==> g.success_count == before.success_count + 1 && g.failure_count
                == before.failure_count
            &&& said("failure"@) ==> g.failure_count == before.failure_count + 1 && g.success_count
                == before.success_count
            &&& !said("success"@) && !said("failure"@) ==> g.success_count == before.success_count
                && g.failure_count == before.failure_count
            &&& g.last_used == Some(Instant(d.store.now))
            &&& g.updated_at == Instant(d.store.now)
            &&& before.description.len() > 0 ==> g.description == before.description
            &&& forall|l: Seq<char>| before.learnings.contains(l) ==> #[trigger] g.learnings.contains(
                l,
            )
            &&& forall|i: int|
                0 <= i < args.learnings@.len() && trimmed(args.learnings@[i]@).len() > 0
                    ==> g.learnings.contains(trimmed((#[trigger] args.learnings@[i])@))
            &&& forall|l: Seq<char>| #[trigger]
                g.learnings.contains(l) ==> before.learnings.contains(l) || exists|i: int|
                    0 <= i < args.learnings@.len() && l == trimmed((#[trigger] args.learnings@[i])@)
            &&& after.memories == d.store.memories
            &&& forall|x: GuideView|
                d.store.guides.contains(x) && trimmed(lowercase(x.name)) != trimmed(
                    lowercase(before.name),
                ) ==> #[trigger] after.guides.contains(x)
        }),
{
    reveal(guide_practice);
    let before = guide_of(d.store.guides, args.guide@)->0;
    lemma_guide_place(d.store.guides, guide_key(args.guide@), 0);
    let used = again(before, args, d.store.now);
    let g = scored(used, outcome_of(args));
    assert(g == practised_guide(d.store.guides, args, d.store.now));
    let registry = guide_noted(d.registry, env, g.name);
    let kept = GuideView {
        validated_by: with_texts(g.validated_by, read_in_session(registry, env)),
        updated_at: Instant(d.store.now),
        ..g
    };
    law_kept_guide_reads_back(d.store.guides, kept, args.guide@);
    law_putting_a_guide_in(d.store.guides, kept);
    let ls = views(args.learnings@);
    let ts = ls.map_values(|t: Seq<char>| trimmed(t));
    let keep = |t: Seq<char>| t.len() > 0;
    lemma_filter_keeps(ts, keep);
    assert(trimmed_all(ls) == ts.filter(keep));
    law_with_texts(before.learnings, trimmed_all(ls));
    assert forall|i: int|
        0 <= i < args.learnings@.len() && trimmed(args.learnings@[i]@).len()
            > 0 implies kept.learnings.contains(trimmed((#[trigger] args.learnings@[i])@)) by {
        assert(ls[i] == args.learnings@[i]@);
        assert(ts[i] == trimmed(ls[i]));
        assert(ts.contains(ts[i]));
        assert(ts.filter(keep).contains(ts[i]));
    }
    assert forall|l: Seq<char>| #[trigger] kept.learnings.contains(l) implies before.learnings.contains(
        l,
    ) || exists|i: int|
        0 <= i < args.learnings@.len() && l == trimmed((#[trigger] args.learnings@[i])@) by {
        if !before.learnings.contains(l) {
            assert(ts.filter(keep).contains(l));
            assert(ts.contains(l));
            let i = ts.index_of(l);
            assert(ls[i] == args.learnings@[i]@);
            assert(l == trimmed(args.learnings@[i]@));
        }
    }
    reveal_strlit("success");
    reveal_strlit("failure");
    assert("success"@[0] != "failure"@[0]);
}

/// Practising a guide that is not there makes it, used once: with a success, a
/// failure or neither, as the outcome says.
pub proof fn law_practice_makes_a_guide(
    d: DispatcherView,
    env: IpcEnvelope,
    args: GuidePracticeArgs,
)
    requires
        !blank(args.guide@),
        !blank(args.category@),
        guide_of(d.store.guides, args.guide@) is None,
    ensures
        ({
            let after = guide_practice(d, env, args).0.store;
            let said = |t: Seq<char>| args.outcome is Some && args.outcome->0@ == t;
            &&& !guide_practice(d, env, args).1.is_error
            &&& exists|g: GuideView|
                {
                    &&& #[trigger] after.guides.contains(g)
                    &&& g.name == trimmed(lowercase(args.guide@))
                    &&& g.category == trimmed(lowercase(args.category@))
                    &&& g.usage_count == 1
                    &&& g.success_count == if said("success"@) {
                        1int
                    } else {
                        0
                    }
                    &&& g.failure_count == if said("failure"@) {
                        1int
                    } else {
                        0
                    }
                    &&& !g.deprecated
                    &&& args.description is Some ==> g.description == trimmed(args.description->0@)
                    &&& forall|l: Seq<char>| #[trigger]
                        g.learnings.contains(l) <==> l.len() > 0 && exists|i: int|
                            0 <= i < args.learnings@.len() && l == trimmed(
                                (#[trigger] args.learnings@[i])@,
                            )
                }
            &&& after.memories == d.store.memories
        }),
{
    reveal(guide_practice);
    let g = practised_guide(d.store.guides, args, d.store.now);
    let registry = guide_noted(d.registry, env, g.name);
    let kept = GuideView {
        validated_by: with_texts(g.validated_by, read_in_session(registry, env)),
        updated_at: Instant(d.store.now),
        ..g
    };
    law_putting_a_guide_in(d.store.guides, kept);
    let ls = views(args.learnings@);
    let ts = ls.map_values(|t: Seq<char>| trimmed(t));
    let keep = |t: Seq<char>| t.len() > 0;
    lemma_filter_keeps(ts, keep);
    assert(kept.learnings == ts.filter(keep));
    assert forall|l: Seq<char>| #[trigger] kept.learnings.contains(l) <==> l.len() > 0
        && exists|i: int|
        0 <= i < args.learnings@.len() && l == trimmed((#[trigger] args.learnings@[i])@) by {
        assert(ts.filter(keep).contains(l) <==> ts.contains(l) && keep(l));
        if ts.contains(l) {
            let i = ts.index_of(l);
            assert(ls[i] == args.learnings@[i]@);
            assert(l == trimmed(args.learnings@[i]@));
        }
        if exists|i: int|
            0 <= i < args.learnings@.len() && l == trimmed((#[trigger] args.learnings@[i])@) {
            let i = choose|i: int|
                0 <= i < args.learnings@.len() && l == trimmed((#[trigger] args.learnings@[i])@);
            assert(ls[i] == args.learnings@[i]@);
            assert(ts[i] == l);
        }
    }
    assert(guide_practice(d, env, args).0.store.guides.contains(kept));
    reveal_strlit("success");
    reveal_strlit("failure");
    assert("success"@[0] != "failure"@[0]);
}

/// A guide is said to be weak where it was tried three times or more and fewer
/// than two of five tries were a success; where more were, it is not.
pub proof fn law_weak_guides_fail(g: GuideView)
    ensures
        g.success_count + g.failure_count < 3 ==> !is_weak(g),
        g.success_count + g.failure_count >= 3 && 5 * g.success_count < 2 * (g.success_count
            + g.failure_count) ==> is_weak(g),
        5 * g.success_count > 2 * (g.success_count + g.failure_count) ==> !is_weak(g),
{
    let all = (g.success_count + g.failure_count) as nat;
    if all > 0 {
        law_fractions_keep_their_order(g.success_count as nat, all, 2, 5);
    }
}

/// The answer to a practice that leaves a guide weak says so, with the share of
/// its successes.
pub proof fn law_practice_tells_of_weakness(
    d: DispatcherView,
    env: IpcEnvelope,
    args: GuidePracticeArgs,
)
    requires
        !blank(args.guide@),
        !blank(args.category@),
    ensures
        ({
            let g = practised_guide(d.store.guides, args, d.store.now);
            let r = guide_practice(d, env, args).1;
            let head = practice_head_text(
                if g.usage_count == 1 {
                    "Created"@
                } else {
                    "Updated"@
                },
                g.name,
                g.category,
                g.usage_count as nat,
                g.learnings.len(),
                g.contexts.len(),
            );
            let all = g.success_count + g.failure_count;
            &&& all < 3 || 5 * g.success_count > 2 * all ==> r.text == head
            &&& all >= 3 && 5 * g.success_count < 2 * all ==> part_of(
                "\n\n--- HOOK SUGGESTIONS ---\nGuide \""@ + g.name + "\" success rate is "@ + ratio_text(
                    g.success_count as nat,
                    all as nat,
                ) + " ("@ + dec(g.success_count as nat) + "/"@ + dec(all as nat)
                    + "). Consider guide_update to refine."@,
                r.text,
            )
        }),
{
    reveal(guide_practice);
    let g = practised_guide(d.store.guides, args, d.store.now);
    let registry = guide_noted(d.registry, env, g.name);
    let kept = GuideView {
        validated_by: with_texts(g.validated_by, read_in_session(registry, env)),
        updated_at: Instant(d.store.now),
        ..g
    };
    let r = guide_practice(d, env, args).1;
    assert(r.text == practice_text(kept));
    law_weak_guides_fail(kept);
    let head = practice_head_text(
        if g.usage_count == 1 {
            "Created"@
        } else {
            "Updated"@
        },
        g.name,
        g.category,
        g.usage_count as nat,
        g.learnings.len(),
        g.contexts.len(),
    );
    let all = (g.success_count + g.failure_count) as nat;
    let weak = weak_guide_text(
        g.name,
        ratio_text(g.success_count as nat, all),
        g.success_count as nat,
        all,
    );
    assert(practice_text(kept) == head + part_if(is_weak(kept), weak));
    reveal_strlit("");
    assert(head + ""@ =~= head);
    let none = Seq::<char>::empty();
    lemma_part_self(weak);
    lemma_part_within(weak, head, weak, none);
    assert(head + weak + none =~= head + weak);
}

/// A memory that is distilled goes into the guide of the name, or a new one:
/// what it says is among the guide's learnings, and the memory among its
/// sources. The memory refers to the guide and waits no longer.
pub proof fn law_distilled_memory_is_in_the_guide(d: DispatcherView, args: GuideDistillArgs)
    requires
        !blank(args.memory_id@),
        !blank(args.guide@),
        looked_up(d.store, args.memory_id@) is Some,
        guide_of(d.store.guides, args.guide@) matches Some(g) ==> g.usage_count < u32::MAX,
        trimmed(looked_up(d.store, args.memory_id@)->0.fragment).len() > 0,
    ensures
        ({
            let m = looked_up(d.store, args.memory_id@)->0;
            let after = guide_distill(d, args).0.store;
            let before = guide_of(d.store.guides, args.guide@);
            &&& !guide_distill(d, args).1.is_error
            &&& exists|g: GuideView|
                {
                    &&& #[trigger] after.guides.contains(g)
                    &&& g.source_memories.contains(m.id)
                    &&& before matches Some(b) ==> {
                        &&& g.name == b.name
                        &&& g.category == b.category
                        &&& g.usage_count == b.usage_count + 1
                        &&& g.success_count == b.success_count
                        &&& g.failure_count == b.failure_count
                        &&& g.learnings.contains(m.fragment)
                        &&& b.learnings.is_prefix_of(g.learnings)
                        &&& b.source_memories.is_prefix_of(g.source_memories)
                    }
                    &&& before is None ==> {
                        &&& g.name == trimmed(lowercase(args.guide@))
                        &&& g.usage_count == 1
                        &&& g.learnings == seq![trimmed(m.fragment)]
                        &&& args.category is Some ==> g.category == trimmed(
                            lowercase(args.category->0@),
                        )
                    }
                }
            &&& after.memories == with_memory(
                d.store.memories,
                MemoryView {
                    related_guides: with_text(m.related_guides, trimmed(lowercase(args.guide@))),
                    distill_candidate: false,
                    ..m
                },
            )
        }),
{
    reveal(guide_distill);
    let m = looked_up(d.store, args.memory_id@)->0;
    let g = distilled_guide(d.store.guides, m, args, d.store.now);
    let after = guide_distill(d, args).0.store;
    law_putting_a_guide_in(d.store.guides, g);
    assert(after.guides.contains(g));
    match guide_of(d.store.guides, args.guide@) {
        Some(b) => {
            law_with_texts(b.learnings, seq![m.fragment]);
            lemma_with_text(b.learnings, m.fragment);
            lemma_pushed(b.source_memories, m.id);
        },
        None => {
            let one = seq![m.fragment];
            let ts = one.map_values(|t: Seq<char>| trimmed(t));
            let keep = |t: Seq<char>| t.len() > 0;
            assert(ts =~= seq![trimmed(m.fragment)]);
            lemma_filter_keeps(ts, keep);
            assert(trimmed_all(one) == ts.filter(keep));
            lemma_pushed(Seq::empty(), m.id);
        },
    }
}

proof fn lemma_with_text(list: Seq<Seq<char>>, t: Seq<char>)
    ensures
        with_text(list, t).contains(t),
        list.is_prefix_of(with_text(list, t)),
        forall|x: Seq<char>| #[trigger]
            with_text(list, t).contains(x) <==> list.contains(x) || x == t,
{
    let all = with_text(list, t);
    if !list.contains(t) {
        assert(all == list.push(t));
        assert(all[list.len() as int] == t);
        assert forall|x: Seq<char>| #[trigger] all.contains(x) <==> list.contains(x) || x == t by {
            if list.contains(x) {
                assert(all[list.index_of(x)] == x);
            }
            if all.contains(x) {
                let i = all.index_of(x);
                if i < list.len() {
                    assert(list[i] == x);
                }
            }
        }
    }
}

proof fn lemma_pushed(list: Seq<EntityId>, id: EntityId)
    ensures
        list.push(id).contains(id),
        list.is_prefix_of(list.push(id)),
{
    assert(list.push(id)[list.len() as int] == id);
}

/// An update of a guide changes what it names and nothing else. Patterns and
/// pitfalls are added behind those that were there, a guide that is deprecated
/// stays it, and no count changes.
pub proof fn law_update_of_a_guide(d: DispatcherView, args: GuideUpdateArgs)
    requires
        !blank(args.guide@),
        guide_of(d.store.guides, args.guide@) is Some,
    ensures
        ({
            let b = guide_of(d.store.guides, args.guide@)->0;
            let after = guide_update(d, args).0.store;
            let given = |t: Option<String>| t is Some && trimmed(t->0@).len() > 0;
            &&& !guide_update(d, args).1.is_error
            &&& exists|g: GuideView|
                {
                    &&& #[trigger] after.guides.contains(g)
                    &&& g.name == if given(args.new_name) {
                        trimmed(lowercase(args.new_name->0@))
                    } else {
                        b.name
                    }
                    &&& g.category == if given(args.category) {
                        trimmed(lowercase(args.category->0@))
                    } else {
                        b.category
                    }
                    &&& g.description == if given(args.description) {
                        trimmed(args.description->0@)
                    } else {
                        b.description
                    }
                    &&& g.superseded_by == if given(args.superseded_by) {
                        Some(args.superseded_by->0@)
                    } else {
                        b.superseded_by
                    }
                    &&& g.deprecated == (b.deprecated || args.deprecated)
                    &&& g.anti_patterns == b.anti_patterns + views(args.add_anti_patterns@)
                    &&& g.pitfalls == b.pitfalls + views(args.add_pitfalls@)
                    &&& b.depends_on.is_prefix_of(g.depends_on)
                    &&& b.enables.is_prefix_of(g.enables)
                    &&& g.usage_count == b.usage_count
                    &&& g.success_count == b.success_count
                    &&& g.failure_count == b.failure_count
                    &&& g.learnings == b.learnings
                    &&& g.contexts == b.contexts
                    &&& g.created_at == b.created_at
                }
            &&& after.memories.len() == d.store.memories.len()
        }),
{
    reveal(guide_update);
    let b = guide_of(d.store.guides, args.guide@)->0;
    let kept = updated_guide(b, args, d.store.now);
    let after = guide_update(d, args).0.store;
    law_putting_a_guide_in(d.store.guides, kept);
    law_putting_a_guide_in(without_key(d.store.guides, guide_key(b.name)), kept);
    assert(after.guides.contains(kept));
    lemma_with_keys(b.depends_on, views(args.add_depends_on@), kept.name);
    lemma_with_keys(b.enables, views(args.add_enables@), kept.name);
}

/// Keys that are added come behind those that were there; none is the guide's
/// own, none is empty, and each that is neither is there.
proof fn lemma_with_keys(list: Seq<Seq<char>>, add: Seq<Seq<char>>, except: Seq<char>)
    ensures
        list.is_prefix_of(with_keys(list, add, except)),
        forall|i: int|
            0 <= i < add.len() && guide_key(#[trigger] add[i]).len() > 0 && guide_key(add[i])
                != except ==> holds_folded(with_keys(list, add, except), guide_key(add[i])),
    decreases add.len(),
{
    if add.len() > 0 {
        let rest = with_keys(list, add.drop_last(), except);
        let all = with_keys(list, add, except);
        lemma_with_keys(list, add.drop_last(), except);
        assert forall|i: int|
            0 <= i < add.len() && guide_key(#[trigger] add[i]).len() > 0 && guide_key(add[i])
                != except implies holds_folded(all, guide_key(add[i])) by {
            let key = guide_key(add[i]);
            if i < add.len() - 1 {
                assert(add.drop_last()[i] == add[i]);
                assert(holds_folded(rest, key));
                let k = choose|k: int| 0 <= k < rest.len() && eq_fold(#[trigger] rest[k], key);
                assert(all[k] == rest[k]);
            } else if !holds_folded(rest, key) {
                assert(all[rest.len() as int] == key);
                assert(eq_fold(all[rest.len() as int], key));
            }
        }
    }
}

/// The manual that is written for a guide is the guide's description. Where no
/// guide fits the name, one of that name is made with it.
pub proof fn law_created_guide_has_its_manual(d: DispatcherView, args: GuideCreateArgs)
    requires
        !blank(args.guide@),
        !blank(args.category@),
        !blank(args.description@),
    ensures
        ({
            let after = guide_create(d, args).0.store;
            let fits = |g: GuideView|
                {
                    let key = trimmed(lowercase(args.guide@));
                    ||| trimmed(lowercase(g.name)) == key
                    ||| part_of(key, g.name)
                    ||| part_of(g.name, key)
                };
            &&& !guide_create(d, args).1.is_error
            &&& after.memories == d.store.memories
            &&& (forall|i: int| 0 <= i < d.store.guides.len() ==> !fits(#[trigger] d.store.guides[i]))
                ==> exists|g: GuideView|
                {
                    &&& #[trigger] after.guides.contains(g)
                    &&& g.name == trimmed(lowercase(args.guide@))
                    &&& g.category == trimmed(lowercase(args.category@))
                    &&& g.description == trimmed(args.description@)
                    &&& g.usage_count == 1
                }
            &&& (exists|i: int| 0 <= i < d.store.guides.len() && fits(#[trigger] d.store.guides[i]))
                ==> exists|b: GuideView, g: GuideView|
                {
                    &&& #[trigger] d.store.guides.contains(b)
                    &&& fits(b)
                    &&& guide_of(d.store.guides, args.guide@) is Some ==> Some(b) == guide_of(
                        d.store.guides,
                        args.guide@,
                    )
                    &&& #[trigger] after.guides.contains(g)
                    &&& g == (GuideView {
                        description: args.description@,
                        updated_at: Instant(d.store.now),
                        ..b
                    })
                }
        }),
{
    reveal(guide_create);
    let gs = d.store.guides;
    let key = guide_key(args.guide@);
    let cond = |g: GuideView| part_of(key, g.name) || part_of(g.name, key);
    lemma_guide_place(gs, key, 0);
    lemma_first_place(gs, cond, 0);
    let after = guide_create(d, args).0.store;
    match manual_of(gs, args.guide@) {
        Some(b) => {
            let kept = GuideView {
                description: args.description@,
                updated_at: Instant(d.store.now),
                ..b
            };
            law_putting_a_guide_in(gs, kept);
            assert(gs.contains(b));
            assert(after.guides.contains(kept));
        },
        None => {
            let g = made_guide(
                args.guide@,
                args.category@,
                args.description@,
                views(args.contexts@),
                views(args.learnings@),
                d.store.now,
            );
            law_putting_a_guide_in(gs, g);
            assert(after.guides.contains(g));
        },
    }
}

pub proof fn lemma_first_place<V>(s: Seq<V>, cond: spec_fn(V) -> bool, from: int)
    requires
        0 <= from <= s.len(),
    ensures
        from <= first_place(s, cond, from) <= s.len(),
        first_place(s, cond, from) < s.len() ==> cond(s[first_place(s, cond, from)]),
        forall|i: int| from <= i < first_place(s, cond, from) ==> !cond(#[trigger] s[i]),
    decreases s.len() - from,
{
    if from < s.len() && !cond(s[from]) {
        lemma_first_place(s, cond, from + 1);
    }
}

/// Which guides are left after some were taken away.
proof fn lemma_without_first(gs: Seq<GuideView>, names: Seq<Seq<char>>, n: int)
    requires
        0 <= n <= names.len(),
    ensures
        forall|g: GuideView| #[trigger]
            without_first(gs, names, n).contains(g) <==> gs.contains(g) && forall|i: int|
                0 <= i < n ==> guide_key(#[trigger] names[i]) != guide_key(g.name),
    decreases n,
{
    if n > 0 {
        lemma_without_first(gs, names, n - 1);
        let rest = without_first(gs, names, n - 1);
        let key = guide_key(names[n - 1]);
        lemma_filter_keeps(rest, |g: GuideView| guide_key(g.name) != key);
        let all = without_first(gs, names, n);
        assert forall|g: GuideView| #[trigger] all.contains(g) <==> gs.contains(g) && forall|i: int|
            0 <= i < n ==> guide_key(#[trigger] names[i]) != guide_key(g.name) by {
            assert(all.contains(g) <==> rest.contains(g) && guide_key(g.name) != key);
            if rest.contains(g) && guide_key(g.name) != key {
                assert forall|i: int| 0 <= i < n implies guide_key(#[trigger] names[i])
                    != guide_key(g.name) by {
                    if i == n - 1 {
                        assert(names[i] == names[n - 1]);
                    }
                }
            }
            if gs.contains(g) && forall|i: int|
                0 <= i < n ==> guide_key(#[trigger] names[i]) != guide_key(g.name) {
                assert(guide_key(names[n - 1]) != guide_key(g.name));
            }
        }
    }
}

/// What is gathered holds what each guide has.
proof fn lemma_gathered(gs: Seq<GuideView>, pick: spec_fn(GuideView) -> Seq<Seq<char>>)
    ensures
        forall|t: Seq<char>| #[trigger]
            gathered(gs, pick).contains(t) <==> exists|i: int|
                0 <= i < gs.len() && pick(#[trigger] gs[i]).contains(t),
    decreases gs.len(),
{
    if gs.len() > 0 {
        lemma_gathered(gs.drop_last(), pick);
        let rest = gathered(gs.drop_last(), pick);
        let more = pick(gs.last());
        let all = gathered(gs, pick);
        assert forall|t: Seq<char>| #[trigger] all.contains(t) <==> exists|i: int|
            0 <= i < gs.len() && pick(#[trigger] gs[i]).contains(t) by {
            if all.contains(t) {
                let k = all.index_of(t);
                if k < rest.len() {
                    assert(rest[k] == t);
                    assert(rest.contains(t));
                    let i = choose|i: int|
                        0 <= i < gs.drop_last().len() && pick(
                            #[trigger] gs.drop_last()[i],
                        ).contains(t);
                    assert(gs[i] == gs.drop_last()[i]);
                } else {
                    assert(more[k - rest.len()] == t);
                    assert(gs[gs.len() - 1] == gs.last());
                }
            }
            if exists|i: int| 0 <= i < gs.len() && pick(#[trigger] gs[i]).contains(t) {
                let i = choose|i: int| 0 <= i < gs.len() && pick(#[trigger] gs[i]).contains(t);
                if i < gs.len() - 1 {
                    assert(gs.drop_last()[i] == gs[i]);
                    assert(rest.contains(t));
                    assert(all[rest.index_of(t)] == t);
                } else {
                    assert(all[rest.len() + more.index_of(t)] == t);
                }
            }
        }
    }
}

proof fn lemma_guides_named(gs: Seq<GuideView>, names: Seq<Seq<char>>)
    requires
        forall|i: int| 0 <= i < names.len() ==> guide_of(gs, #[trigger] names[i]) is Some,
    ensures
        guides_named(gs, names).len() == names.len(),
        forall|i: int|
            0 <= i < names.len() ==> Some(guides_named(gs, names)[i]) == guide_of(
                gs,
                #[trigger] names[i],
            ),
    decreases names.len(),
{
    if names.len() > 0 {
        let rest = names.drop_last();
        assert forall|i: int| 0 <= i < rest.len() implies guide_of(gs, #[trigger] rest[i]) is Some by {
            assert(rest[i] == names[i]);
        }
        lemma_guides_named(gs, rest);
        assert(guide_of(gs, names[names.len() - 1]) is Some);
        assert forall|i: int| 0 <= i < names.len() implies Some(guides_named(gs, names)[i])
            == guide_of(gs, #[trigger] names[i]) by {
            if i < rest.len() {
                assert(rest[i] == names[i]);
            }
        }
    }
}

/// Guides that are put together go into one of the new name: it was used as
/// often as all of them, and has the learnings, patterns, pitfalls and checks of
/// each, none twice. Of the old ones none is left, and every other guide is.
pub proof fn law_merged_guide_has_it_all(d: DispatcherView, args: GuideMergeArgs)
    requires
        args.guides@.len() >= 2,
        !blank(args.guide@),
        !blank(args.category@),
        forall|i: int|
            0 <= i < args.guides@.len() ==> guide_of(
                d.store.guides,
                (#[trigger] args.guides@[i])@,
            ) is Some,
    ensures
        ({
            let after = guide_merge(d, args).0.store;
            let of = |i: int| guide_of(d.store.guides, args.guides@[i]@)->0;
            &&& !guide_merge(d, args).1.is_error
            &&& exists|g: GuideView|
                {
                    &&& #[trigger] after.guides.contains(g)
                    &&& g.name == trimmed(lowercase(args.guide@))
                    &&& g.category == trimmed(lowercase(args.category@))
                    &&& g.usage_count == total_usage(
                        Seq::new(args.guides@.len(), |i: int| of(i)),
                    ) as u32
                    &&& forall|t: Seq<char>| #[trigger]
                        g.anti_patterns.contains(t) <==> exists|i: int|
                            0 <= i < args.guides@.len() && #[trigger] of(i).anti_patterns.contains(
                                t,
                            )
                    &&& forall|t: Seq<char>| #[trigger]
                        g.pitfalls.contains(t) <==> exists|i: int|
                            0 <= i < args.guides@.len() && #[trigger] of(i).pitfalls.contains(t)
                    &&& forall|t: Seq<char>| #[trigger]
                        g.validated_by.contains(t) <==> exists|i: int|
                            0 <= i < args.guides@.len() && #[trigger] of(i).validated_by.contains(t)
                    &&& args.learnings is None ==> forall|t: Seq<char>, i: int|
                        0 <= i < args.guides@.len() && #[trigger] of(i).learnings.contains(t)
                            && trimmed(t).len() > 0 ==> g.learnings.contains(trimmed(t))
                    &&& g.anti_patterns.no_duplicates() && g.pitfalls.no_duplicates()
                    &&& forall|x: GuideView| #[trigger]
                        after.guides.contains(x) <==> x == g || {
                            &&& d.store.guides.contains(x)
                            &&& trimmed(lowercase(x.name)) != trimmed(lowercase(g.name))
                            &&& forall|i: int|
                                0 <= i < args.guides@.len() ==> trimmed(
                                    lowercase((#[trigger] args.guides@[i])@),
                                ) != trimmed(lowercase(x.name))
                        }
                }
        }),
{
    reveal(guide_merge);
    let names = views(args.guides@);
    let gs0 = d.store.guides;
    let after = guide_merge(d, args).0.store;
    let of = |i: int| guide_of(d.store.guides, args.guides@[i]@)->0;
    assert forall|i: int| 0 <= i < names.len() implies guide_of(gs0, #[trigger] names[i]) is Some by {
        assert(names[i] == args.guides@[i]@);
    }
    let lost = |n: Seq<char>| guide_of(gs0, n) is None;
    lemma_filter_keeps(names, lost);
    let gone = names.filter(lost);
    if gone.len() > 0 {
        assert(gone.contains(gone[0]));
        assert(names.contains(gone[0]));
        let i = names.index_of(gone[0]);
        assert(guide_of(gs0, names[i]) is Some);
    }
    lemma_guides_named(gs0, names);
    let gs = guides_named(gs0, names);
    assert forall|i: int| 0 <= i < gs.len() implies #[trigger] gs[i] == of(i) by {
        assert(names[i] == args.guides@[i]@);
        assert(Some(gs[i]) == guide_of(gs0, names[i]));
    }
    assert(gs =~= Seq::new(args.guides@.len(), |i: int| of(i)));
    let g = merged_guide(args, gs, d.store.now);
    let left = without_first(gs0, names, names.len() as int);
    lemma_without_first(gs0, names, names.len() as int);
    law_putting_a_guide_in(left, g);
    assert(after.guides == with_guide(left, g));
    assert(after.guides.contains(g));
    let pa = |x: GuideView| x.anti_patterns;
    let pp = |x: GuideView| x.pitfalls;
    let pv = |x: GuideView| x.validated_by;
    let pl = |x: GuideView| x.learnings;
    lemma_gathered(gs, pa);
    lemma_gathered(gs, pp);
    lemma_gathered(gs, pv);
    lemma_gathered(gs, pl);
    law_with_texts(Seq::empty(), gathered(gs, pa));
    law_with_texts(Seq::empty(), gathered(gs, pp));
    law_with_texts(Seq::empty(), gathered(gs, pv));
    law_with_texts(Seq::empty(), gathered(gs, pl));
    assert forall|t: Seq<char>| #[trigger] g.anti_patterns.contains(t) <==> exists|i: int|
        0 <= i < args.guides@.len() && #[trigger] of(i).anti_patterns.contains(t) by {
        lemma_same_holder(gs, of, pa, t);
    }
    assert forall|t: Seq<char>| #[trigger] g.pitfalls.contains(t) <==> exists|i: int|
        0 <= i < args.guides@.len() && #[trigger] of(i).pitfalls.contains(t) by {
        lemma_same_holder(gs, of, pp, t);
    }
    assert forall|t: Seq<char>| #[trigger] g.validated_by.contains(t) <==> exists|i: int|
        0 <= i < args.guides@.len() && #[trigger] of(i).validated_by.contains(t) by {
        lemma_same_holder(gs, of, pv, t);
    }
    if args.learnings is None {
        let all = with_texts(Seq::empty(), gathered(gs, pl));
        let ts = all.map_values(|t: Seq<char>| trimmed(t));
        let keep = |t: Seq<char>| t.len() > 0;
        lemma_filter_keeps(ts, keep);
        assert(g.learnings == ts.filter(keep));
        assert forall|t: Seq<char>, i: int|
            0 <= i < args.guides@.len() && #[trigger] of(i).learnings.contains(t) && trimmed(
                t,
            ).len() > 0 implies g.learnings.contains(trimmed(t)) by {
            assert(gs[i] == of(i));
            assert(pl(gs[i]).contains(t));
            assert(gathered(gs, pl).contains(t));
            assert(all.contains(t));
            let k = all.index_of(t);
            assert(ts[k] == trimmed(t));
            assert(ts.contains(trimmed(t)));
        }
    }
    assert forall|x: GuideView| #[trigger] after.guides.contains(x) <==> x == g || {
        &&& d.store.guides.contains(x)
        &&& trimmed(lowercase(x.name)) != trimmed(lowercase(g.name))
        &&& forall|i: int|
            0 <= i < args.guides@.len() ==> trimmed(lowercase((#[trigger] args.guides@[i])@))
                != trimmed(lowercase(x.name))
    } by {
        assert(left.contains(x) <==> gs0.contains(x) && forall|i: int|
            0 <= i < names.len() ==> guide_key(#[trigger] names[i]) != guide_key(x.name));
        if forall|i: int|
            0 <= i < names.len() ==> guide_key(#[trigger] names[i]) != guide_key(x.name) {
            assert forall|i: int| 0 <= i < args.guides@.len() implies trimmed(
                lowercase((#[trigger] args.guides@[i])@),
            ) != trimmed(lowercase(x.name)) by {
                assert(guide_key(names[i]) != guide_key(x.name));
            }
        }
        if forall|i: int|
            0 <= i < args.guides@.len() ==> trimmed(lowercase((#[trigger] args.guides@[i])@))
                != trimmed(lowercase(x.name)) {
            assert forall|i: int| 0 <= i < names.len() implies guide_key(#[trigger] names[i])
                != guide_key(x.name) by {
                assert(names[i] == args.guides@[i]@);
            }
        }
    }
}

proof fn lemma_same_holder(
    gs: Seq<GuideView>,
    of: spec_fn(int) -> GuideView,
    pick: spec_fn(GuideView) -> Seq<Seq<char>>,
    t: Seq<char>,
)
    requires
        forall|i: int| 0 <= i < gs.len() ==> #[trigger] gs[i] == of(i),
    ensures
        (exists|i: int| 0 <= i < gs.len() && pick(#[trigger] gs[i]).contains(t)) <==> (exists|i: int|
            0 <= i < gs.len() && pick(#[trigger] of(i)).contains(t)),
{
    if exists|i: int| 0 <= i < gs.len() && pick(#[trigger] of(i)).contains(t) {
        let i = choose|i: int| 0 <= i < gs.len() && pick(#[trigger] of(i)).contains(t);
        assert(gs[i] == of(i));
    }
    if exists|i: int| 0 <= i < gs.len() && pick(#[trigger] gs[i]).contains(t) {
        let i = choose|i: int| 0 <= i < gs.len() && pick(#[trigger] gs[i]).contains(t);
        assert(of(i) == gs[i]);
    }
}

} // verus!
