//! What holds of every request, and of one request after another.

use crate::canonical::guarantees::{
    law_added_memory_reads_back, law_store_replay_is_idempotent, lemma_pushed_others,
    takes_effect,
};
use crate::canonical::repository::{
    by_id, found, guide_key, guide_of, guide_place, guide_slot, looked_up, stored, with_guide,
    with_memory, without_key,
};
use crate::compatibility::lemma::privacy::redacted;
use crate::compatibility::lemma::tool_args::{
    GuideForgetArgs, GuideUpdateArgs, MemoryAddArgs, SessionEndArgs, SessionStartArgs, ToolArgs,
};
use crate::daemon::dispatcher::{handled, mutated, stale, DispatcherView};
use crate::daemon::envelope::{
    command_of, DomainRequest, IpcEnvelope, IpcResponseView, PROTOCOL_VERSION,
};
use crate::daemon::isolation::{
    lemma_active_change_leaves_alone, lemma_change_leaves_alone, lemma_decay_leaves_alone,
    lemma_new_session_leaves_alone, lemma_recall_leaves_alone, lemma_start_leaves_alone,
    same_status,
};
use crate::daemon::laws::law_started_session_is_active;
use crate::daemon::namespaces::{law_issued_is_held, namespace_for, with_issued};
use crate::daemon::registry::{abandoned, RegistryView};
use crate::daemon::tools::add::{
    added_memory, auto_linked, in_session, kin, linked, memory_add,
};
use crate::daemon::tools::common::{err_view, issued, new_name, project_of, HitView};
use crate::daemon::tools::continuity::{dead_ends, recalled_dead_ends, DeadEndView};
use crate::daemon::tools::data::ToolDataView;
use crate::daemon::tools::edit::{
    memory_feedback, memory_forget, memory_merge, memory_relate, memory_update,
};
use crate::daemon::tools::execute::called;
use crate::daemon::tools::guide_text::holds_folded;
use crate::daemon::tools::guides::{
    blank, guide_forget, guide_update, renamed, unlinked, updated_guide,
};
use crate::daemon::tools::read::memory_read;
use crate::daemon::tools::sessions::{
    decayed, names_of, preloaded, read_noted, session_end, session_start, started, task_text,
    DECAY_STEP,
};
use crate::digest::text_digest;
use crate::domain::command::{
    CommandContextView, CommandReceiptView, DomainCommandView, DomainErrorView,
};
use crate::domain::guide::GuideView;
use crate::domain::id::{uuid_text, ChannelId, FrontendId, SessionHandle};
use crate::domain::interpreter::{lemma_edited_at, lemma_session_at};
use crate::domain::memory::{FragmentType, Instant, MemorySource, MemoryView};
use crate::domain::session::{SessionView, TaskOutcome};
use crate::domain::state::{
    ended, has_memory, has_receipt, has_session, memory_of, session_of, unique_memories,
    StateView,
};
use crate::rank::lemma_filter_members;
use crate::text::{eq_fold, opt_view, views, with_texts};
use crate::domain::score::Score;
use vstd::prelude::*;

verus! {

// ---------------------------------------------------------------------------
// Refusals, replays, reads
// ---------------------------------------------------------------------------

proof fn lemma_refused_read(
    d: DispatcherView,
    env: IpcEnvelope,
    tool: ToolArgs,
    hits: Seq<HitView>,
)
    requires
        tool is MemoryRead,
        called(d, env, tool, hits).1 is Err,
    ensures
        called(d, env, tool, hits).0 == d,
{
    reveal(called);
    reveal(memory_read);
}

proof fn lemma_refused_add(d: DispatcherView, env: IpcEnvelope, tool: ToolArgs, hits: Seq<HitView>)
    requires
        tool is MemoryAdd || tool is MemoryMerge,
        called(d, env, tool, hits).1 is Err,
    ensures
        called(d, env, tool, hits).0 == d,
{
    reveal(called);
    reveal(memory_add);
    reveal(memory_merge);
}

proof fn lemma_refused_edit(d: DispatcherView, env: IpcEnvelope, tool: ToolArgs, hits: Seq<HitView>)
    requires
        tool is MemoryUpdate || tool is MemoryFeedback || tool is MemoryForget || tool
            is MemoryRelate,
        called(d, env, tool, hits).1 is Err,
    ensures
        called(d, env, tool, hits).0 == d,
{
    reveal(called);
    reveal(memory_update);
    reveal(memory_feedback);
    reveal(memory_forget);
    reveal(memory_relate);
}

/// A request that is refused changes nothing, neither in the store nor in the
/// registry.
pub proof fn law_refused_request_changes_nothing(
    d: DispatcherView,
    env: IpcEnvelope,
    hits: Seq<HitView>,
)
    ensures
        handled(d, env, hits).1 is Err ==> handled(d, env, hits).0 == d,
{
    if handled(d, env, hits).1 is Err && env.protocol_version == PROTOCOL_VERSION {
        match env.body {
            DomainRequest::ToolCall { tool } => {
                match tool {
                    ToolArgs::MemoryRead(_) => {
                        lemma_refused_read(d, env, tool, hits);
                    },
                    ToolArgs::MemoryAdd(_) => {
                        lemma_refused_add(d, env, tool, hits);
                    },
                    ToolArgs::MemoryMerge(_) => {
                        lemma_refused_add(d, env, tool, hits);
                    },
                    ToolArgs::MemoryUpdate(_) => {
                        lemma_refused_edit(d, env, tool, hits);
                    },
                    ToolArgs::MemoryFeedback(_) => {
                        lemma_refused_edit(d, env, tool, hits);
                    },
                    ToolArgs::MemoryForget(_) => {
                        lemma_refused_edit(d, env, tool, hits);
                    },
                    ToolArgs::MemoryRelate(_) => {
                        lemma_refused_edit(d, env, tool, hits);
                    },
                    _ => {
                        assert(called(d, env, tool, hits).1 is Ok) by {
                            reveal(called);
                        }
                    },
                }
            },
            _ => {},
        }
    }
}

/// Whether a request is a command for the store.
pub open spec fn is_command(body: DomainRequest) -> bool {
    body is AddMemory || body is UpdateMemory || body is Feedback || body is Relate
        || body is Unrelate || body is Merge || body is Forget
}

/// A command that was done and comes again, after a connection was lost say, is
/// answered as it was the first time, and nothing more happens.
pub proof fn law_command_sent_again_is_answered_again(
    d: DispatcherView,
    env: IpcEnvelope,
    hits: Seq<HitView>,
    later: Seq<HitView>,
)
    requires
        d.wf(),
        is_command(env.body),
        handled(d, env, hits).1 is Ok,
    ensures
        handled(handled(d, env, hits).0, env, later) == handled(d, env, hits),
{
    let session = d.registry.active(env.frontend_id, env.channel_id);
    let cmd = command_of(env.body, session)->0;
    let ctx = env.context(text_digest(env.body_json@));
    assert(handled(d, env, hits) == mutated(d, env));
    law_store_replay_is_idempotent(d.store, ctx, cmd, cmd);
}

/// Whether a request only looks.
pub open spec fn only_reads(body: DomainRequest) -> bool {
    match body {
        DomainRequest::GetMemories { .. } => true,
        DomainRequest::ListMemories => true,
        DomainRequest::Neighbors { .. } => true,
        DomainRequest::ToolCall { tool } => tool is MemoryStats || tool is MemoryAudit
            || tool is MemoryLibrary || tool is SemanticSearch || tool is GuideGet
            || tool is SessionStats || tool is ConflictScan || tool is ProactiveAnalysis
            || tool is ProjectAnalytics,
        _ => false,
    }
}

/// A request that only looks changes nothing.
pub proof fn law_looking_changes_nothing(d: DispatcherView, env: IpcEnvelope, hits: Seq<HitView>)
    requires
        only_reads(env.body),
    ensures
        handled(d, env, hits).0 == d,
{
    reveal(called);
}

// ---------------------------------------------------------------------------
// Sessions
// ---------------------------------------------------------------------------

proof fn lemma_changed_status(
    r: RegistryView,
    h: SessionHandle,
    change: spec_fn(SessionView) -> SessionView,
)
    requires
        r.wf(),
        has_session(r.sessions, h),
        forall|s: SessionView| (#[trigger] change(s)).handle == s.handle,
    ensures
        has_session(r.with_change(h, change).sessions, h),
        session_of(r.with_change(h, change).sessions, h) == change(session_of(r.sessions, h)),
        r.with_change(h, change).wf(),
{
    let after = r.with_change(h, change).sessions;
    let i = choose|i: int| 0 <= i < r.sessions.len() && (#[trigger] r.sessions[i]).handle == h;
    assert(change(r.sessions[i]).handle == h);
    assert forall|x: int, y: int| 0 <= x < y < after.len() implies (#[trigger] after[x]).handle != (
    #[trigger] after[y]).handle by {
        assert(r.sessions[x].handle != r.sessions[y].handle);
        assert(change(r.sessions[x]).handle == r.sessions[x].handle);
        assert(change(r.sessions[y]).handle == r.sessions[y].handle);
    }
    assert(after[i] == change(r.sessions[i]));
    lemma_session_at(r.sessions, i, change);
    lemma_session_at(after, i, change);
}

/// A session ends once: the same call again, or any other to end it, is told
/// that there is none, and changes nothing. So a retry counts nothing twice.
pub proof fn law_a_session_ends_once(
    d: DispatcherView,
    env: IpcEnvelope,
    args: SessionEndArgs,
    again: SessionEndArgs,
)
    requires
        d.wf(),
        d.registry.active(env.frontend_id, env.channel_id) is Some,
        !blank(args.outcome@),
        TaskOutcome::named(args.outcome@) is Some,
        !blank(again.outcome@),
        TaskOutcome::named(again.outcome@) is Some,
    ensures
        ({
            let after = session_end(d, env, args).0;
            &&& after.registry.active(env.frontend_id, env.channel_id) is None
            &&& session_end(after, env, again) == (after, err_view("No active session to end."@))
        }),
{
    reveal(session_end);
    let h = d.registry.active(env.frontend_id, env.channel_id)->0;
    let outcome = TaskOutcome::named(args.outcome@)->0;
    let change = |s: SessionView|
        ended(s, outcome, opt_view(args.final_approach), views(args.lessons@), d.store.now);
    lemma_changed_status(d.registry, h, change);
}

proof fn lemma_recall_keeps(
    r: RegistryView,
    ds: Seq<DeadEndView>,
    n: int,
    now: u64,
    f: FrontendId,
    c: ChannelId,
)
    requires
        r.wf(),
    ensures
        recalled_dead_ends(r, ds, n, now).channels == r.channels,
    decreases n,
{
    if n > 0 {
        lemma_recall_keeps(r, ds, n - 1, now, f, c);
    }
}

/// A session that was started is the one of its channel, under the next handle.
pub proof fn law_a_started_session_goes_on(
    d: DispatcherView,
    env: IpcEnvelope,
    args: SessionStartArgs,
)
    requires
        d.wf(),
        !blank(args.task_type@),
    ensures
        session_start(d, env, args).0.registry.active(env.frontend_id, env.channel_id) == Some(
            SessionHandle(d.registry.handle_gen as u128),
        ),
{
    reveal(session_start);
    let f = env.frontend_id;
    let c = env.channel_id;
    let now = d.store.now;
    let h = SessionHandle(d.registry.handle_gen as u128);
    let none = Set::<SessionHandle>::empty();
    let r0 = decayed(d.registry, Score(DECAY_STEP)).with_abandoned(f, c, now);
    lemma_start_leaves_alone(d.registry, env, args, now);
    lemma_decay_leaves_alone(d.registry, Score(DECAY_STEP), f, c, none);
    if let Some(x) = decayed(d.registry, Score(DECAY_STEP)).active(f, c) {
        lemma_change_leaves_alone(
            decayed(d.registry, Score(DECAY_STEP)),
            x,
            |s: SessionView| abandoned(s, Some(TaskOutcome::Abandoned), now),
            f,
            c,
            none.insert(x),
        );
    }
    assert(r0.wf() && r0.handle_gen == d.registry.handle_gen);
    let techs = views(args.technologies@);
    law_started_session_is_active(r0, f, c, None, Some(args.task_type@), techs, now);
    let r1 = r0.with_new_session(f, c, None, Some(args.task_type@), techs, now);
    lemma_new_session_leaves_alone(
        r0,
        f,
        c,
        None,
        Some(args.task_type@),
        techs,
        now,
        none.insert(h),
    );
    let approach = |s: SessionView|
        SessionView { initial_approach: opt_view(args.initial_approach), ..s };
    lemma_change_leaves_alone(r1, h, approach, f, c, none);
    let r2 = started(d.registry, env, args, now);
    assert(r2 == r1.with_change(h, approach));
    let ms = preloaded(d.store, task_text(args));
    let read = |s: SessionView|
        SessionView { memories_read: with_texts(s.memories_read, names_of(ms)), ..s };
    lemma_active_change_leaves_alone(r2, f, c, read, none);
    let r3 = read_noted(r2, env, names_of(ms));
    let dead = dead_ends(r3.sessions, args.task_type@, None);
    let n = dead.len() as int;
    lemma_recall_leaves_alone(r3, dead, n, now, f, c, none);
    lemma_recall_keeps(r3, dead, n, now, f, c);
    let r4 = recalled_dead_ends(r3, dead, n, now);
    assert(r4.channels == r1.channels);
    assert(same_status(r1, r2, h));
    assert(same_status(r2, r3, h));
    assert(same_status(r3, r4, h));
}

// ---------------------------------------------------------------------------
// Memories
// ---------------------------------------------------------------------------

proof fn lemma_put_back(ms: Seq<MemoryView>, x: MemoryView)
    requires
        unique_memories(ms),
        has_memory(ms, x.id),
    ensures
        has_memory(with_memory(ms, x), x.id),
        memory_of(with_memory(ms, x), x.id) == x,
{
    let i = choose|i: int| 0 <= i < ms.len() && (#[trigger] ms[i]).id == x.id;
    lemma_edited_at(ms, i, |y: MemoryView| x);
    let after = with_memory(ms, x);
    assert(after == ms.update(i, x));
    assert forall|a: int, b: int| 0 <= a < b < after.len() implies (#[trigger] after[a]).id != (
    #[trigger] after[b]).id by {
        assert(ms[a].id != ms[b].id);
    }
    lemma_edited_at(after, i, |y: MemoryView| y);
}

/// What was added is there under the name in the answer: with the text that was
/// sent, but for the secrets in it unless the caller insisted, under the title,
/// type, source and project that were given, live, fully trusted and not used. It
/// bears the session that goes on, and is a candidate for a guide if it is a
/// pattern or a lesson.
pub proof fn law_added_memory_is_found(d: DispatcherView, env: IpcEnvelope, args: MemoryAddArgs)
    requires
        d.wf(),
        !has_receipt(
            d.store.receipts,
            env.store_generation,
            env.sub_context(0).operation_id,
        ),
        memory_add(d, env, args).1 is Ok,
        !(memory_add(d, env, args).1->Ok_0.is_error),
    ensures
        ({
            let (after, answer) = memory_add(d, env, args);
            let name = new_name(env.operation_id);
            &&& answer->Ok_0.structured == Some(ToolDataView::Added { id: name })
            &&& match looked_up(after.store, name) {
                Some(m) => {
                    &&& m.lifecycle is Live
                    &&& m.fragment == if args.confirm {
                        args.fragment@
                    } else {
                        redacted(args.fragment@)
                    }
                    &&& args.title is Some ==> m.title == args.title->0@
                    &&& args.title is None && m.fragment.len() <= 40 ==> m.title == m.fragment
                    &&& args.description is Some ==> m.description == args.description->0@
                    &&& m.project == project_of(opt_view(args.project))
                    &&& args.project is None ==> m.project is None
                    &&& m.fragment_type == match args.fragment_type {
                        Some(t) => match FragmentType::named(t@) {
                            Some(kind) => kind,
                            None => FragmentType::Fact,
                        },
                        None => FragmentType::Fact,
                    }
                    &&& args.source is Some && MemorySource::named(args.source->0@) is Some
                        ==> Some(m.source) == MemorySource::named(args.source->0@)
                    &&& args.source is None ==> m.source is Ai
                    &&& m.confidence == Score(4_607_182_418_800_017_408)
                    &&& m.access_count == 0 && m.positive_feedback == 0 && m.negative_feedback
                        == 0
                    &&& m.created_at == Instant(d.store.now)
                    &&& m.distill_candidate <==> m.fragment_type is Pattern || m.fragment_type
                        is Lesson
                    &&& d.registry.active(env.frontend_id, env.channel_id) matches Some(h)
                        ==> m.session_id == Some(uuid_text(h.0))
                    &&& m.evidence.len() == if args.evidence is Some {
                        1nat
                    } else {
                        0
                    }
                    &&& args.evidence is Some ==> m.evidence[0].file == args.evidence->0.file@
                        && m.evidence[0].snippet == args.evidence->0.snippet@
                },
                None => false,
            }
        }),
{
    reveal(memory_add);
    let m = added_memory(env.operation_id, args, d.store.now);
    let ctx = env.sub_context(0);
    let cmd = DomainCommandView::AddMemory { memory: m, session: None };
    let (store, r) = stored(d.store, ctx, cmd);
    assert(takes_effect(d.store, ctx, cmd));
    law_added_memory_reads_back(d.store, ctx, m, cmd, m.id);
    let d1 = issued(d, env, 0, cmd).0;
    let kept = found(d1.store.memories, seq![m.id])[0];
    reveal_with_fuel(found, 3);
    assert(seq![m.id].drop_last() =~= Seq::empty());
    let d2 = linked(d1, env, m);
    assert(has_memory(d1.store.memories, m.id));
    lemma_pushed_others(d.store.memories, d1.store.memories.last(), m.id);
    if let Some(h) = d1.registry.active(env.frontend_id, env.channel_id) {
        let x = in_session(m, session_of(d1.registry.sessions, h));
        lemma_put_back(d1.store.memories, x);
    }
    let ms = kin(by_id(d.store.memories), m.id, m.fragment);
    let d3 = auto_linked(d2, env, m.id, m.fragment, ms).0;
    assert(d3.store.memories == d2.store.memories && d3.store.aliases == d2.store.aliases);
}

// ---------------------------------------------------------------------------
// Guides
// ---------------------------------------------------------------------------

proof fn lemma_no_place(gs: Seq<GuideView>, key: Seq<char>, from: int)
    requires
        0 <= from <= gs.len(),
        forall|i: int| from <= i < gs.len() ==> guide_key((#[trigger] gs[i]).name) != key,
    ensures
        guide_place(gs, key, from) == gs.len(),
    decreases gs.len() - from,
{
    if from < gs.len() {
        lemma_no_place(gs, key, from + 1);
    }
}

proof fn lemma_only_place(gs: Seq<GuideView>, key: Seq<char>, at: int, from: int)
    requires
        0 <= from <= at < gs.len(),
        guide_key(gs[at].name) == key,
        forall|i: int| from <= i < at ==> guide_key((#[trigger] gs[i]).name) != key,
    ensures
        guide_place(gs, key, from) == at,
    decreases at - from,
{
    if from < at {
        lemma_only_place(gs, key, at, from + 1);
    }
}

proof fn lemma_slot_bounds(gs: Seq<GuideView>, key: Seq<char>, from: int)
    requires
        0 <= from <= gs.len(),
    ensures
        from <= guide_slot(gs, key, from) <= gs.len(),
    decreases gs.len() - from,
{
    if from < gs.len() {
        lemma_slot_bounds(gs, key, from + 1);
    }
}

/// A guide that was put in is the one of its name, whatever the name's case and
/// the space around it.
pub proof fn law_kept_guide_reads_back(gs: Seq<GuideView>, g: GuideView, name: Seq<char>)
    requires
        guide_key(name) == guide_key(g.name),
    ensures
        guide_of(with_guide(gs, g), name) == Some(g),
{
    let key = guide_key(g.name);
    let rest = without_key(gs, key);
    lemma_filter_members(gs, |x: GuideView| guide_key(x.name) != key);
    lemma_slot_bounds(rest, key, 0);
    let p = guide_slot(rest, key, 0);
    let all = with_guide(gs, g);
    assert(all[p] == g);
    assert forall|i: int| 0 <= i < p implies guide_key((#[trigger] all[i]).name) != key by {
        assert(all[i] == rest[i]);
    }
    lemma_only_place(all, key, p, 0);
}

/// A guide that was forgotten is gone, and no memory refers to it.
pub proof fn law_forgotten_guide_is_gone(d: DispatcherView, args: GuideForgetArgs)
    requires
        !blank(args.guide@),
        guide_of(d.store.guides, args.guide@) is Some,
        guide_key(args.guide@).len() > 0,
    ensures
        ({
            let after = guide_forget(d, args).0.store;
            &&& guide_of(after.guides, args.guide@) is None
            &&& forall|i: int, k: int|
                0 <= i < after.memories.len() && 0 <= k < after.memories[i].related_guides.len()
                    ==> !eq_fold(
                    #[trigger] after.memories[i].related_guides[k],
                    guide_key(args.guide@),
                )
        }),
{
    reveal(guide_forget);
    let key = guide_key(args.guide@);
    let after = guide_forget(d, args).0.store;
    lemma_filter_members(d.store.guides, |x: GuideView| guide_key(x.name) != key);
    lemma_no_place(after.guides, key, 0);
    assert forall|i: int, k: int|
        0 <= i < after.memories.len() && 0 <= k < after.memories[i].related_guides.len() implies
        !eq_fold(#[trigger] after.memories[i].related_guides[k], key) by {
        let m = d.store.memories[i];
        assert(after.memories[i] == unlinked(m, key));
        lemma_filter_members(m.related_guides, |g: Seq<char>| !eq_fold(g, key));
        if !holds_folded(m.related_guides, key) {
            assert(!eq_fold(m.related_guides[k], key));
        }
    }
}

/// A guide that is renamed takes the references to it along: no memory refers
/// to the old name, and one that did refers to the new.
pub proof fn law_renamed_guide_takes_references(
    d: DispatcherView,
    args: GuideUpdateArgs,
    i: int,
    k: int,
)
    requires
        !blank(args.guide@),
        guide_of(d.store.guides, args.guide@) is Some,
        ({
            let g = guide_of(d.store.guides, args.guide@)->0;
            let kept = updated_guide(g, args, d.store.now);
            &&& !eq_fold(g.name, kept.name)
            &&& guide_key(g.name).len() > 0
            &&& !eq_fold(guide_key(kept.name), guide_key(g.name))
        }),
        0 <= i < d.store.memories.len(),
        0 <= k < d.store.memories[i].related_guides.len(),
    ensures
        ({
            let g = guide_of(d.store.guides, args.guide@)->0;
            let kept = updated_guide(g, args, d.store.now);
            let before = d.store.memories[i].related_guides;
            let after = guide_update(d, args).0.store.memories[i].related_guides;
            &&& after.len() == before.len()
            &&& !eq_fold(after[k], guide_key(g.name))
            &&& eq_fold(before[k], guide_key(g.name)) ==> after[k] == guide_key(kept.name)
            &&& !eq_fold(before[k], guide_key(g.name)) ==> after[k] == before[k]
        }),
{
    reveal(guide_update);
    let g = guide_of(d.store.guides, args.guide@)->0;
    let kept = updated_guide(g, args, d.store.now);
    let from = guide_key(g.name);
    let m = d.store.memories[i];
    if from == guide_key(kept.name) {
        assert(eq_fold(guide_key(kept.name), from));
    }
    assert(guide_update(d, args).0.store.memories[i] == renamed(m, from, guide_key(kept.name)));
    if !holds_folded(m.related_guides, from) {
        assert(!eq_fold(m.related_guides[k], from));
    }
}

// ---------------------------------------------------------------------------
// Retry namespaces
// ---------------------------------------------------------------------------

proof fn lemma_never_stale(s: StateView, ctx: CommandContextView, cmd: DomainCommandView)
    ensures
        stored(s, ctx, cmd).1 is Err ==> !(stored(s, ctx, cmd).1->Err_0.code is StaleReplay),
{
}

/// A command is refused as a stale replay exactly where its epoch is not the one
/// that was issued to the frontend, or has run out. Then nothing happens, be the
/// command new or one that was done before.
pub proof fn law_stale_replay_is_refused(
    d: DispatcherView,
    env: IpcEnvelope,
    n: nat,
    cmd: DomainCommandView,
)
    ensures
        !d.admits(env) ==> issued(d, env, n, cmd) == (
            d,
            Err::<CommandReceiptView, DomainErrorView>(stale()),
        ),
        issued(d, env, n, cmd).1 is Err && issued(d, env, n, cmd).1->Err_0.code is StaleReplay
            ==> !d.admits(env),
        ({
            let active = d.registry.active(env.frontend_id, env.channel_id);
            command_of(env.body, active) is Some ==> {
                &&& !d.admits(env) ==> mutated(d, env) == (
                    d,
                    Err::<IpcResponseView, DomainErrorView>(stale()),
                )
                &&& mutated(d, env).1 is Err && mutated(d, env).1->Err_0.code is StaleReplay
                    ==> !d.admits(env)
            }
        }),
{
    lemma_never_stale(d.store, env.sub_context(n), cmd);
    let active = d.registry.active(env.frontend_id, env.channel_id);
    if let Some(c) = command_of(env.body, active) {
        lemma_never_stale(d.store, env.context(text_digest(env.body_json@)), c);
    }
}

/// Without an open epoch no tool adds, changes, forgets, merges or relates a
/// memory, nor counts a read.
pub proof fn law_unadmitted_tools_change_no_memory(
    d: DispatcherView,
    env: IpcEnvelope,
    tool: ToolArgs,
    hits: Seq<HitView>,
)
    requires
        !d.admits(env),
        tool is MemoryRead || tool is MemoryAdd || tool is MemoryUpdate || tool is MemoryFeedback
            || tool is MemoryForget || tool is MemoryMerge || tool is MemoryRelate,
    ensures
        called(d, env, tool, hits).0 == d,
{
    reveal(called);
    reveal(memory_read);
    reveal(memory_add);
    reveal(memory_update);
    reveal(memory_feedback);
    reveal(memory_forget);
    reveal(memory_merge);
    reveal(memory_relate);
}

/// A frontend whose handshake was answered may send commands under the epoch in
/// the answer, and under no other.
pub proof fn law_handshake_admits(d: DispatcherView, env: IpcEnvelope)
    requires
        d.store.now < u64::MAX,
    ensures
        ({
            let after = DispatcherView {
                namespaces: with_issued(d.namespaces, env.frontend_id, d.store.now),
                ..d
            };
            after.admits(env) <==> env.retry_epoch == namespace_for(
                d.namespaces,
                env.frontend_id,
                d.store.now,
            ).retry_epoch
        }),
{
    law_issued_is_held(d.namespaces, env.frontend_id, env.frontend_id, d.store.now);
}

} // verus!
